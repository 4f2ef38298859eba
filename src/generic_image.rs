//! Images as rectangles of pixels.

use vstd::prelude::*;
use crate::pixel::Pixel;

verus! {

/// Whether `(i, j)` lies in the rectangle of size `w` x `h` at `(ox, oy)`.
pub open spec fn in_rect(i: int, j: int, ox: int, oy: int, w: int, h: int) -> bool {
    ox <= i < ox + w && oy <= j < oy + h
}

/// A readable image.
pub trait GenericImage: Sized {
    type Pixel: Pixel;

    spec fn img_width(&self) -> nat;

    spec fn img_height(&self) -> nat;

    /// The channels of the pixel at `(x, y)`.
    spec fn pixel_at(&self, x: int, y: int) -> Seq<u8>;

    spec fn wf(&self) -> bool;

    fn dimensions(&self) -> (r: (u32, u32))
        ensures
            r.0 as nat == self.img_width(),
            r.1 as nat == self.img_height(),
    ;

    fn width(&self) -> (r: u32)
        ensures
            r as nat == self.img_width(),
    {
        let (w, _) = self.dimensions();
        w
    }

    fn height(&self) -> (r: u32)
        ensures
            r as nat == self.img_height(),
    {
        let (_, h) = self.dimensions();
        h
    }

    /// Whether `(x, y)` lies on the image.
    fn in_bounds(&self, x: u32, y: u32) -> (r: bool)
        ensures
            r == (x < self.img_width() && y < self.img_height()),
    {
        let (w, h) = self.dimensions();
        x < w && y < h
    }

    /// The pixel at `(x, y)`, which lies on the image.
    fn get_pixel(&self, x: u32, y: u32) -> (r: Self::Pixel)
        requires
            self.wf(),
            x < self.img_width(),
            y < self.img_height(),
        ensures
            r.spec_channels() == self.pixel_at(x as int, y as int),
    ;

    /// The pixel at `(x, y)`, or `None` off the image.
    fn get_pixel_checked(&self, x: u32, y: u32) -> (r: Option<Self::Pixel>)
        requires
            self.wf(),
        ensures
            r is Some <==> x < self.img_width() && y < self.img_height(),
            r is Some ==> r->Some_0.spec_channels() == self.pixel_at(x as int, y as int),
    ;
}

/// A writable image.
pub trait GenericImageMut: GenericImage {
    /// Writes `pixel` at `(x, y)`, which lies on the image.
    fn put_pixel(&mut self, x: u32, y: u32, pixel: Self::Pixel)
        requires
            old(self).wf(),
            x < old(self).img_width(),
            y < old(self).img_height(),
        ensures
            final(self).wf(),
            final(self).img_width() == old(self).img_width(),
            final(self).img_height() == old(self).img_height(),
            forall|i: int, j: int|
                0 <= i < old(self).img_width() && 0 <= j < old(self).img_height()
                    ==> #[trigger] final(self).pixel_at(i, j) == if i == x && j == y {
                    pixel.spec_channels()
                } else {
                    old(self).pixel_at(i, j)
                },
    ;

    /// Fills the rectangle of size `width` x `height` at `(offset_x, offset_y)`
    /// with `data`, row by row; the part of the rectangle off the image is
    /// dropped. Fails, and writes nothing, when `data` holds fewer than
    /// `width * height` pixels.
    fn put_rect(
        &mut self,
        offset_x: u32,
        offset_y: u32,
        width: u32,
        height: u32,
        data: &[Self::Pixel],
    ) -> (r: Result<(), ()>)
        requires
            old(self).wf(),
        ensures
            final(self).wf(),
            final(self).img_width() == old(self).img_width(),
            final(self).img_height() == old(self).img_height(),
            r is Ok <==> data@.len() >= width * height,
            r is Err ==> *final(self) == *old(self),
            r is Ok ==> forall|i: int, j: int|
                0 <= i < old(self).img_width() && 0 <= j < old(self).img_height()
                    ==> #[trigger] final(self).pixel_at(i, j) == if in_rect(
                    i,
                    j,
                    offset_x as int,
                    offset_y as int,
                    width as int,
                    height as int,
                ) {
                    data@[(j - offset_y) * width + (i - offset_x)].spec_channels()
                } else {
                    old(self).pixel_at(i, j)
                },
    ;
}

} // verus!
