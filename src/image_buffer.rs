//! A raster canvas: a rectangle of pixels stored channel by channel.

use vstd::prelude::*;
use std::marker::PhantomData;
use crate::pixel::Pixel;
use crate::generic_image::{GenericImage, GenericImageMut, in_rect};

verus! {

/// Pixel `(x, y)` of a `w`-wide image starts at channel `(y * w + x) * cc`,
/// and the channels of two different pixels do not overlap.
proof fn lemma_cell_layout(x: int, y: int, i: int, j: int, w: int, h: int, cc: int)
    requires
        0 <= x < w,
        0 <= i < w,
        0 <= y < h,
        0 <= j < h,
        1 <= cc,
    ensures
        (y * w + x) * cc + cc <= w * h * cc,
        (x != i || y != j) ==> (j * w + i) * cc + cc <= (y * w + x) * cc || (y * w + x) * cc + cc
            <= (j * w + i) * cc,
{
    assert(y * w + x + 1 <= w * h) by (nonlinear_arith)
        requires
            0 <= x < w,
            0 <= y < h,
    ;
    assert((y * w + x) * cc + cc <= w * h * cc) by (nonlinear_arith)
        requires
            y * w + x + 1 <= w * h,
            1 <= cc,
    ;
    if x != i || y != j {
        let k1 = j * w + i;
        let k2 = y * w + x;
        assert(k1 != k2) by (nonlinear_arith)
            requires
                0 <= x < w,
                0 <= i < w,
                0 <= y,
                0 <= j,
                x != i || y != j,
                k1 == j * w + i,
                k2 == y * w + x,
        ;
        assert(k1 * cc + cc <= k2 * cc || k2 * cc + cc <= k1 * cc) by (nonlinear_arith)
            requires
                k1 != k2,
                1 <= cc,
        ;
    }
}

/// A `width` x `height` image whose pixels are of type `P`, stored row by
/// row, each pixel as its channels.
#[derive(Debug)]
pub struct ImageBuffer<P: Pixel> {
    width: u32,
    height: u32,
    _phantom: PhantomData<P>,
    data: Vec<u8>,
}

impl<P: Pixel> ImageBuffer<P> {
    /// The channels of the image, row by row.
    pub closed spec fn spec_data(&self) -> Seq<u8> {
        self.data@
    }

    /// Index of the first channel of pixel `(x, y)`, which lies on the image.
    fn get_pixel_range(&self, x: u32, y: u32) -> (r: usize)
        requires
            self.wf(),
            x < self.width,
            y < self.height,
        ensures
            r == (y * self.width + x) * P::spec_channel_count(),
            r + P::spec_channel_count() <= self.data@.len(),
            self.data@.len() <= usize::MAX,
    {
        let num_channels = P::channel_count() as usize;
        let total = self.data.len();
        proof {
            lemma_cell_layout(
                x as int,
                y as int,
                x as int,
                y as int,
                self.width as int,
                self.height as int,
                num_channels as int,
            );
            assert(y * self.width + x <= (y * self.width + x) * num_channels) by (nonlinear_arith)
                requires
                    num_channels >= 1,
                    y * self.width + x >= 0,
            ;
            assert(0 <= y * self.width) by (nonlinear_arith)
                requires
                    y >= 0,
                    self.width >= 0,
            ;
        }
        (y as usize * self.width as usize + x as usize) * num_channels
    }

    /// The image over `buffer`, or `None` when `buffer` is too small to hold
    /// `width * height` pixels; channels beyond those are dropped.
    pub fn from_container(width: u32, height: u32, buffer: Vec<u8>) -> (r: Option<Self>)
        ensures
            r is Some <==> buffer@.len() >= width * height * P::spec_channel_count(),
            r is Some ==> {
                &&& r->Some_0.wf()
                &&& r->Some_0.img_width() == width
                &&& r->Some_0.img_height() == height
                &&& r->Some_0.spec_data() == buffer@.subrange(
                    0,
                    width * height * P::spec_channel_count(),
                )
            },
    {
        let cc = P::channel_count() as u128;
        let w = width as u128;
        let h = height as u128;
        proof {
            assert(w * h <= 0x1_0000_0000_0000_0000) by (nonlinear_arith)
                requires
                    w <= 0x1_0000_0000,
                    h <= 0x1_0000_0000,
            ;
            assert(w * h * cc <= 0x4_0000_0000_0000_0000) by (nonlinear_arith)
                requires
                    w <= 0x1_0000_0000,
                    h <= 0x1_0000_0000,
                    cc <= 4,
            ;
        }
        let needed = w * h * cc;
        if (buffer.len() as u128) < needed {
            return None;
        }
        let mut data = buffer;
        data.truncate(needed as usize);
        Some(ImageBuffer { data, width, height, _phantom: PhantomData })
    }

    /// A well-formed image holds `width * height` pixels of channels.
    pub proof fn lemma_data_len(&self)
        requires
            self.wf(),
        ensures
            self.spec_data().len() == self.img_width() * self.img_height() * P::spec_channel_count(),
    {
    }

    /// The channels of a pixel on the image lie in its data.
    pub proof fn lemma_pixel_in_data(&self, x: int, y: int)
        requires
            self.wf(),
            0 <= x < self.img_width(),
            0 <= y < self.img_height(),
        ensures
            0 <= (y * self.img_width() + x) * P::spec_channel_count(),
            (y * self.img_width() + x) * P::spec_channel_count() + P::spec_channel_count()
                <= self.spec_data().len(),
            self.pixel_at(x, y) == self.spec_data().subrange(
                (y * self.img_width() + x) * P::spec_channel_count(),
                (y * self.img_width() + x) * P::spec_channel_count() + P::spec_channel_count(),
            ),
    {
        P::lemma_count_bounds();
        lemma_cell_layout(
            x,
            y,
            x,
            y,
            self.width as int,
            self.height as int,
            P::spec_channel_count() as int,
        );
        assert(0 <= (y * self.width + x) * P::spec_channel_count()) by (nonlinear_arith)
            requires
                0 <= x,
                0 <= y,
                self.width >= 0,
        ;
    }

    /// The channels of the image, row by row.
    pub fn into_container(self) -> (r: Vec<u8>)
        ensures
            r@ == self.spec_data(),
            self.wf() ==> r@.len() == self.img_width() * self.img_height() * P::spec_channel_count(),
    {
        self.data
    }

    /// The channels of the image, row by row.
    pub fn as_container(&self) -> (r: &Vec<u8>)
        ensures
            r@ == self.spec_data(),
            self.wf() ==> r@.len() == self.img_width() * self.img_height() * P::spec_channel_count(),
    {
        &self.data
    }

    /// A `width` x `height` image with every channel 0.
    pub fn new(width: u32, height: u32) -> (r: ImageBuffer<P>)
        requires
            width * height * P::spec_channel_count() <= usize::MAX,
        ensures
            r.wf(),
            r.img_width() == width,
            r.img_height() == height,
            forall|i: int| 0 <= i < r.spec_data().len() ==> r.spec_data()[i] == 0,
    {
        let cc = P::channel_count() as usize;
        proof {
            assert(width * height <= width * height * cc) by (nonlinear_arith)
                requires
                    cc >= 1,
                    width >= 0,
                    height >= 0,
            ;
        }
        let size = width as usize * height as usize * cc;
        ImageBuffer { data: vec![0u8; size], width, height, _phantom: PhantomData }
    }

    /// The image over `buffer`; see [`ImageBuffer::from_container`].
    pub fn from_vec(width: u32, height: u32, buffer: Vec<u8>) -> (r: Option<ImageBuffer<P>>)
        ensures
            r is Some <==> buffer@.len() >= width * height * P::spec_channel_count(),
            r is Some ==> {
                &&& r->Some_0.wf()
                &&& r->Some_0.img_width() == width
                &&& r->Some_0.img_height() == height
                &&& r->Some_0.spec_data() == buffer@.subrange(
                    0,
                    width * height * P::spec_channel_count(),
                )
            },
    {
        ImageBuffer::from_container(width, height, buffer)
    }

    /// The channels of the image, row by row.
    pub fn into_vec(self) -> (r: Vec<u8>)
        ensures
            r@ == self.spec_data(),
            self.wf() ==> r@.len() == self.img_width() * self.img_height() * P::spec_channel_count(),
    {
        self.into_container()
    }
}

impl<P: Pixel> GenericImage for ImageBuffer<P> {
    type Pixel = P;

    closed spec fn img_width(&self) -> nat {
        self.width as nat
    }

    closed spec fn img_height(&self) -> nat {
        self.height as nat
    }

    closed spec fn pixel_at(&self, x: int, y: int) -> Seq<u8> {
        let cc = P::spec_channel_count();
        self.data@.subrange((y * self.width + x) * cc, (y * self.width + x) * cc + cc)
    }

    closed spec fn wf(&self) -> bool {
        self.data@.len() == self.width * self.height * P::spec_channel_count()
    }

    fn dimensions(&self) -> (r: (u32, u32)) {
        let w = self.width;
        let h = self.height;
        assert(h as nat == self.img_height());
        (w, h)
    }

    fn get_pixel(&self, x: u32, y: u32) -> (r: P) {
        let start = self.get_pixel_range(x, y);
        let cc = P::channel_count() as usize;
        let mut channels: Vec<u8> = Vec::new();
        let mut k: usize = 0;
        while k < cc
            invariant
                k <= cc,
                cc == P::spec_channel_count(),
                start + cc <= self.data@.len(),
                self.data@.len() <= usize::MAX,
                channels@ == self.data@.subrange(start as int, start + k),
            decreases cc - k,
        {
            channels.push(self.data[start + k]);
            k = k + 1;
            assert(channels@ =~= self.data@.subrange(start as int, start + k));
        }
        P::from_slice(channels.as_slice())
    }

    fn get_pixel_checked(&self, x: u32, y: u32) -> (r: Option<P>) {
        if !self.in_bounds(x, y) {
            return None;
        }
        Some(self.get_pixel(x, y))
    }
}

impl<P: Pixel> GenericImageMut for ImageBuffer<P> {
    fn put_pixel(&mut self, x: u32, y: u32, pixel: P) {
        let start = self.get_pixel_range(x, y);
        let cc = P::channel_count() as usize;
        let ghost old_data = self.data@;
        proof {
            pixel.lemma_channel_count();
        }
        let mut k: usize = 0;
        while k < cc
            invariant
                k <= cc,
                cc == P::spec_channel_count(),
                pixel.spec_channels().len() == cc,
                start + cc <= old_data.len(),
                old_data.len() <= usize::MAX,
                self.data@.len() == old_data.len(),
                self.width == old(self).width,
                self.height == old(self).height,
                forall|m: int|
                    0 <= m < old_data.len() ==> #[trigger] self.data@[m] == if start <= m < start + k {
                        pixel.spec_channels()[m - start]
                    } else {
                        old_data[m]
                    },
            decreases cc - k,
        {
            self.data.set(start + k, pixel.channel(k));
            k = k + 1;
        }
        proof {
            assert forall|i: int, j: int|
                0 <= i < self.width && 0 <= j < self.height implies #[trigger] self.pixel_at(i, j)
                == if i == x && j == y {
                    pixel.spec_channels()
                } else {
                    old(self).pixel_at(i, j)
                } by {
                lemma_cell_layout(
                    x as int,
                    y as int,
                    i,
                    j,
                    self.width as int,
                    self.height as int,
                    cc as int,
                );
                lemma_cell_layout(
                    i,
                    j,
                    i,
                    j,
                    self.width as int,
                    self.height as int,
                    cc as int,
                );
                assert(self.pixel_at(i, j) =~= if i == x && j == y {
                    pixel.spec_channels()
                } else {
                    old(self).pixel_at(i, j)
                });
            }
        }
    }

    fn put_rect(
        &mut self,
        offset_x: u32,
        offset_y: u32,
        width: u32,
        height: u32,
        data: &[P],
    ) -> (r: Result<(), ()>) {
        proof {
            assert(width as u64 * height as u64 <= 0xffff_ffff_ffff_ffff) by (nonlinear_arith)
                requires
                    width < 0x1_0000_0000,
                    height < 0x1_0000_0000,
            ;
        }
        if (data.len() as u64) < width as u64 * height as u64 {
            return Err(());
        }
        let (image_w, image_h) = self.dimensions();
        let ghost before = *self;
        let end_x: u64 = offset_x as u64 + width as u64;
        let end_y: u64 = offset_y as u64 + height as u64;

        let mut y: u32 = offset_y;
        while y < image_h && (y as u64) < end_y
            invariant
                self.wf(),
                self.width == before.width,
                self.height == before.height,
                image_w == self.width,
                image_h == self.height,
                offset_y <= y,
                end_x == offset_x + width,
                end_y == offset_y + height,
                data@.len() >= width * height,
                forall|i: int, j: int|
                    0 <= i < image_w && 0 <= j < image_h ==> #[trigger] self.pixel_at(i, j) == if in_rect(
                        i,
                        j,
                        offset_x as int,
                        offset_y as int,
                        width as int,
                        height as int,
                    ) && j < y {
                        data@[(j - offset_y) * width + (i - offset_x)].spec_channels()
                    } else {
                        before.pixel_at(i, j)
                    },
            decreases image_h - y,
        {
            let mut x: u32 = offset_x;
            while x < image_w && (x as u64) < end_x
                invariant
                    self.wf(),
                    self.width == before.width,
                    self.height == before.height,
                    image_w == self.width,
                    image_h == self.height,
                    offset_y <= y < image_h,
                    (y as u64) < end_y,
                    offset_x <= x,
                    end_x == offset_x + width,
                    end_y == offset_y + height,
                    data@.len() >= width * height,
                    forall|i: int, j: int|
                        0 <= i < image_w && 0 <= j < image_h ==> #[trigger] self.pixel_at(i, j)
                            == if in_rect(
                            i,
                            j,
                            offset_x as int,
                            offset_y as int,
                            width as int,
                            height as int,
                        ) && (j < y || (j == y && i < x)) {
                            data@[(j - offset_y) * width + (i - offset_x)].spec_channels()
                        } else {
                            before.pixel_at(i, j)
                        },
                decreases image_w - x,
            {
                let dy = (y - offset_y) as u64;
                let dx = (x - offset_x) as u64;
                proof {
                    assert(width as u64 * height as u64 <= 0xffff_ffff_ffff_ffff) by (nonlinear_arith)
                        requires
                            width < 0x1_0000_0000,
                            height < 0x1_0000_0000,
                    ;
                    assert(dy * width + dx < width * height) by (nonlinear_arith)
                        requires
                            dy < height,
                            dx < width,
                    ;
                }
                let data_index = dy * width as u64 + dx;
                self.put_pixel(x, y, data[data_index as usize]);
                x = x + 1;
            }
            y = y + 1;
        }
        Ok(())
    }
}

} // verus!
