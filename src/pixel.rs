//! Pixels as fixed-size tuples of 8-bit channels.

use vstd::prelude::*;

verus! {

/// The squared euclidean distance between two colours.
pub trait EuclidianDistance: Sized {
    spec fn spec_dist(&self, other: &Self) -> int;

    fn dist_euclidian(&self, other: &Self) -> (r: i32)
        ensures
            r as int == self.spec_dist(other),
    ;
}

/// A pixel: an ordered tuple of 8-bit channels.
pub trait Pixel: Sized + Copy {
    /// The channels of the pixel, in order.
    spec fn spec_channels(&self) -> Seq<u8>;

    /// How many channels every pixel of this type has.
    spec fn spec_channel_count() -> nat;

    /// Every pixel has exactly the type's channel count.
    proof fn lemma_channel_count(&self)
        ensures
            self.spec_channels().len() == Self::spec_channel_count(),
            1 <= Self::spec_channel_count() <= 4,
    ;

    /// Pixels have one to four channels.
    proof fn lemma_count_bounds()
        ensures
            1 <= Self::spec_channel_count() <= 4,
    ;

    fn channel_count() -> (r: u8)
        ensures
            r as nat == Self::spec_channel_count(),
            1 <= r <= 4,
    ;

    /// Channel `i` of the pixel.
    fn channel(&self, i: usize) -> (r: u8)
        requires
            i < Self::spec_channel_count(),
        ensures
            r == self.spec_channels()[i as int],
    ;

    /// The channels as a vector.
    fn channels(&self) -> (r: Vec<u8>)
        ensures
            r@ == self.spec_channels(),
    ;

    /// The pixel whose channels are `slice`.
    fn from_slice(slice: &[u8]) -> (r: Self)
        requires
            slice@.len() == Self::spec_channel_count(),
        ensures
            r.spec_channels() == slice@,
    ;

    /// The pixel with every channel 0.
    fn zero() -> (r: Self)
        ensures
            r.spec_channels() == Seq::new(Self::spec_channel_count(), |i: int| 0u8),
    ;
}

} // verus!
