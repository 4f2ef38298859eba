//! What a GIF stream decodes to.

use vstd::prelude::*;
use crate::colors::RGB;
use crate::image_buffer::ImageBuffer;

verus! {

/// The GIF version named by the header.
#[derive(Debug, Copy, Clone, PartialEq, Eq, PartialOrd, Ord, Hash, Structural)]
pub enum Version {
    Version87a,
    Version89a,
}

impl Version {
    /// The three version bytes of the header.
    pub open spec fn spec_bytes(self) -> Seq<u8> {
        match self {
            Version::Version87a => seq![56u8, 55u8, 97u8],
            Version::Version89a => seq![56u8, 57u8, 97u8],
        }
    }

    /// The three version bytes of the header (`87a` or `89a`).
    pub fn as_bytes(&self) -> (r: [u8; 3])
        ensures
            r@ == self.spec_bytes(),
    {
        let r = match self {
            Version::Version87a => [56u8, 55u8, 97u8],
            Version::Version89a => [56u8, 57u8, 97u8],
        };
        assert(r@ =~= self.spec_bytes());
        r
    }
}

/// How a frame is to be disposed of before the next one is drawn.
#[derive(Debug, Copy, Clone, PartialEq, Eq, Structural)]
pub enum DisposalMethod {
    /// No disposal specified.
    NoDisposal,
    /// Leave the frame in place.
    DoNotDispose,
    /// Restore the background colour.
    RestoreBackground,
    /// Restore what was there before.
    RestorePrevious,
}

/// The disposal method with code `value`; unknown codes mean no disposal.
pub open spec fn disposal_of(value: u8) -> DisposalMethod {
    if value == 1 {
        DisposalMethod::DoNotDispose
    } else if value == 2 {
        DisposalMethod::RestoreBackground
    } else if value == 3 {
        DisposalMethod::RestorePrevious
    } else {
        DisposalMethod::NoDisposal
    }
}

impl From<u8> for DisposalMethod {
    fn from(value: u8) -> (r: DisposalMethod) {
        match value {
            1 => DisposalMethod::DoNotDispose,
            2 => DisposalMethod::RestoreBackground,
            3 => DisposalMethod::RestorePrevious,
            _ => DisposalMethod::NoDisposal,
        }
    }
}

impl vstd::std_specs::convert::FromSpecImpl<u8> for DisposalMethod {
    open spec fn obeys_from_spec() -> bool {
        true
    }

    open spec fn from_spec(v: u8) -> DisposalMethod {
        disposal_of(v)
    }
}

/// The frames of an animation.
pub struct MultiGIF {
    pub images: Vec<ImageBuffer<RGB>>,
    pub delay_time: u16,
    pub frame_disposal: DisposalMethod,
    pub user_input: bool,
}

/// A decoded GIF: nothing, one image, or an animation.
pub enum GIFImage {
    Empty,
    Single(ImageBuffer<RGB>),
    Animation(MultiGIF),
}

} // verus!
