//! The pixel types and colour layouts.

use vstd::prelude::*;
use crate::pixel::{EuclidianDistance, Pixel};

verus! {

/// The pixel layouts the library knows about.
#[derive(Copy, Clone, PartialEq, Eq, Debug, Hash, Structural)]
#[non_exhaustive]
pub enum ColorType {
    /// 8-bit luminance.
    L8,
    /// 8-bit red, green and blue channels.
    Rgb8,
}

impl ColorType {
    pub open spec fn spec_channel_count(self) -> u8 {
        match self {
            ColorType::L8 => 1,
            ColorType::Rgb8 => 3,
        }
    }

    /// Bytes that one pixel of this layout occupies.
    pub fn bytes_per_pixel(self) -> (r: u8)
        ensures
            r == self.spec_channel_count(),
    {
        match self {
            ColorType::L8 => 1,
            ColorType::Rgb8 => 3,
        }
    }

    /// Whether the layout carries an alpha channel (none of the known ones does).
    pub fn has_alpha(self) -> (r: bool)
        ensures
            !r,
    {
        match self {
            ColorType::L8 | ColorType::Rgb8 => false,
        }
    }

    /// Number of channels of one pixel.
    pub fn channel_count(self) -> (r: u8)
        ensures
            r == self.spec_channel_count(),
    {
        match self {
            ColorType::L8 => 1,
            ColorType::Rgb8 => 3,
        }
    }
}

/// A 24-bit colour: red, green and blue channels.
#[derive(Clone, Copy, Debug, Hash)]
pub struct RGB(pub [u8; 3]);

/// An 8-bit luminance value.
#[derive(Clone, Copy, Debug, Hash)]
pub struct Luma(pub [u8; 1]);

/// The square of `a - b`.
pub open spec fn sq_diff(a: u8, b: u8) -> int {
    (a as int - b as int) * (a as int - b as int)
}

/// The square of the difference of two channels, which fits an `i32`.
fn channel_dist(a: u8, b: u8) -> (r: i32)
    ensures
        r as int == sq_diff(a, b),
        0 <= r <= 65025,
{
    let d: i32 = a as i32 - b as i32;
    proof {
        assert(-255 <= d <= 255);
        assert(0 <= d * d <= 65025) by (nonlinear_arith)
            requires
                -255 <= d <= 255,
        ;
    }
    d * d
}

impl RGB {
    /// The colour with the given channels.
    pub fn new(r: u8, g: u8, b: u8) -> (res: RGB)
        ensures
            res.0@ == seq![r, g, b],
    {
        let res = RGB([r, g, b]);
        assert(res.0@ =~= seq![r, g, b]);
        res
    }

    /// Black: every channel 0.
    pub fn black() -> (res: RGB)
        ensures
            res.0@ == seq![0u8, 0u8, 0u8],
    {
        RGB::new(0, 0, 0)
    }
}

impl Pixel for RGB {
    open spec fn spec_channels(&self) -> Seq<u8> {
        self.0@
    }

    open spec fn spec_channel_count() -> nat {
        3
    }

    proof fn lemma_channel_count(&self) {
    }

    proof fn lemma_count_bounds() {
    }

    fn channel_count() -> (r: u8) {
        3
    }

    fn channel(&self, i: usize) -> (r: u8) {
        self.0[i]
    }

    fn channels(&self) -> (r: Vec<u8>) {
        let r = vec![self.0[0], self.0[1], self.0[2]];
        assert(r@ =~= self.0@);
        r
    }

    fn from_slice(slice: &[u8]) -> (r: Self) {
        let r = RGB([slice[0], slice[1], slice[2]]);
        assert(r.0@ =~= slice@);
        r
    }

    fn zero() -> (r: Self) {
        let r = RGB([0u8, 0u8, 0u8]);
        assert(r.0@ =~= Seq::new(3, |i: int| 0u8));
        r
    }
}

impl EuclidianDistance for RGB {
    open spec fn spec_dist(&self, other: &Self) -> int {
        sq_diff(self.0[0], other.0[0]) + sq_diff(self.0[1], other.0[1]) + sq_diff(self.0[2], other.0[2])
    }

    fn dist_euclidian(&self, other: &Self) -> (r: i32) {
        let r = channel_dist(self.0[0], other.0[0]);
        let g = channel_dist(self.0[1], other.0[1]);
        let b = channel_dist(self.0[2], other.0[2]);
        r + g + b
    }
}

impl Pixel for Luma {
    open spec fn spec_channels(&self) -> Seq<u8> {
        self.0@
    }

    open spec fn spec_channel_count() -> nat {
        1
    }

    proof fn lemma_channel_count(&self) {
    }

    proof fn lemma_count_bounds() {
    }

    fn channel_count() -> (r: u8) {
        1
    }

    fn channel(&self, i: usize) -> (r: u8) {
        self.0[i]
    }

    fn channels(&self) -> (r: Vec<u8>) {
        let r = vec![self.0[0]];
        assert(r@ =~= self.0@);
        r
    }

    fn from_slice(slice: &[u8]) -> (r: Self) {
        let r = Luma([slice[0]]);
        assert(r.0@ =~= slice@);
        r
    }

    fn zero() -> (r: Self) {
        let r = Luma([0u8]);
        assert(r.0@ =~= Seq::new(1, |i: int| 0u8));
        r
    }
}

impl EuclidianDistance for Luma {
    open spec fn spec_dist(&self, other: &Self) -> int {
        sq_diff(self.0[0], other.0[0])
    }

    fn dist_euclidian(&self, other: &Self) -> (r: i32) {
        channel_dist(self.0[0], other.0[0])
    }
}

/// The channelwise sum, wrapping around at 256.
pub open spec fn rgb_add(a: RGB, b: RGB) -> RGB {
    RGB([
        ((a.0[0] + b.0[0]) % 256) as u8,
        ((a.0[1] + b.0[1]) % 256) as u8,
        ((a.0[2] + b.0[2]) % 256) as u8,
    ])
}

impl core::ops::Add for RGB {
    type Output = RGB;

    fn add(self, rhs: RGB) -> (r: RGB) {
        RGB([
            self.0[0].wrapping_add(rhs.0[0]),
            self.0[1].wrapping_add(rhs.0[1]),
            self.0[2].wrapping_add(rhs.0[2]),
        ])
    }
}

impl vstd::std_specs::ops::AddSpecImpl for RGB {
    open spec fn obeys_add_spec() -> bool {
        true
    }

    open spec fn add_req(self, rhs: RGB) -> bool {
        true
    }

    open spec fn add_spec(self, rhs: RGB) -> RGB {
        rgb_add(self, rhs)
    }
}

/// The channelwise difference, wrapping around at 256.
pub open spec fn rgb_sub(a: RGB, b: RGB) -> RGB {
    RGB([
        ((a.0[0] - b.0[0]) % 256) as u8,
        ((a.0[1] - b.0[1]) % 256) as u8,
        ((a.0[2] - b.0[2]) % 256) as u8,
    ])
}

impl core::ops::Sub for RGB {
    type Output = RGB;

    fn sub(self, rhs: RGB) -> (r: RGB) {
        RGB([
            self.0[0].wrapping_sub(rhs.0[0]),
            self.0[1].wrapping_sub(rhs.0[1]),
            self.0[2].wrapping_sub(rhs.0[2]),
        ])
    }
}

impl vstd::std_specs::ops::SubSpecImpl for RGB {
    open spec fn obeys_sub_spec() -> bool {
        true
    }

    open spec fn sub_req(self, rhs: RGB) -> bool {
        true
    }

    open spec fn sub_spec(self, rhs: RGB) -> RGB {
        rgb_sub(self, rhs)
    }
}

/// The channelwise product, wrapping around at 256.
pub open spec fn rgb_mul(a: RGB, b: RGB) -> RGB {
    RGB([
        ((a.0[0] * b.0[0]) % 256) as u8,
        ((a.0[1] * b.0[1]) % 256) as u8,
        ((a.0[2] * b.0[2]) % 256) as u8,
    ])
}

impl core::ops::Mul for RGB {
    type Output = RGB;

    fn mul(self, rhs: RGB) -> (r: RGB) {
        RGB([
            self.0[0].wrapping_mul(rhs.0[0]),
            self.0[1].wrapping_mul(rhs.0[1]),
            self.0[2].wrapping_mul(rhs.0[2]),
        ])
    }
}

impl vstd::std_specs::ops::MulSpecImpl for RGB {
    open spec fn obeys_mul_spec() -> bool {
        true
    }

    open spec fn mul_req(self, rhs: RGB) -> bool {
        true
    }

    open spec fn mul_spec(self, rhs: RGB) -> RGB {
        rgb_mul(self, rhs)
    }
}

/// The channelwise quotient; every channel of the divisor is nonzero.
pub open spec fn rgb_div(a: RGB, b: RGB) -> RGB {
    RGB([
        (a.0[0] / b.0[0]) as u8,
        (a.0[1] / b.0[1]) as u8,
        (a.0[2] / b.0[2]) as u8,
    ])
}

impl core::ops::Div for RGB {
    type Output = RGB;

    fn div(self, rhs: RGB) -> (r: RGB) {
        RGB([
            self.0[0] / rhs.0[0],
            self.0[1] / rhs.0[1],
            self.0[2] / rhs.0[2],
        ])
    }
}

impl vstd::std_specs::ops::DivSpecImpl for RGB {
    open spec fn obeys_div_spec() -> bool {
        true
    }

    open spec fn div_req(self, rhs: RGB) -> bool {
        rhs.0[0] != 0 && rhs.0[1] != 0 && rhs.0[2] != 0
    }

    open spec fn div_spec(self, rhs: RGB) -> RGB {
        rgb_div(self, rhs)
    }
}

/// The channelwise remainder; every channel of the divisor is nonzero.
pub open spec fn rgb_rem(a: RGB, b: RGB) -> RGB {
    RGB([
        (a.0[0] % b.0[0]) as u8,
        (a.0[1] % b.0[1]) as u8,
        (a.0[2] % b.0[2]) as u8,
    ])
}

impl core::ops::Rem for RGB {
    type Output = RGB;

    fn rem(self, rhs: RGB) -> (r: RGB) {
        RGB([
            self.0[0] % rhs.0[0],
            self.0[1] % rhs.0[1],
            self.0[2] % rhs.0[2],
        ])
    }
}

impl vstd::std_specs::ops::RemSpecImpl for RGB {
    open spec fn obeys_rem_spec() -> bool {
        true
    }

    open spec fn rem_req(self, rhs: RGB) -> bool {
        rhs.0[0] != 0 && rhs.0[1] != 0 && rhs.0[2] != 0
    }

    open spec fn rem_spec(self, rhs: RGB) -> RGB {
        rgb_rem(self, rhs)
    }
}

/// The channelwise sum, wrapping around at 256.
pub open spec fn luma_add(a: Luma, b: Luma) -> Luma {
    Luma([
        ((a.0[0] + b.0[0]) % 256) as u8,
    ])
}

impl core::ops::Add for Luma {
    type Output = Luma;

    fn add(self, rhs: Luma) -> (r: Luma) {
        Luma([
            self.0[0].wrapping_add(rhs.0[0]),
        ])
    }
}

impl vstd::std_specs::ops::AddSpecImpl for Luma {
    open spec fn obeys_add_spec() -> bool {
        true
    }

    open spec fn add_req(self, rhs: Luma) -> bool {
        true
    }

    open spec fn add_spec(self, rhs: Luma) -> Luma {
        luma_add(self, rhs)
    }
}

/// The channelwise difference, wrapping around at 256.
pub open spec fn luma_sub(a: Luma, b: Luma) -> Luma {
    Luma([
        ((a.0[0] - b.0[0]) % 256) as u8,
    ])
}

impl core::ops::Sub for Luma {
    type Output = Luma;

    fn sub(self, rhs: Luma) -> (r: Luma) {
        Luma([
            self.0[0].wrapping_sub(rhs.0[0]),
        ])
    }
}

impl vstd::std_specs::ops::SubSpecImpl for Luma {
    open spec fn obeys_sub_spec() -> bool {
        true
    }

    open spec fn sub_req(self, rhs: Luma) -> bool {
        true
    }

    open spec fn sub_spec(self, rhs: Luma) -> Luma {
        luma_sub(self, rhs)
    }
}

} // verus!
