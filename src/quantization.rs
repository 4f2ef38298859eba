//! Quantization: mapping colours onto the nearest colour of a palette.

use vstd::prelude::*;
use crate::colors::RGB;
use crate::pixel::{EuclidianDistance, Pixel};

verus! {

/// Entry `k` of `palette` is nearest to `color`, and no entry before it is
/// as near.
pub open spec fn is_first_nearest<T: EuclidianDistance>(color: T, palette: Seq<T>, k: int) -> bool {
    &&& 0 <= k < palette.len()
    &&& forall|j: int| 0 <= j < palette.len() ==> color.spec_dist(&(palette[k])) <= color.spec_dist(&(palette[j]))
    &&& forall|j: int| 0 <= j < k ==> color.spec_dist(&(palette[k])) < color.spec_dist(&(palette[j]))
}

/// `r` is the first colour of `palette` nearest to `color`.
pub open spec fn is_nearest_choice<T: EuclidianDistance>(color: T, palette: Seq<T>, r: T) -> bool {
    exists|k: int| is_first_nearest(color, palette, k) && r == palette[k]
}

/// The first colour of `palette` nearest to `color`.
pub fn nearest_color<T: Pixel + EuclidianDistance>(color: T, palette: &[T]) -> (r: T)
    requires
        palette@.len() > 0,
    ensures
        is_nearest_choice(color, palette@, r),
{
    let mut min_dist: i32 = color.dist_euclidian(&palette[0]);
    let mut min_index: usize = 0;
    let mut i: usize = 1;
    while i < palette.len()
        invariant
            1 <= i <= palette@.len(),
            min_index < i,
            min_dist as int == color.spec_dist(&(palette@[min_index as int])),
            forall|j: int| 0 <= j < i ==> (min_dist as int) <= color.spec_dist(&(palette@[j])),
            forall|j: int| 0 <= j < min_index ==> (min_dist as int) < color.spec_dist(&(palette@[j])),
        decreases palette@.len() - i,
    {
        let dist = color.dist_euclidian(&palette[i]);
        if dist < min_dist {
            min_dist = dist;
            min_index = i;
        }
        i = i + 1;
    }
    assert(is_first_nearest(color, palette@, min_index as int));
    let r = palette[min_index];
    assert(is_nearest_choice(color, palette@, r));
    r
}

/// Each pixel replaced by the first colour of `palette` nearest to it.
pub fn nearest_color_filter<T: Pixel + EuclidianDistance>(pixels: Vec<T>, palette: &[T]) -> (r: Vec<T>)
    requires
        palette@.len() > 0,
    ensures
        r@.len() == pixels@.len(),
        forall|i: int| 0 <= i < r@.len() ==> is_nearest_choice(pixels@[i], palette@, #[trigger] r@[i]),
{
    let mut quantized: Vec<T> = Vec::new();
    let mut i: usize = 0;
    while i < pixels.len()
        invariant
            palette@.len() > 0,
            i <= pixels@.len(),
            quantized@.len() == i,
            forall|m: int| 0 <= m < i ==> is_nearest_choice(pixels@[m], palette@, #[trigger] quantized@[m]),
        decreases pixels@.len() - i,
    {
        let ghost before = quantized@;
        let c = nearest_color(pixels[i], palette);
        quantized.push(c);
        proof {
            assert forall|m: int| 0 <= m < i + 1 implies is_nearest_choice(pixels@[m], palette@, #[trigger] quantized@[m]) by {
                if m < i {
                    assert(quantized@[m] == before[m]);
                }
            }
        }
        i = i + 1;
    }
    quantized
}

/// The squared euclidean distance of two colours.
pub fn dist_euclidian(c1: RGB, c2: RGB) -> (r: i32)
    ensures
        r as int == c1.spec_dist(&c2),
{
    c1.dist_euclidian(&c2)
}

} // verus!
