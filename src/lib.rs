//! Playback-resource management for a real-time audio layer, together with
//! the small value types (colours, texture regions, UI descriptors) that the
//! rest of the engine shares.
use vstd::prelude::*;
use vstd::std_specs::cmp::{PartialOrdIs, PartialOrdSpec};

pub mod audio;
pub mod color;
pub mod context;
pub mod engine;
pub mod error;
pub mod load;
pub mod render;
pub mod source;
pub mod stream;
pub mod texture_region;
pub mod ui;

verus! {

/// `n` limited to the range `[min, max]`: `min` below it, `max` above it.
pub fn clamp<T: PartialOrd>(n: T, min: T, max: T) -> (r: T)
    ensures
        T::obeys_partial_cmp_spec() ==> r == if n.is_lt(&min) {
            min
        } else if n.is_gt(&max) {
            max
        } else {
            n
        },
{
    if n < min {
        min
    } else if n > max {
        max
    } else {
        n
    }
}

} // verus!
