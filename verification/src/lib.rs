//! Verified core of a framebuffer slideshow appliance: playback state
//! machine, image scaling and letterboxing, transition compositing, and
//! the device-sink fallback logic.

use vstd::prelude::*;

pub mod canvas;
pub mod easing;
pub mod transition;
pub mod loader;
pub mod sink;
pub mod messages;
pub mod playback;
pub mod strutil;
pub mod catalog;
pub mod remote;
pub mod api;
pub mod text;

verus! {

/// Largest canvas side accepted by the pipeline; keeps every pixel index
/// comfortably inside `usize` on all supported targets.
pub const MAX_DIM: u32 = 8192;

pub fn pixel_count(width: u32, height: u32) -> (n: usize)
    requires
        width <= MAX_DIM,
        height <= MAX_DIM,
    ensures
        n == width * height,
{
    proof {
        assert(width * height <= MAX_DIM * MAX_DIM) by (nonlinear_arith)
            requires
                width <= MAX_DIM,
                height <= MAX_DIM,
        ;
    }
    (width as usize) * (height as usize)
}

} // verus!
