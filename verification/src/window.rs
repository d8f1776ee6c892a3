//! The output window: the pixel dimensions of the image being rendered.

use vstd::prelude::*;

verus! {

/// The pixel dimensions of the output image.
#[derive(Clone, Copy, PartialEq, Eq, Structural, Debug)]
pub struct Window {
    pub width: u32,
    pub height: u32,
}

impl Window {
    /// Builds a window of the given pixel dimensions.
    pub fn new(width: u32, height: u32) -> (w: Window)
        ensures
            w.width == width,
            w.height == height,
    {
        Window { width, height }
    }
}

} // verus!
