//! The configuration surface consumed by the renderer, as plain values.

use vstd::prelude::*;

verus! {

/// Logical output dimensions in pixels.
#[derive(Clone, Copy, Debug, PartialEq, Eq, Structural)]
pub struct Size {
    pub width: u32,
    pub height: u32,
}

/// What a render needs to know: output size, samples accumulated per frame
/// and the maximum number of bounces per path.
#[derive(Clone, Copy, Debug, PartialEq, Eq, Structural)]
pub struct Config {
    pub size: Size,
    pub samples: u32,
    pub depth: u32,
}

} // verus!
