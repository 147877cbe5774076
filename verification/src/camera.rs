//! Camera configuration shared with the surrounding application, which owns
//! the floating-point projection math.

use vstd::prelude::*;

verus! {

/// How an orthographic view reacts to a window resize: keep the vertical
/// extent and rescale the horizontal one, the reverse, or stretch both to
/// the new aspect ratio.
pub enum ResizeStrategy {
    KeepY,
    KeepX,
    Stretch,
}

} // verus!
