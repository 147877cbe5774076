//! Keyboard state and the movement intent it encodes.

use vstd::prelude::*;

verus! {

/// Which movement keys are currently held, one flag per bound key.
pub struct InputState {
    pub w: bool,
    pub s: bool,
    pub a: bool,
    pub d: bool,
    pub q: bool,
    pub e: bool,
    pub shift: bool,
}

impl InputState {
    /// The rest state: no key held.
    pub fn new() -> (r: Self)
        ensures
            !r.w && !r.s && !r.a && !r.d && !r.q && !r.e && !r.shift,
    {
        InputState { w: false, s: false, a: false, d: false, q: false, e: false, shift: false }
    }

    /// The movement intent of the held keys, one unit per axis: sideways
    /// (`d` minus `a`), vertical (`q` minus `e`) and forward (`w` minus
    /// `s`). The application scales and normalises this into a
    /// world-space velocity.
    pub fn movement_axes(&self) -> (r: (i32, i32, i32))
        ensures
            r.0 == (if self.d { 1int } else { 0int }) - (if self.a { 1int } else { 0int }),
            r.1 == (if self.q { 1int } else { 0int }) - (if self.e { 1int } else { 0int }),
            r.2 == (if self.w { 1int } else { 0int }) - (if self.s { 1int } else { 0int }),
    {
        let x: i32 = (if self.d { 1 } else { 0 }) - (if self.a { 1 } else { 0 });
        let y: i32 = (if self.q { 1 } else { 0 }) - (if self.e { 1 } else { 0 });
        let z: i32 = (if self.w { 1 } else { 0 }) - (if self.s { 1 } else { 0 });
        (x, y, z)
    }
}

} // verus!
