//! Key bindings: what the held keys ask of the depth ceiling, of the
//! viewport and of the computed image.

use vstd::prelude::*;

verus! {

/// By how much one key press raises or lowers the depth ceiling. The ceiling
/// never falls below it.
pub const DEPTH_STEP: usize = 64;

/// Which of the bound keys are held down during a frame.
#[derive(Clone, Copy, Debug)]
pub struct Keys {
    /// Raises the depth ceiling.
    pub e: bool,
    /// Lowers the depth ceiling.
    pub q: bool,
    /// Restores the initial viewport.
    pub r: bool,
    /// Pans left, as does `a`.
    pub left: bool,
    pub a: bool,
    /// Pans right, as does `d`.
    pub right: bool,
    pub d: bool,
    /// Pans up, as does `w`.
    pub up: bool,
    pub w: bool,
    /// Pans down, as does `s`.
    pub down: bool,
    pub s: bool,
    /// Zooms out.
    pub minus: bool,
    /// Zooms in.
    pub equals: bool,
}

/// One movement of the viewport. How far it moves the rectangle is the
/// business of the arithmetic that applies it.
#[derive(Clone, Copy, Debug, PartialEq, Eq, Structural)]
pub enum Motion {
    PanLeft,
    PanRight,
    PanUp,
    PanDown,
    ZoomOut,
    ZoomIn,
}

impl Keys {
    /// No key held.
    pub fn none() -> (keys: Keys)
        ensures
            keys == Keys::released(),
    {
        Keys {
            e: false,
            q: false,
            r: false,
            left: false,
            a: false,
            right: false,
            d: false,
            up: false,
            w: false,
            down: false,
            s: false,
            minus: false,
            equals: false,
        }
    }

    /// The value with no key held.
    pub open spec fn released() -> Keys {
        Keys {
            e: false,
            q: false,
            r: false,
            left: false,
            a: false,
            right: false,
            d: false,
            up: false,
            w: false,
            down: false,
            s: false,
            minus: false,
            equals: false,
        }
    }

    /// The movements that the held keys ask for, in the order in which they
    /// apply: the four pans, then zooming out, then zooming in.
    pub open spec fn spec_motions(&self) -> Seq<Motion> {
        if_held(self.left || self.a, Motion::PanLeft) + if_held(self.right || self.d, Motion::PanRight)
            + if_held(self.up || self.w, Motion::PanUp) + if_held(self.down || self.s, Motion::PanDown)
            + if_held(self.minus, Motion::ZoomOut) + if_held(self.equals, Motion::ZoomIn)
    }

    /// Whether the held keys invalidate the computed image: lowering the
    /// ceiling, restoring the viewport, and every pan and zoom do; raising
    /// the ceiling alone does not.
    pub open spec fn spec_forces_reset(&self) -> bool {
        self.q || self.r || self.spec_motions().len() > 0
    }

    /// The depth ceiling after the held keys took effect on `ceiling`: raised
    /// by one step where asked, then lowered by one where asked, but not
    /// below one step.
    pub open spec fn spec_ceiling(&self, ceiling: int) -> int {
        let raised = if self.e {
            ceiling + DEPTH_STEP
        } else {
            ceiling
        };
        if self.q {
            lowered(raised)
        } else {
            raised
        }
    }

    /// The movements that the held keys ask for, in the order in which they
    /// apply.
    pub fn motions(&self) -> (moves: Vec<Motion>)
        ensures
            moves@ == self.spec_motions(),
    {
        let mut moves: Vec<Motion> = Vec::new();
        if self.left || self.a {
            moves.push(Motion::PanLeft);
        }
        if self.right || self.d {
            moves.push(Motion::PanRight);
        }
        if self.up || self.w {
            moves.push(Motion::PanUp);
        }
        if self.down || self.s {
            moves.push(Motion::PanDown);
        }
        if self.minus {
            moves.push(Motion::ZoomOut);
        }
        if self.equals {
            moves.push(Motion::ZoomIn);
        }
        assert(moves@ =~= self.spec_motions());
        moves
    }

    /// Whether the held keys invalidate the computed image.
    pub fn forces_reset(&self) -> (forced: bool)
        ensures
            forced == self.spec_forces_reset(),
    {
        self.q || self.r || self.left || self.a || self.right || self.d || self.up || self.w
            || self.down || self.s || self.minus || self.equals
    }

    /// The depth ceiling that the held keys turn `ceiling` into.
    pub fn ceiling(&self, ceiling: usize) -> (next: usize)
        requires
            self.e ==> ceiling + DEPTH_STEP <= usize::MAX,
        ensures
            next == self.spec_ceiling(ceiling as int),
    {
        let raised: usize = if self.e {
            ceiling + DEPTH_STEP
        } else {
            ceiling
        };
        if self.q {
            if raised >= 2 * DEPTH_STEP {
                raised - DEPTH_STEP
            } else {
                DEPTH_STEP
            }
        } else {
            raised
        }
    }
}

/// One movement if `held`, none otherwise.
pub open spec fn if_held(held: bool, motion: Motion) -> Seq<Motion> {
    if held {
        seq![motion]
    } else {
        Seq::empty()
    }
}

/// A ceiling one step lower, but not below one step.
pub open spec fn lowered(ceiling: int) -> int {
    if ceiling >= 2 * DEPTH_STEP {
        ceiling - DEPTH_STEP
    } else {
        DEPTH_STEP as int
    }
}

} // verus!
