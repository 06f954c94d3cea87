//! How deep each frame computes.

use vstd::prelude::*;

verus! {

/// The depth of the first pass over a fresh image.
pub const INITIAL_DEPTH: usize = 32;

/// The most that one resumed pass adds to the depth.
pub const MAX_ITER_INCREMENT: usize = 32;

/// What a frame does to the image.
#[derive(Clone, Copy, Debug, PartialEq, Eq, Structural)]
pub enum Pass {
    /// Forget every pixel and compute all of them to `depth`.
    Restart { depth: usize },
    /// Take every pixel up from where it stands to `depth`.
    Resume { depth: usize },
    /// Nothing: the image is as deep as the ceiling allows.
    Idle,
}

/// The depth of the pass that resumes an image computed to `current`: as
/// much again, but at most `MAX_ITER_INCREMENT` more and at most `ceiling`.
pub open spec fn resumed_depth(current: usize, ceiling: usize) -> int {
    let grown = current + if current < MAX_ITER_INCREMENT {
        current as int
    } else {
        MAX_ITER_INCREMENT as int
    };
    if grown < ceiling {
        grown
    } else {
        ceiling as int
    }
}

/// The pass that a frame owes: a restart at the initial depth where a reset
/// is pending, otherwise a resumed pass while the image is shallower than
/// `ceiling`, otherwise none.
pub open spec fn planned(reset: bool, current: usize, ceiling: usize) -> Pass {
    if reset {
        Pass::Restart { depth: INITIAL_DEPTH }
    } else if current < ceiling {
        Pass::Resume { depth: resumed_depth(current, ceiling) as usize }
    } else {
        Pass::Idle
    }
}

/// Decides what a frame does, given whether a reset is pending, the depth
/// that the image was last computed to and the depth ceiling.
pub fn plan(reset: bool, current: usize, ceiling: usize) -> (pass: Pass)
    ensures
        pass == planned(reset, current, ceiling),
        !reset && current < ceiling ==> current <= resumed_depth(current, ceiling) <= ceiling,
        !reset && 0 < current < ceiling ==> current < resumed_depth(current, ceiling),
        !reset && current < ceiling ==> resumed_depth(current, ceiling) - current
            <= MAX_ITER_INCREMENT,
{
    if reset {
        Pass::Restart { depth: INITIAL_DEPTH }
    } else if current < ceiling {
        let increment: usize = if current < MAX_ITER_INCREMENT {
            current
        } else {
            MAX_ITER_INCREMENT
        };
        let depth: usize = if ceiling - current > increment {
            current + increment
        } else {
            ceiling
        };
        Pass::Resume { depth }
    } else {
        Pass::Idle
    }
}

} // verus!
