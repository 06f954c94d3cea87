//! Moving the visible rectangle, whatever represents it.
//!
//! How far a movement shifts or scales the rectangle is computed by a
//! function of the caller, `shift`, which must accept every argument.

use vstd::prelude::*;
use crate::controls::Motion;

verus! {

/// `to` is a viewport that applying `moves` to `from` one after the other,
/// each through `shift`, may end in.
pub open spec fn view_path<V, FM: Fn(V, Motion) -> V>(
    shift: FM,
    from: V,
    moves: Seq<Motion>,
    to: V,
) -> bool
    decreases moves.len(),
{
    if moves.len() == 0 {
        to == from
    } else {
        exists|mid: V| #[trigger]
            call_ensures(shift, (from, moves[0]), mid) && view_path(shift, mid, moves.skip(1), to)
    }
}

/// Applies the movements to the viewport in their order.
pub fn apply_motions<V: Copy, FM: Fn(V, Motion) -> V>(view: V, moves: &Vec<Motion>, shift: &FM) -> (moved: V)
    requires
        forall|v: V, m: Motion| call_requires(*shift, (v, m)),
    ensures
        view_path(*shift, view, moves@, moved),
{
    let mut cur = view;
    let mut i: usize = 0;
    assert(moves@.skip(0) =~= moves@);
    while i < moves.len()
        invariant
            i <= moves.len(),
            forall|v: V, m: Motion| call_requires(*shift, (v, m)),
            forall|end: V|
                view_path(*shift, cur, moves@.skip(i as int), end) ==> view_path(
                    *shift,
                    view,
                    moves@,
                    end,
                ),
        decreases moves.len() - i,
    {
        let next = shift(cur, moves[i]);
        proof {
            let rest = moves@.skip(i as int);
            assert(rest.len() > 0);
            assert(rest[0] == moves@[i as int]);
            assert(rest.skip(1) =~= moves@.skip(i + 1));
        }
        cur = next;
        i += 1;
    }
    assert(moves@.skip(i as int).len() == 0);
    cur
}

} // verus!
