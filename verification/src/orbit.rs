//! The escape-time recurrence of a single pixel, resumable at any depth.
//!
//! The recurrence is given by two functions of the caller: `step`, which
//! takes an iterate and the pixel's point of the plane to the next iterate
//! (for the Mandelbrot set, `z * z + c`), and `bounded`, which tells whether
//! an iterate may still be iterated (whether its squared magnitude is at most
//! four). Both must accept every argument.

use vstd::prelude::*;

verus! {

/// What is remembered of one pixel between frames: the last iterate of the
/// recurrence and the number of steps that led to it.
#[derive(Clone, Copy, Debug)]
pub struct PixelState<S> {
    /// The iterate itself, in the caller's number representation.
    pub orbit: S,
    /// How many steps of the recurrence produced `orbit`.
    pub iter_count: usize,
}

/// `to` is a state that iterating from `from` towards depth `target` may stop
/// in: the recurrence was applied while the iteration count was below
/// `target` and the magnitude test `bounded` let it continue.
///
/// The relation is stated over what `step` and `bounded` can return, so it
/// holds for any arithmetic, deterministic or not.
pub open spec fn runs<S, C, FS: Fn(S, C) -> S, FB: Fn(S) -> bool>(
    step: FS,
    bounded: FB,
    c: C,
    from: PixelState<S>,
    target: usize,
    to: PixelState<S>,
) -> bool
    decreases to.iter_count - from.iter_count,
{
    if from.iter_count >= target {
        to == from
    } else {
        ||| (call_ensures(bounded, (from.orbit,), false) && to == from)
        ||| (from.iter_count < to.iter_count && call_ensures(bounded, (from.orbit,), true)
            && exists|next: S| #[trigger]
                call_ensures(step, (from.orbit, c), next) && runs(
                    step,
                    bounded,
                    c,
                    PixelState { orbit: next, iter_count: (from.iter_count + 1) as usize },
                    target,
                    to,
                ))
    }
}

/// Both functions return one value per argument.
pub open spec fn deterministic<S, C, FS: Fn(S, C) -> S, FB: Fn(S) -> bool>(
    step: FS,
    bounded: FB,
) -> bool {
    &&& forall|s: S, c: C, a: S, b: S|
        call_ensures(step, (s, c), a) && call_ensures(step, (s, c), b) ==> a == b
    &&& forall|s: S, a: bool, b: bool|
        call_ensures(bounded, (s,), a) && call_ensures(bounded, (s,), b) ==> a == b
}

/// Iterates the recurrence of one pixel from its saved state until the
/// iteration count reaches `target` or the magnitude test fails.
///
/// A state whose count is already at or beyond `target` comes back untouched.
pub fn advance<S: Copy, C: Copy, FS: Fn(S, C) -> S, FB: Fn(S) -> bool>(
    from: PixelState<S>,
    c: C,
    target: usize,
    step: &FS,
    bounded: &FB,
) -> (to: PixelState<S>)
    requires
        forall|s: S| call_requires(*bounded, (s,)),
        forall|s: S, p: C| call_requires(*step, (s, p)),
    ensures
        runs(*step, *bounded, c, from, target, to),
        from.iter_count <= to.iter_count,
        to.iter_count <= target || to == from,
        to.iter_count < target ==> call_ensures(*bounded, (to.orbit,), false),
{
    let mut cur = from;
    while cur.iter_count < target
        invariant
            forall|s: S| call_requires(*bounded, (s,)),
            forall|s: S, p: C| call_requires(*step, (s, p)),
            from.iter_count <= cur.iter_count,
            cur.iter_count <= target || cur == from,
            forall|end: PixelState<S>|
                cur.iter_count <= end.iter_count && runs(*step, *bounded, c, cur, target, end)
                    ==> runs(*step, *bounded, c, from, target, end),
        decreases target - cur.iter_count,
    {
        if !bounded(cur.orbit) {
            return cur;
        }
        let next = step(cur.orbit, c);
        cur = PixelState { orbit: next, iter_count: cur.iter_count + 1 };
    }
    cur
}

/// Iterating never lowers a pixel's iteration count, and raises it to no
/// more than the target depth; a pixel that stops short of the target does
/// so because its magnitude test failed.
pub proof fn lemma_runs_bounds<S, C, FS: Fn(S, C) -> S, FB: Fn(S) -> bool>(
    step: FS,
    bounded: FB,
    c: C,
    from: PixelState<S>,
    target: usize,
    to: PixelState<S>,
)
    requires
        runs(step, bounded, c, from, target, to),
    ensures
        from.iter_count <= to.iter_count,
        to.iter_count <= target || to == from,
        to.iter_count < target ==> call_ensures(bounded, (to.orbit,), false),
    decreases to.iter_count - from.iter_count,
{
    if from.iter_count < target && to != from {
        let next = choose|next: S| #[trigger]
            call_ensures(step, (from.orbit, c), next) && runs(
                step,
                bounded,
                c,
                PixelState { orbit: next, iter_count: (from.iter_count + 1) as usize },
                target,
                to,
            );
        let after = PixelState { orbit: next, iter_count: (from.iter_count + 1) as usize };
        lemma_runs_bounds(step, bounded, c, after, target, to);
    }
}

/// A pass to depth `first` followed by a resumed pass from the saved state
/// to a depth `second` no lower is one of the runs that a single
/// uninterrupted pass to `second` can make.
pub proof fn lemma_resume_joins<S, C, FS: Fn(S, C) -> S, FB: Fn(S) -> bool>(
    step: FS,
    bounded: FB,
    c: C,
    from: PixelState<S>,
    first: usize,
    saved: PixelState<S>,
    second: usize,
    to: PixelState<S>,
)
    requires
        first <= second,
        runs(step, bounded, c, from, first, saved),
        runs(step, bounded, c, saved, second, to),
    ensures
        runs(step, bounded, c, from, second, to),
    decreases saved.iter_count - from.iter_count,
{
    if from.iter_count < first && saved != from {
        let next = choose|next: S| #[trigger]
            call_ensures(step, (from.orbit, c), next) && runs(
                step,
                bounded,
                c,
                PixelState { orbit: next, iter_count: (from.iter_count + 1) as usize },
                first,
                saved,
            );
        let after = PixelState { orbit: next, iter_count: (from.iter_count + 1) as usize };
        lemma_resume_joins(step, bounded, c, after, first, saved, second, to);
        lemma_runs_bounds(step, bounded, c, after, first, saved);
        lemma_runs_bounds(step, bounded, c, saved, second, to);
    }
}

/// Every uninterrupted pass to depth `second` can be cut at any depth
/// `first` no higher: some state saved at `first` resumes into the same
/// final state.
pub proof fn lemma_pass_splits<S, C, FS: Fn(S, C) -> S, FB: Fn(S) -> bool>(
    step: FS,
    bounded: FB,
    c: C,
    from: PixelState<S>,
    first: usize,
    second: usize,
    to: PixelState<S>,
) -> (saved: PixelState<S>)
    requires
        first <= second,
        runs(step, bounded, c, from, second, to),
    ensures
        runs(step, bounded, c, from, first, saved),
        runs(step, bounded, c, saved, second, to),
    decreases to.iter_count - from.iter_count,
{
    if from.iter_count >= first || to == from {
        from
    } else {
        let next = choose|next: S| #[trigger]
            call_ensures(step, (from.orbit, c), next) && runs(
                step,
                bounded,
                c,
                PixelState { orbit: next, iter_count: (from.iter_count + 1) as usize },
                second,
                to,
            );
        let after = PixelState { orbit: next, iter_count: (from.iter_count + 1) as usize };
        let saved = lemma_pass_splits(step, bounded, c, after, first, second, to);
        lemma_runs_bounds(step, bounded, c, after, first, saved);
        saved
    }
}

/// With deterministic arithmetic a pass has exactly one outcome.
pub proof fn lemma_runs_unique<S, C, FS: Fn(S, C) -> S, FB: Fn(S) -> bool>(
    step: FS,
    bounded: FB,
    c: C,
    from: PixelState<S>,
    target: usize,
    a: PixelState<S>,
    b: PixelState<S>,
)
    requires
        deterministic::<S, C, FS, FB>(step, bounded),
        runs(step, bounded, c, from, target, a),
        runs(step, bounded, c, from, target, b),
    ensures
        a == b,
    decreases a.iter_count - from.iter_count,
{
    if from.iter_count < target && a != from {
        let next = choose|next: S| #[trigger]
            call_ensures(step, (from.orbit, c), next) && runs(
                step,
                bounded,
                c,
                PixelState { orbit: next, iter_count: (from.iter_count + 1) as usize },
                target,
                a,
            );
        let after = PixelState { orbit: next, iter_count: (from.iter_count + 1) as usize };
        assert(b != from);
        let other = choose|other: S| #[trigger]
            call_ensures(step, (from.orbit, c), other) && runs(
                step,
                bounded,
                c,
                PixelState { orbit: other, iter_count: (from.iter_count + 1) as usize },
                target,
                b,
            );
        assert(other == next);
        lemma_runs_unique(step, bounded, c, after, target, a, b);
    }
}

/// Saving a pixel at any depth and resuming it later changes nothing: with
/// deterministic arithmetic, two passes with a save in between end in the
/// very state that one uninterrupted pass to the final depth ends in.
pub proof fn lemma_resume_equals_single_pass<S, C, FS: Fn(S, C) -> S, FB: Fn(S) -> bool>(
    step: FS,
    bounded: FB,
    c: C,
    from: PixelState<S>,
    first: usize,
    saved: PixelState<S>,
    second: usize,
    resumed: PixelState<S>,
    single: PixelState<S>,
)
    requires
        deterministic::<S, C, FS, FB>(step, bounded),
        first <= second,
        runs(step, bounded, c, from, first, saved),
        runs(step, bounded, c, saved, second, resumed),
        runs(step, bounded, c, from, second, single),
    ensures
        resumed == single,
{
    lemma_resume_joins(step, bounded, c, from, first, saved, second, resumed);
    lemma_runs_unique(step, bounded, c, from, second, resumed, single);
}

} // verus!
