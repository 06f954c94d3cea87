//! The simulation state and the step that advances it by one frame.
//!
//! The arithmetic comes from the caller as four functions, each of which
//! must accept every argument: `shift` moves the viewport, `locate` maps a
//! viewport, a column and a row to a point of the plane, and `step` and
//! `bounded` are the recurrence and its magnitude test.

use vstd::prelude::*;
use crate::controls::{Keys, Motion, DEPTH_STEP};
use crate::orbit::{advance, deterministic, lemma_resume_equals_single_pass, runs, PixelState};
use crate::palette::{get_color, pixel_color};
use crate::schedule::{plan, planned, Pass};
use crate::viewport::{apply_motions, view_path};

verus! {

/// Width of the default image, in pixels.
pub const SCREEN_WIDTH: usize = 800;

/// Height of the default image, in pixels.
pub const SCREEN_HEIGHT: usize = 450;

/// Everything that lives from frame to frame.
///
/// `V` represents the visible rectangle of the complex plane and `S` the
/// iterate of a pixel; the state carries both verbatim and never looks into
/// them.
pub struct GameState<V, S> {
    /// Pixels per row.
    pub width: usize,
    /// Number of rows.
    pub height: usize,
    /// The depth that the image was last computed to.
    pub current_iterations: usize,
    /// The depth ceiling.
    pub max_iterations: usize,
    /// The image: four bytes per pixel, rows from the top, pixels from the
    /// left.
    pub buffer: Vec<u8>,
    /// The saved state of every pixel, in the order of `buffer`.
    pub pixels: Vec<PixelState<S>>,
    /// The viewport that a reset restores.
    pub home: V,
    /// The visible rectangle.
    pub view: V,
    /// The iterate that every pixel starts from.
    pub origin: S,
    /// Whether the image has to be computed afresh.
    pub redraw: bool,
}

/// The state of a pixel that has not been iterated.
pub open spec fn fresh<S>(origin: S) -> PixelState<S> {
    PixelState { orbit: origin, iter_count: 0 }
}

/// Every pixel of `buffer` shows the colour of its iteration count in a pass
/// to `depth`.
pub open spec fn painted<S>(buffer: Seq<u8>, pixels: Seq<PixelState<S>>, depth: usize) -> bool {
    &&& buffer.len() == 4 * pixels.len()
    &&& forall|p: int|
        0 <= p < pixels.len() ==> buffer.subrange(4 * p, 4 * p + 4) == pixel_color(
            (#[trigger] pixels[p]).iter_count as nat,
            depth as nat,
        )
}

/// Pixel `p` of an image `width` pixels wide went from `from` to `to` in a
/// pass to `target`: it was iterated at the point of the plane that `locate`
/// gives for its column and row.
pub open spec fn traced<V, S, C, FL: Fn(V, usize, usize) -> C, FS: Fn(S, C) -> S, FB: Fn(S) -> bool>(
    locate: FL,
    step: FS,
    bounded: FB,
    view: V,
    width: usize,
    p: int,
    from: PixelState<S>,
    target: usize,
    to: PixelState<S>,
) -> bool {
    exists|c: C| #[trigger]
        call_ensures(locate, (view, (p % width as int) as usize, (p / width as int) as usize), c)
            && runs(step, bounded, c, from, target, to)
}

/// Overwrites the four bytes of pixel `p`.
fn paint(buffer: &mut Vec<u8>, p: usize, color: [u8; 4])
    requires
        4 * p + 4 <= old(buffer).len(),
    ensures
        final(buffer).len() == old(buffer).len(),
        final(buffer)@.subrange(4 * p, 4 * p + 4) == color@,
        forall|i: int|
            0 <= i < old(buffer).len() && !(4 * p <= i < 4 * p + 4) ==> final(buffer)@[i] == old(
                buffer,
            )@[i],
{
    buffer.set(4 * p, color[0]);
    buffer.set(4 * p + 1, color[1]);
    buffer.set(4 * p + 2, color[2]);
    buffer.set(4 * p + 3, color[3]);
    assert(buffer@.subrange(4 * p, 4 * p + 4) =~= color@);
}

impl<V: Copy, S: Copy> GameState<V, S> {
    /// The sizes agree and the depth ceiling is at least one step.
    pub open spec fn wf(&self) -> bool {
        &&& self.pixels.len() == self.width * self.height
        &&& self.buffer.len() == 4 * self.pixels.len()
        &&& self.max_iterations >= DEPTH_STEP
    }

    /// No pixel has made more iterations than the depth that the image was
    /// last computed to.
    pub open spec fn within_depth(&self) -> bool {
        forall|p: int|
            0 <= p < self.pixels.len() ==> (#[trigger] self.pixels[p]).iter_count
                <= self.current_iterations
    }

    /// Same image size, same home viewport, same starting iterate.
    pub open spec fn same_setup(&self, other: &Self) -> bool {
        &&& self.width == other.width
        &&& self.height == other.height
        &&& self.home == other.home
        &&& self.origin == other.origin
    }

    /// The outcome of a pass to `depth` over the pixel states `before`: every
    /// pixel iterated from its state in `before`, at its own point of the
    /// current viewport, its count not lowered and not raised beyond `depth`,
    /// short of `depth` only where its magnitude test failed, and the whole
    /// image repainted.
    pub open spec fn computed_from<
        C,
        FL: Fn(V, usize, usize) -> C,
        FS: Fn(S, C) -> S,
        FB: Fn(S) -> bool,
    >(&self, before: Seq<PixelState<S>>, depth: usize, locate: FL, step: FS, bounded: FB) -> bool {
        &&& self.current_iterations == depth
        &&& self.pixels.len() == before.len()
        &&& forall|p: int|
            0 <= p < before.len() ==> traced(
                locate,
                step,
                bounded,
                self.view,
                self.width,
                p,
                before[p],
                depth,
                #[trigger] self.pixels[p],
            )
        &&& forall|p: int|
            0 <= p < before.len() ==> {
                let now = #[trigger] self.pixels[p];
                &&& before[p].iter_count <= now.iter_count
                &&& now.iter_count <= depth || now == before[p]
                &&& now.iter_count < depth ==> call_ensures(bounded, (now.orbit,), false)
            }
        &&& painted(self.buffer@, self.pixels@, depth)
    }

    /// A state for an image of `width` by `height` pixels: nothing computed,
    /// the image blank, the viewport at `home`, the ceiling at one step, and
    /// a first computation pending.
    pub fn with_size(width: usize, height: usize, home: V, origin: S) -> (state: Self)
        requires
            4 * (width * height) <= usize::MAX,
        ensures
            state.wf(),
            state.width == width,
            state.height == height,
            state.home == home,
            state.view == home,
            state.origin == origin,
            state.current_iterations == 0,
            state.max_iterations == DEPTH_STEP,
            state.redraw,
            state.within_depth(),
            state.pixels@ == Seq::new((width * height) as nat, |p: int| fresh(origin)),
            state.buffer@ == Seq::new((4 * (width * height)) as nat, |i: int| 0u8),
    {
        assert(width * height <= 4 * (width * height)) by (nonlinear_arith);
        let count: usize = width * height;
        let mut pixels: Vec<PixelState<S>> = Vec::new();
        let mut buffer: Vec<u8> = Vec::new();
        let mut p: usize = 0;
        while p < count
            invariant
                p <= count,
                4 * count <= usize::MAX,
                pixels@ =~= Seq::new(p as nat, |q: int| fresh(origin)),
                buffer@ =~= Seq::new((4 * p) as nat, |i: int| 0u8),
            decreases count - p,
        {
            pixels.push(PixelState { orbit: origin, iter_count: 0 });
            buffer.push(0);
            buffer.push(0);
            buffer.push(0);
            buffer.push(0);
            p += 1;
        }
        GameState {
            width,
            height,
            current_iterations: 0,
            max_iterations: DEPTH_STEP,
            buffer,
            pixels,
            home,
            view: home,
            origin,
            redraw: true,
        }
    }

    /// A state for the default image of `SCREEN_WIDTH` by `SCREEN_HEIGHT`
    /// pixels.
    pub fn new(home: V, origin: S) -> (state: Self)
        ensures
            state.wf(),
            state.width == SCREEN_WIDTH,
            state.height == SCREEN_HEIGHT,
            state.home == home,
            state.view == home,
            state.origin == origin,
            state.current_iterations == 0,
            state.max_iterations == DEPTH_STEP,
            state.redraw,
            state.within_depth(),
            state.pixels@ == Seq::new((SCREEN_WIDTH * SCREEN_HEIGHT) as nat, |p: int| fresh(origin)),
            state.buffer@ == Seq::new((4 * (SCREEN_WIDTH * SCREEN_HEIGHT)) as nat, |i: int| 0u8),
    {
        Self::with_size(SCREEN_WIDTH, SCREEN_HEIGHT, home, origin)
    }

    /// The place in `pixels` of the pixel in column `s_x` of row `s_y`; its
    /// bytes start at four times that in `buffer`.
    pub fn pixel_index(&self, s_x: usize, s_y: usize) -> (p: usize)
        requires
            self.wf(),
            s_x < self.width,
            s_y < self.height,
        ensures
            p == s_x + s_y * self.width,
            p < self.pixels.len(),
            p % self.width == s_x,
            p / self.width == s_y,
    {
        proof {
            let w = self.width as int;
            let h = self.height as int;
            let x = s_x as int;
            let y = s_y as int;
            assert(x + y * w < w * h && 0 <= y * w) by (nonlinear_arith)
                requires
                    0 <= x < w,
                    0 <= y < h,
            ;
            vstd::arithmetic::div_mod::lemma_fundamental_div_mod_converse(x + y * w, w, y, x);
        }
        s_x + s_y * self.width
    }

    /// Takes the held keys into account: adjusts the depth ceiling, restores
    /// or moves the viewport, and marks the image for a fresh computation
    /// where they invalidate it. A pending mark stays.
    ///
    /// `r` restores the home viewport before any movement applies, so that
    /// with `r` alone the viewport is the home viewport again, whatever it
    /// was.
    pub fn handle_input<FM: Fn(V, Motion) -> V>(&mut self, keys: &Keys, shift: &FM)
        requires
            old(self).wf(),
            keys.e ==> old(self).max_iterations + DEPTH_STEP <= usize::MAX,
            forall|v: V, m: Motion| call_requires(*shift, (v, m)),
        ensures
            final(self).wf(),
            final(self).same_setup(old(self)),
            final(self).pixels == old(self).pixels,
            final(self).buffer == old(self).buffer,
            final(self).current_iterations == old(self).current_iterations,
            final(self).max_iterations == keys.spec_ceiling(old(self).max_iterations as int),
            final(self).redraw == (old(self).redraw || keys.spec_forces_reset()),
            view_path(
                *shift,
                if keys.r {
                    old(self).home
                } else {
                    old(self).view
                },
                keys.spec_motions(),
                final(self).view,
            ),
            keys.spec_motions().len() == 0 ==> final(self).view == if keys.r {
                old(self).home
            } else {
                old(self).view
            },
    {
        self.max_iterations = keys.ceiling(self.max_iterations);
        if keys.forces_reset() {
            self.redraw = true;
        }
        if keys.r {
            self.view = self.home;
        }
        let moves = keys.motions();
        self.view = apply_motions(self.view, &moves, shift);
    }

    /// Forgets what was computed: every pixel back at the starting iterate
    /// with no iteration made.
    pub fn reset_pixels(&mut self)
        requires
            old(self).wf(),
        ensures
            final(self).wf(),
            final(self).same_setup(old(self)),
            final(self).view == old(self).view,
            final(self).max_iterations == old(self).max_iterations,
            final(self).redraw == old(self).redraw,
            final(self).buffer == old(self).buffer,
            final(self).current_iterations == 0,
            final(self).within_depth(),
            final(self).pixels@ == Seq::new(
                old(self).pixels.len() as nat,
                |p: int| fresh(old(self).origin),
            ),
    {
        self.current_iterations = 0;
        let count = self.pixels.len();
        let mut p: usize = 0;
        while p < count
            invariant
                p <= count,
                count == self.pixels.len(),
                count == old(self).pixels.len(),
                self.wf(),
                self.same_setup(old(self)),
                self.view == old(self).view,
                self.max_iterations == old(self).max_iterations,
                self.redraw == old(self).redraw,
                self.buffer == old(self).buffer,
                self.current_iterations == 0,
                forall|q: int| 0 <= q < p ==> self.pixels@[q] == fresh(self.origin),
            decreases count - p,
        {
            self.pixels.set(p, PixelState { orbit: self.origin, iter_count: 0 });
            p += 1;
        }
        assert(self.pixels@ =~= Seq::new(
            old(self).pixels.len() as nat,
            |p: int| fresh(old(self).origin),
        ));
    }

    /// One pass over the image to depth `max_iter`: every pixel is iterated
    /// on from its saved state, at the point of the plane that `locate`
    /// gives for its column and row in the current viewport, until its count
    /// reaches `max_iter` or its magnitude test fails; the new state is
    /// saved and the pixel repainted.
    pub fn calculate_mandelbrot<
        C: Copy,
        FL: Fn(V, usize, usize) -> C,
        FS: Fn(S, C) -> S,
        FB: Fn(S) -> bool,
    >(&mut self, max_iter: usize, locate: &FL, step: &FS, bounded: &FB)
        requires
            old(self).wf(),
            forall|v: V, x: usize, y: usize| call_requires(*locate, (v, x, y)),
            forall|s: S, c: C| call_requires(*step, (s, c)),
            forall|s: S| call_requires(*bounded, (s,)),
        ensures
            final(self).wf(),
            final(self).same_setup(old(self)),
            final(self).view == old(self).view,
            final(self).max_iterations == old(self).max_iterations,
            final(self).redraw == old(self).redraw,
            final(self).computed_from(old(self).pixels@, max_iter, *locate, *step, *bounded),
            old(self).within_depth() && old(self).current_iterations <= max_iter
                ==> final(self).within_depth(),
    {
        self.current_iterations = max_iter;
        let count = self.pixels.len();
        let mut p: usize = 0;
        while p < count
            invariant
                p <= count,
                count == self.pixels.len(),
                count == old(self).pixels.len(),
                self.wf(),
                self.same_setup(old(self)),
                self.view == old(self).view,
                self.max_iterations == old(self).max_iterations,
                self.redraw == old(self).redraw,
                self.current_iterations == max_iter,
                forall|v: V, x: usize, y: usize| call_requires(*locate, (v, x, y)),
                forall|s: S, c: C| call_requires(*step, (s, c)),
                forall|s: S| call_requires(*bounded, (s,)),
                forall|q: int| p <= q < count ==> self.pixels@[q] == old(self).pixels@[q],
                forall|q: int|
                    0 <= q < p ==> traced(
                        *locate,
                        *step,
                        *bounded,
                        self.view,
                        self.width,
                        q,
                        old(self).pixels@[q],
                        max_iter,
                        #[trigger] self.pixels@[q],
                    ),
                forall|q: int|
                    0 <= q < p ==> {
                        let now = #[trigger] self.pixels@[q];
                        &&& old(self).pixels@[q].iter_count <= now.iter_count
                        &&& now.iter_count <= max_iter || now == old(self).pixels@[q]
                        &&& now.iter_count < max_iter ==> call_ensures(
                            *bounded,
                            (now.orbit,),
                            false,
                        )
                    },
                forall|q: int|
                    0 <= q < p ==> self.buffer@.subrange(4 * q, 4 * q + 4) == pixel_color(
                        (#[trigger] self.pixels@[q]).iter_count as nat,
                        max_iter as nat,
                    ),
            decreases count - p,
        {
            assert(self.width != 0) by (nonlinear_arith)
                requires
                    p < self.width * self.height,
            ;
            let s_x = p % self.width;
            let s_y = p / self.width;
            let c = locate(self.view, s_x, s_y);
            let from = self.pixels[p];
            let to = advance(from, c, max_iter, step, bounded);
            let ghost shown = self.buffer@;
            let ghost saved = self.pixels@;
            self.pixels.set(p, to);
            let color = get_color(to.iter_count, max_iter);
            paint(&mut self.buffer, p, color);
            proof {
                assert forall|q: int| 0 <= q < p + 1 implies self.buffer@.subrange(
                    4 * q,
                    4 * q + 4,
                ) == pixel_color(
                    (#[trigger] self.pixels@[q]).iter_count as nat,
                    max_iter as nat,
                ) by {
                    if q < p {
                        assert(self.pixels@[q] == saved[q]);
                        assert(self.buffer@.subrange(4 * q, 4 * q + 4) =~= shown.subrange(
                            4 * q,
                            4 * q + 4,
                        ));
                    }
                }
            }
            p += 1;
        }
    }

    /// Advances the simulation by one frame: takes the held keys into
    /// account, then computes what the frame owes. A pending reset forgets
    /// every pixel and computes the image afresh at the initial depth;
    /// otherwise an image shallower than the ceiling is resumed to the next
    /// depth; otherwise pixels and image stay as they are.
    pub fn update<
        C: Copy,
        FM: Fn(V, Motion) -> V,
        FL: Fn(V, usize, usize) -> C,
        FS: Fn(S, C) -> S,
        FB: Fn(S) -> bool,
    >(&mut self, keys: &Keys, shift: &FM, locate: &FL, step: &FS, bounded: &FB)
        requires
            old(self).wf(),
            keys.e ==> old(self).max_iterations + DEPTH_STEP <= usize::MAX,
            forall|v: V, m: Motion| call_requires(*shift, (v, m)),
            forall|v: V, x: usize, y: usize| call_requires(*locate, (v, x, y)),
            forall|s: S, c: C| call_requires(*step, (s, c)),
            forall|s: S| call_requires(*bounded, (s,)),
        ensures
            final(self).wf(),
            final(self).same_setup(old(self)),
            final(self).max_iterations == keys.spec_ceiling(old(self).max_iterations as int),
            !final(self).redraw,
            old(self).within_depth() ==> final(self).within_depth(),
            view_path(
                *shift,
                if keys.r {
                    old(self).home
                } else {
                    old(self).view
                },
                keys.spec_motions(),
                final(self).view,
            ),
            keys.spec_motions().len() == 0 ==> final(self).view == if keys.r {
                old(self).home
            } else {
                old(self).view
            },
            match planned(
                old(self).redraw || keys.spec_forces_reset(),
                old(self).current_iterations,
                final(self).max_iterations,
            ) {
                Pass::Restart { depth } => final(self).computed_from(
                    Seq::new(old(self).pixels.len() as nat, |p: int| fresh(old(self).origin)),
                    depth,
                    *locate,
                    *step,
                    *bounded,
                ),
                Pass::Resume { depth } => final(self).computed_from(
                    old(self).pixels@,
                    depth,
                    *locate,
                    *step,
                    *bounded,
                ),
                Pass::Idle => {
                    &&& final(self).pixels == old(self).pixels
                    &&& final(self).buffer == old(self).buffer
                    &&& final(self).current_iterations == old(self).current_iterations
                },
            },
    {
        self.handle_input(keys, shift);
        match plan(self.redraw, self.current_iterations, self.max_iterations) {
            Pass::Restart { depth } => {
                self.reset_pixels();
                self.calculate_mandelbrot(depth, locate, step, bounded);
            },
            Pass::Resume { depth } => {
                self.calculate_mandelbrot(depth, locate, step, bounded);
            },
            Pass::Idle => {},
        }
        self.redraw = false;
    }
}

/// `locate` gives one point per viewport, column and row.
pub open spec fn single_valued<V, C, FL: Fn(V, usize, usize) -> C>(locate: FL) -> bool {
    forall|v: V, x: usize, y: usize, a: C, b: C|
        call_ensures(locate, (v, x, y), a) && call_ensures(locate, (v, x, y), b) ==> a == b
}

/// Refining an image in two passes gives the image of one pass: with
/// deterministic arithmetic and an unchanged viewport, a pass to depth
/// `first` followed by a resumed pass to a depth `second` no lower leaves
/// every pixel in the state, and the image in the colours, that a single
/// pass to `second` over the same pixels leaves.
pub proof fn lemma_resumed_image_equals_single_pass<
    V: Copy,
    S: Copy,
    C,
    FL: Fn(V, usize, usize) -> C,
    FS: Fn(S, C) -> S,
    FB: Fn(S) -> bool,
>(
    before: Seq<PixelState<S>>,
    first: usize,
    saved: GameState<V, S>,
    second: usize,
    resumed: GameState<V, S>,
    single: GameState<V, S>,
    locate: FL,
    step: FS,
    bounded: FB,
)
    requires
        single_valued(locate),
        deterministic::<S, C, FS, FB>(step, bounded),
        first <= second,
        saved.width == resumed.width == single.width,
        saved.view == single.view,
        resumed.view == single.view,
        saved.computed_from(before, first, locate, step, bounded),
        resumed.computed_from(saved.pixels@, second, locate, step, bounded),
        single.computed_from(before, second, locate, step, bounded),
    ensures
        resumed.pixels@ == single.pixels@,
        resumed.buffer@ == single.buffer@,
{
    let view = single.view;
    let width = single.width;
    assert forall|p: int| 0 <= p < before.len() implies resumed.pixels@[p] == single.pixels@[p] by {
        let x = (p % width as int) as usize;
        let y = (p / width as int) as usize;
        assert(traced(locate, step, bounded, view, width, p, before[p], first, saved.pixels[p]));
        assert(traced(
            locate,
            step,
            bounded,
            view,
            width,
            p,
            saved.pixels@[p],
            second,
            resumed.pixels[p],
        ));
        assert(traced(locate, step, bounded, view, width, p, before[p], second, single.pixels[p]));
        let c = choose|c: C| #[trigger]
            call_ensures(locate, (view, x, y), c) && runs(
                step,
                bounded,
                c,
                before[p],
                first,
                saved.pixels[p],
            );
        let c2 = choose|c: C| #[trigger]
            call_ensures(locate, (view, x, y), c) && runs(
                step,
                bounded,
                c,
                saved.pixels@[p],
                second,
                resumed.pixels[p],
            );
        let c3 = choose|c: C| #[trigger]
            call_ensures(locate, (view, x, y), c) && runs(
                step,
                bounded,
                c,
                before[p],
                second,
                single.pixels[p],
            );
        assert(c2 == c && c3 == c);
        lemma_resume_equals_single_pass(
            step,
            bounded,
            c,
            before[p],
            first,
            saved.pixels[p],
            second,
            resumed.pixels[p],
            single.pixels[p],
        );
    }
    assert(resumed.pixels@ =~= single.pixels@);
    assert forall|i: int| 0 <= i < resumed.buffer@.len() implies resumed.buffer@[i]
        == single.buffer@[i] by {
        let p = i / 4;
        let shown = pixel_color(resumed.pixels@[p].iter_count as nat, second as nat);
        assert(single.pixels@[p] == resumed.pixels@[p]);
        assert(resumed.buffer@.subrange(4 * p, 4 * p + 4) == shown);
        assert(single.buffer@.subrange(4 * p, 4 * p + 4) == shown);
        assert(resumed.buffer@.subrange(4 * p, 4 * p + 4)[i - 4 * p] == resumed.buffer@[i]);
        assert(single.buffer@.subrange(4 * p, 4 * p + 4)[i - 4 * p] == single.buffer@[i]);
    }
    assert(resumed.buffer@ =~= single.buffer@);
}

} // verus!
