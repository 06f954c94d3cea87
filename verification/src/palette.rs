//! The colour gradient: sixteen stops, linearly blended.

use vstd::prelude::*;

verus! {

/// The stops of the gradient as red, green and blue.
pub const COLORS: [[u8; 3]; 16] = [
    [66, 30, 15],
    [25, 7, 26],
    [9, 1, 47],
    [4, 4, 73],
    [0, 7, 100],
    [12, 44, 138],
    [24, 82, 177],
    [57, 125, 209],
    [134, 181, 229],
    [211, 236, 248],
    [241, 233, 191],
    [248, 201, 95],
    [255, 170, 0],
    [204, 128, 0],
    [153, 87, 0],
    [106, 52, 3],
];

/// Index of the last stop.
pub const LAST_STOP: usize = 15;

/// The largest difference of one channel between two neighbouring stops.
pub const MAX_STOP_DELTA: usize = 96;

/// The denominator under which the position on the gradient is counted.
/// It is the target depth; a depth of zero counts as one, so that nothing is
/// ever divided by zero.
pub open spec fn span(target_depth: nat) -> nat {
    if target_depth == 0 {
        1
    } else {
        target_depth
    }
}

/// The part of the depth that the pixel did not use, out of `span`: the
/// whole of it at depth zero, nothing once the count reaches the depth.
pub open spec fn unused_depth(iter_count: nat, target_depth: nat) -> nat {
    if target_depth == 0 {
        1
    } else if iter_count >= target_depth {
        0
    } else {
        (target_depth - iter_count) as nat
    }
}

/// The position on the gradient, in units of `1 / span(target_depth)` of the
/// distance between two stops.
pub open spec fn position(iter_count: nat, target_depth: nat) -> nat {
    LAST_STOP as nat * unused_depth(iter_count, target_depth)
}

/// The value `part / whole` of the way from `lo` to `hi`, rounded towards
/// `lo`.
pub open spec fn blend(lo: int, hi: int, part: int, whole: int) -> int {
    if hi >= lo {
        lo + ((hi - lo) * part) / whole
    } else {
        lo - ((lo - hi) * part) / whole
    }
}

/// Channel `ch` (0 red, 1 green, 2 blue) of the colour of a pixel that made
/// `iter_count` iterations in a pass to `target_depth`.
pub open spec fn channel(iter_count: nat, target_depth: nat, ch: int) -> int {
    let whole = span(target_depth) as int;
    let pos = position(iter_count, target_depth) as int;
    let stop = pos / whole;
    if stop >= LAST_STOP {
        COLORS[LAST_STOP as int][ch] as int
    } else {
        blend(COLORS[stop][ch] as int, COLORS[stop + 1][ch] as int, pos % whole, whole)
    }
}

/// The four bytes of the pixel: red, green, blue and an opaque alpha.
pub open spec fn pixel_color(iter_count: nat, target_depth: nat) -> Seq<u8> {
    seq![
        channel(iter_count, target_depth, 0) as u8,
        channel(iter_count, target_depth, 1) as u8,
        channel(iter_count, target_depth, 2) as u8,
        255u8,
    ]
}

fn blend_channel(lo: u8, hi: u8, part: u128, whole: u128) -> (value: u8)
    requires
        part < whole,
        whole <= usize::MAX,
    ensures
        value == blend(lo as int, hi as int, part as int, whole as int),
        lo <= hi ==> lo <= value <= hi,
        hi <= lo ==> hi <= value <= lo,
{
    if hi >= lo {
        let range: u128 = (hi - lo) as u128;
        assert(range * part <= range * whole && range * whole <= 255 * whole) by (nonlinear_arith)
            requires
                part < whole,
                range <= 255,
        ;
        assert((range * part) / (whole as int) <= range) by (nonlinear_arith)
            requires
                range * part <= range * whole,
                whole > 0,
        ;
        let offset: u128 = (range * part) / whole;
        lo + (offset as u8)
    } else {
        let range: u128 = (lo - hi) as u128;
        assert(range * part <= range * whole && range * whole <= 255 * whole) by (nonlinear_arith)
            requires
                part < whole,
                range <= 255,
        ;
        assert((range * part) / (whole as int) <= range) by (nonlinear_arith)
            requires
                range * part <= range * whole,
                whole > 0,
        ;
        let offset: u128 = (range * part) / whole;
        lo - (offset as u8)
    }
}

/// Maps the progress of a pixel to its colour.
///
/// With `t = 1 - iter_count / target_depth`, kept within `[0, 1]`, the colour
/// lies at `15 * t` on the gradient: between stop `floor(15 * t)` and the
/// next, each channel blended linearly and rounded towards the lower stop.
/// A pixel that used its whole depth gets the first stop, one that made no
/// iteration the last. A depth of zero counts as no progress at all.
pub fn get_color(iter_count: usize, target_depth: usize) -> (color: [u8; 4])
    ensures
        color@ == pixel_color(iter_count as nat, target_depth as nat),
{
    let whole: u128 = if target_depth == 0 {
        1
    } else {
        target_depth as u128
    };
    let unused: u128 = if target_depth == 0 {
        1
    } else if iter_count >= target_depth {
        0
    } else {
        (target_depth - iter_count) as u128
    };
    let pos: u128 = 15 * unused;
    let stop: usize = (pos / whole) as usize;
    let part: u128 = pos % whole;
    assert(pos as int / whole as int <= 15) by (nonlinear_arith)
        requires
            pos <= 15 * whole,
            whole > 0,
    ;
    let color: [u8; 4] = if stop >= LAST_STOP {
        [COLORS[LAST_STOP][0], COLORS[LAST_STOP][1], COLORS[LAST_STOP][2], 255]
    } else {
        let lo = COLORS[stop];
        let hi = COLORS[stop + 1];
        [
            blend_channel(lo[0], hi[0], part, whole),
            blend_channel(lo[1], hi[1], part, whole),
            blend_channel(lo[2], hi[2], part, whole),
            255,
        ]
    };
    assert(color@ =~= pixel_color(iter_count as nat, target_depth as nat));
    color
}

/// The gradient itself, before rounding and `whole` times enlarged: the exact
/// value of channel `ch` at position `pos / whole`.
pub open spec fn exact_channel(pos: int, whole: int, ch: int) -> int {
    let stop = pos / whole;
    if stop >= LAST_STOP {
        whole * COLORS[LAST_STOP as int][ch]
    } else {
        whole * COLORS[stop][ch] + (COLORS[stop + 1][ch] - COLORS[stop][ch]) * (pos % whole)
    }
}

/// The distance between two channel values.
pub open spec fn distance(a: int, b: int) -> int {
    if a >= b {
        a - b
    } else {
        b - a
    }
}

/// No channel differs by more than `MAX_STOP_DELTA` between two neighbouring
/// stops.
pub proof fn lemma_stop_delta(stop: int, ch: int)
    requires
        0 <= stop < LAST_STOP,
        0 <= ch < 3,
    ensures
        distance(COLORS[stop + 1][ch] as int, COLORS[stop][ch] as int) <= MAX_STOP_DELTA,
{
}

/// Rounding moves a channel by less than one unit off the exact gradient.
proof fn lemma_rounding(iter_count: nat, target_depth: nat, ch: int)
    requires
        0 <= ch < 3,
    ensures
        distance(
            span(target_depth) * channel(iter_count, target_depth, ch),
            exact_channel(position(iter_count, target_depth) as int, span(target_depth) as int, ch),
        ) < span(target_depth),
{
    let whole = span(target_depth) as int;
    let pos = position(iter_count, target_depth) as int;
    let stop = pos / whole;
    let part = pos % whole;
    assert(0 <= stop <= 15 && 0 <= part < whole) by (nonlinear_arith)
        requires
            0 <= pos <= 15 * whole,
            whole > 0,
            stop == pos / whole,
            part == pos % whole,
    ;
    if stop < LAST_STOP {
        let lo = COLORS[stop][ch] as int;
        let hi = COLORS[stop + 1][ch] as int;
        let range = distance(hi, lo);
        let offset = (range * part) / whole;
        assert(0 <= range * part - whole * offset < whole) by (nonlinear_arith)
            requires
                0 <= range,
                0 <= part < whole,
                offset == (range * part) / whole,
        ;
        if hi >= lo {
            assert(whole * (lo + offset) == whole * lo + whole * offset) by (nonlinear_arith);
        } else {
            assert(whole * (lo - offset) == whole * lo - whole * offset) by (nonlinear_arith);
            assert((hi - lo) * part == -(range * part)) by (nonlinear_arith)
                requires
                    range == lo - hi,
            ;
        }
    }
}

/// One unit further along, the exact gradient differs by the slope between
/// the two stops around it.
proof fn lemma_unit_step(pos: int, whole: int, ch: int)
    requires
        0 <= ch < 3,
        whole > 0,
        0 <= pos < LAST_STOP * whole,
    ensures
        distance(exact_channel(pos + 1, whole, ch), exact_channel(pos, whole, ch))
            <= MAX_STOP_DELTA,
{
    let stop = pos / whole;
    let part = pos % whole;
    assert(0 <= stop < 15 && 0 <= part < whole && pos == whole * stop + part) by (nonlinear_arith)
        requires
            0 <= pos < 15 * whole,
            whole > 0,
            stop == pos / whole,
            part == pos % whole,
    ;
    lemma_stop_delta(stop, ch);
    let lo = COLORS[stop][ch] as int;
    let hi = COLORS[stop + 1][ch] as int;
    if part + 1 < whole {
        vstd::arithmetic::div_mod::lemma_fundamental_div_mod_converse(
            pos + 1,
            whole,
            stop,
            part + 1,
        );
        assert((hi - lo) * (part + 1) == (hi - lo) * part + (hi - lo)) by (nonlinear_arith);
    } else {
        assert(pos + 1 == whole * (stop + 1) + 0) by (nonlinear_arith)
            requires
                pos == whole * stop + part,
                part + 1 == whole,
        ;
        vstd::arithmetic::div_mod::lemma_fundamental_div_mod_converse(pos + 1, whole, stop + 1, 0);
        assert((hi - lo) * part == whole * hi - whole * lo - (hi - lo)) by (nonlinear_arith)
            requires
                part + 1 == whole,
        ;
    }
}

/// Over `steps` units the exact gradient differs by at most `steps` times
/// the steepest slope.
proof fn lemma_steps(pos: int, steps: nat, whole: int, ch: int)
    requires
        0 <= ch < 3,
        whole > 0,
        0 <= pos,
        pos + steps <= LAST_STOP * whole,
    ensures
        distance(exact_channel(pos + steps, whole, ch), exact_channel(pos, whole, ch))
            <= MAX_STOP_DELTA * steps,
    decreases steps,
{
    if steps > 0 {
        lemma_steps(pos, (steps - 1) as nat, whole, ch);
        lemma_unit_step(pos + steps - 1, whole, ch);
    }
}

/// The colour changes gradually with the iteration count: from one count to
/// the next, in a pass to any depth, a channel moves by less than the
/// steepest slope of the gradient allows over fifteen parts in `depth` of
/// the distance between two stops, and two units for the rounding. At a
/// depth of fifteen or more, where one iteration passes at most one stop,
/// that is never more than `MAX_STOP_DELTA`.
pub proof fn lemma_color_continuous(iter_count: nat, target_depth: nat, ch: int)
    requires
        0 <= ch < 3,
    ensures
        span(target_depth) * distance(
            channel(iter_count + 1, target_depth, ch),
            channel(iter_count, target_depth, ch),
        ) < LAST_STOP * MAX_STOP_DELTA + 2 * span(target_depth),
        target_depth >= LAST_STOP ==> distance(
            channel(iter_count + 1, target_depth, ch),
            channel(iter_count, target_depth, ch),
        ) <= MAX_STOP_DELTA,
{
    let whole = span(target_depth) as int;
    let here = position(iter_count, target_depth) as int;
    let there = position(iter_count + 1, target_depth) as int;
    let a = channel(iter_count, target_depth, ch);
    let b = channel(iter_count + 1, target_depth, ch);
    if iter_count < target_depth {
        assert(here == there + 15);
        lemma_rounding(iter_count, target_depth, ch);
        lemma_rounding(iter_count + 1, target_depth, ch);
        lemma_steps(there, 15, whole, ch);
        assert(whole * a - whole * b == whole * (a - b)) by (nonlinear_arith);
        assert(whole * b - whole * a == whole * (b - a)) by (nonlinear_arith);
        assert(whole * distance(b, a) < 15 * 96 + 2 * whole);
        if target_depth >= 16 {
            assert(distance(b, a) <= 96) by (nonlinear_arith)
                requires
                    whole * distance(b, a) < 15 * 96 + 2 * whole,
                    whole >= 16,
                    distance(b, a) >= 0,
            ;
        } else if target_depth == 15 {
            let stop = 14 - iter_count;
            assert(there == 15 * stop && here == 15 * (stop + 1));
            assert(there / 15 == stop && there % 15 == 0);
            assert(here / 15 == stop + 1 && here % 15 == 0);
            lemma_stop_delta(stop, ch);
            let lo = COLORS[stop][ch] as int;
            let hi = COLORS[stop + 1][ch] as int;
            assert((hi - lo) * 0 == 0 && (lo - hi) * 0 == 0);
            assert(blend(lo, hi, 0, 15) == lo);
            assert(b == blend(lo, hi, there % whole, whole));
            assert(b == COLORS[stop][ch]);
            if stop + 1 < 15 {
                let top = COLORS[stop + 2][ch] as int;
                assert((top - hi) * 0 == 0 && (hi - top) * 0 == 0);
                assert(blend(hi, top, 0, 15) == hi);
            }
            assert(a == COLORS[stop + 1][ch]);
        }
    } else {
        assert(here == there);
    }
}

} // verus!
