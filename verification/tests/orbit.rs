use mandelbrot::orbit::{advance, PixelState};

// A toy recurrence on integers: the iterate grows by the pixel's constant and
// counts as bounded while it is below one hundred.
fn grow(s: u64, c: u64) -> u64 {
    s + c
}

fn small(s: u64) -> bool {
    s < 100
}

fn start() -> PixelState<u64> {
    PixelState { orbit: 0, iter_count: 0 }
}

#[test]
fn runs_to_the_target_while_bounded() {
    let to = advance(start(), 3, 10, &grow, &small);
    assert_eq!(to.iter_count, 10);
    assert_eq!(to.orbit, 30);
}

#[test]
fn stops_as_soon_as_the_test_fails() {
    let to = advance(start(), 30, 10, &grow, &small);
    assert_eq!(to.iter_count, 4);
    assert_eq!(to.orbit, 120);
}

#[test]
fn target_zero_leaves_the_pixel_alone() {
    let to = advance(start(), 30, 0, &grow, &small);
    assert_eq!(to.iter_count, 0);
    assert_eq!(to.orbit, 0);
}

#[test]
fn target_below_the_count_leaves_the_pixel_alone() {
    let from = PixelState { orbit: 21u64, iter_count: 7 };
    let to = advance(from, 3, 5, &grow, &small);
    assert_eq!(to.iter_count, 7);
    assert_eq!(to.orbit, 21);
    let to = advance(from, 3, 7, &grow, &small);
    assert_eq!(to.iter_count, 7);
    assert_eq!(to.orbit, 21);
}

#[test]
fn escaped_pixel_is_not_iterated_again() {
    let escaped = advance(start(), 30, 10, &grow, &small);
    let again = advance(escaped, 30, 1000, &grow, &small);
    assert_eq!(again.iter_count, escaped.iter_count);
    assert_eq!(again.orbit, escaped.orbit);
}

#[test]
fn resuming_equals_one_uninterrupted_pass() {
    for c in [1u64, 3, 7, 30, 100, 250] {
        for second in 0..40usize {
            let single = advance(start(), c, second, &grow, &small);
            for first in 0..=second {
                let saved = advance(start(), c, first, &grow, &small);
                let resumed = advance(saved, c, second, &grow, &small);
                assert_eq!(resumed.iter_count, single.iter_count);
                assert_eq!(resumed.orbit, single.orbit);
            }
        }
    }
}

#[test]
fn count_never_falls_as_the_depth_rises() {
    for c in [1u64, 3, 7, 30, 100, 250] {
        let mut state = start();
        let mut last = 0usize;
        for depth in [0usize, 1, 2, 4, 8, 16, 32, 64, 96, 128] {
            state = advance(state, c, depth, &grow, &small);
            assert!(state.iter_count >= last);
            assert!(state.iter_count <= depth);
            last = state.iter_count;
        }
    }
}
