use mandelbrot::controls::{Keys, Motion};
use mandelbrot::orbit::{advance, PixelState};
use mandelbrot::palette::get_color;
use mandelbrot::state::{GameState, SCREEN_HEIGHT, SCREEN_WIDTH};
use mandelbrot::viewport::apply_motions;

// The arithmetic of the plane in double precision, as an application supplies it.

#[derive(Clone, Copy, Debug, PartialEq)]
struct View {
    x_min: f64,
    x_range: f64,
    y_min: f64,
    y_range: f64,
}

const HOME: View = View { x_min: -2.5, x_range: 3.5, y_min: -1.0, y_range: 2.0 };
const ORIGIN: [f64; 4] = [0.0; 4];

fn shift(v: View, motion: Motion) -> View {
    match motion {
        Motion::PanLeft => View { x_min: v.x_min - 0.025 * v.x_range, ..v },
        Motion::PanRight => View { x_min: v.x_min + 0.025 * v.x_range, ..v },
        Motion::PanUp => View { y_min: v.y_min - 0.025 * v.y_range, ..v },
        Motion::PanDown => View { y_min: v.y_min + 0.025 * v.y_range, ..v },
        Motion::ZoomOut => View {
            x_min: v.x_min - v.x_range * 0.5 * (1.25 - 1.0),
            y_min: v.y_min - v.y_range * 0.5 * (1.25 - 1.0),
            x_range: v.x_range * 1.25,
            y_range: v.y_range * 1.25,
        },
        Motion::ZoomIn => {
            let x_range = v.x_range / 1.25;
            let y_range = v.y_range / 1.25;
            View {
                x_min: v.x_min + x_range * 0.5 * (1.25 - 1.0),
                y_min: v.y_min + y_range * 0.5 * (1.25 - 1.0),
                x_range,
                y_range,
            }
        }
    }
}

fn step(s: [f64; 4], c: (f64, f64)) -> [f64; 4] {
    let y = 2.0 * s[0] * s[1] + c.1;
    let x = s[2] - s[3] + c.0;
    [x, y, x * x, y * y]
}

fn bounded(s: [f64; 4]) -> bool {
    s[2] + s[3] <= 4.0
}

fn locate_small(v: View, s_x: usize, s_y: usize) -> (f64, f64) {
    (v.x_min + v.x_range * (s_x as f64 / 8.0), v.y_min + v.y_range * (s_y as f64 / 4.0))
}

fn locate_screen(v: View, s_x: usize, s_y: usize) -> (f64, f64) {
    (
        v.x_min + v.x_range * (s_x as f64 / SCREEN_WIDTH as f64),
        v.y_min + v.y_range * (s_y as f64 / SCREEN_HEIGHT as f64),
    )
}

fn fresh() -> PixelState<[f64; 4]> {
    PixelState { orbit: ORIGIN, iter_count: 0 }
}

fn small_state() -> GameState<View, [f64; 4]> {
    GameState::with_size(8, 4, HOME, ORIGIN)
}

fn counts(state: &GameState<View, [f64; 4]>) -> Vec<usize> {
    state.pixels.iter().map(|p| p.iter_count).collect()
}

fn assert_painted(state: &GameState<View, [f64; 4]>, depth: usize) {
    assert_eq!(state.buffer.len(), 4 * state.pixels.len());
    for (p, pixel) in state.pixels.iter().enumerate() {
        assert_eq!(state.buffer[4 * p..4 * p + 4], get_color(pixel.iter_count, depth));
    }
}

fn bits(s: [f64; 4]) -> [u64; 4] {
    [s[0].to_bits(), s[1].to_bits(), s[2].to_bits(), s[3].to_bits()]
}

const DEPTH_32: [usize; 32] = [
    1, 1, 2, 3, 3, 5, 4, 2, 1, 1, 3, 5, 6, 32, 32, 4, 1, 1, 32, 32, 32, 32, 32, 4, 1, 1, 3, 5, 6,
    32, 32, 4,
];

const DEPTH_64: [usize; 32] = [
    1, 1, 2, 3, 3, 5, 4, 2, 1, 1, 3, 5, 6, 64, 64, 4, 1, 1, 64, 64, 64, 64, 64, 4, 1, 1, 3, 5, 6,
    64, 64, 4,
];

#[test]
fn corner_of_the_initial_viewport_escapes_at_once() {
    let to = advance(fresh(), (-2.5, -1.0), 32, &step, &bounded);
    assert_eq!(to.iter_count, 1);
    assert_eq!(to.orbit, [-2.5, -1.0, 6.25, 1.0]);
    assert_eq!(get_color(to.iter_count, 32), [129, 69, 1, 255]);
}

#[test]
fn centre_of_the_initial_viewport_never_escapes() {
    for depth in [0usize, 1, 32, 64, 250, 1000, 10000] {
        let to = advance(fresh(), (-0.75, 0.0), depth, &step, &bounded);
        assert_eq!(to.iter_count, depth);
        assert!(bounded(to.orbit));
    }
    assert_eq!(get_color(10000, 10000), [66, 30, 15, 255]);
}

#[test]
fn late_escapes_are_counted_exactly() {
    let to = advance(fresh(), (-0.75, 0.1), 1000, &step, &bounded);
    assert_eq!(to.iter_count, 33);
    let to = advance(fresh(), (-1.75, 0.03), 1000, &step, &bounded);
    assert_eq!(to.iter_count, 10);
    let to = advance(fresh(), (0.26, 0.0), 1000, &step, &bounded);
    assert_eq!(to.iter_count, 30);
    assert_eq!(to.orbit[0], 3.9988727543165012);
}

#[test]
fn save_and_resume_loses_no_bit() {
    let points = [(-0.75, 0.1), (-1.75, 0.03), (0.26, 0.0), (0.3, 0.5), (-2.5, -1.0), (-0.75, 0.0)];
    for c in points {
        let single = advance(fresh(), c, 200, &step, &bounded);
        for first in [0usize, 1, 2, 5, 9, 10, 29, 30, 33, 34, 100, 200] {
            let saved = advance(fresh(), c, first, &step, &bounded);
            let resumed = advance(saved, c, 200, &step, &bounded);
            assert_eq!(resumed.iter_count, single.iter_count);
            assert_eq!(bits(resumed.orbit), bits(single.orbit));
        }
    }
}

#[test]
fn pan_right_then_left_restores_the_viewport_within_tolerance() {
    let moved = apply_motions(HOME, &vec![Motion::PanRight, Motion::PanLeft], &shift);
    assert!((moved.x_min - HOME.x_min).abs() < 1e-12);
    assert_eq!(moved.x_range, HOME.x_range);
    assert_eq!(moved.y_min, HOME.y_min);
    assert_eq!(moved.y_range, HOME.y_range);
    let moved = apply_motions(HOME, &vec![Motion::PanDown, Motion::PanUp], &shift);
    assert!((moved.y_min - HOME.y_min).abs() < 1e-12);
}

#[test]
fn zoom_in_then_out_restores_the_viewport_within_tolerance() {
    let moved = apply_motions(HOME, &vec![Motion::ZoomIn, Motion::ZoomOut], &shift);
    assert!((moved.x_range - HOME.x_range).abs() < 1e-12);
    assert!((moved.y_range - HOME.y_range).abs() < 1e-12);
    assert!((moved.x_min - HOME.x_min).abs() < 1e-12);
    assert!((moved.y_min - HOME.y_min).abs() < 1e-12);
}

#[test]
fn zoom_keeps_the_centre() {
    let centre = |v: View| (v.x_min + v.x_range / 2.0, v.y_min + v.y_range / 2.0);
    let out = shift(HOME, Motion::ZoomOut);
    assert_eq!(out.x_range, 4.375);
    assert_eq!(out.y_range, 2.5);
    assert_eq!(out.x_min, -2.9375);
    assert_eq!(out.y_min, -1.25);
    assert_eq!(centre(out), centre(HOME));
    let inn = shift(HOME, Motion::ZoomIn);
    assert!((inn.x_range - 2.8).abs() < 1e-12);
    assert!((inn.y_range - 1.6).abs() < 1e-12);
    assert!((centre(inn).0 - centre(HOME).0).abs() < 1e-12);
    assert!((centre(inn).1 - centre(HOME).1).abs() < 1e-12);
}

#[test]
fn motions_apply_in_their_order() {
    let pan_then_zoom = apply_motions(HOME, &vec![Motion::PanLeft, Motion::ZoomOut], &shift);
    let by_hand = shift(shift(HOME, Motion::PanLeft), Motion::ZoomOut);
    assert_eq!(pan_then_zoom, by_hand);
    let zoom_then_pan = shift(shift(HOME, Motion::ZoomOut), Motion::PanLeft);
    assert!(pan_then_zoom != zoom_then_pan);
    assert_eq!(apply_motions(HOME, &vec![], &shift), HOME);
}

#[test]
fn new_state_is_blank_and_awaits_its_first_pass() {
    let state: GameState<View, [f64; 4]> = GameState::new(HOME, ORIGIN);
    assert_eq!(state.width, 800);
    assert_eq!(state.height, 450);
    assert_eq!(state.current_iterations, 0);
    assert_eq!(state.max_iterations, 64);
    assert!(state.redraw);
    assert_eq!(state.view, HOME);
    assert_eq!(state.home, HOME);
    assert_eq!(state.buffer.len(), 4 * 800 * 450);
    assert!(state.buffer.iter().all(|b| *b == 0));
    assert_eq!(state.pixels.len(), 800 * 450);
    assert!(state.pixels.iter().all(|p| p.iter_count == 0 && bits(p.orbit) == [0; 4]));
}

#[test]
fn sized_state_has_the_asked_size() {
    let state = small_state();
    assert_eq!(state.width, 8);
    assert_eq!(state.height, 4);
    assert_eq!(state.pixels.len(), 32);
    assert_eq!(state.buffer, vec![0u8; 128]);
    let empty: GameState<View, [f64; 4]> = GameState::with_size(0, 7, HOME, ORIGIN);
    assert!(empty.pixels.is_empty());
    assert!(empty.buffer.is_empty());
}

#[test]
fn pixels_are_stored_row_by_row() {
    let state = small_state();
    assert_eq!(state.pixel_index(0, 0), 0);
    assert_eq!(state.pixel_index(7, 0), 7);
    assert_eq!(state.pixel_index(0, 1), 8);
    assert_eq!(state.pixel_index(3, 2), 19);
    assert_eq!(state.pixel_index(7, 3), 31);
}

#[test]
fn first_frame_computes_the_image_at_the_initial_depth() {
    let mut state = small_state();
    state.update(&Keys::none(), &shift, &locate_small, &step, &bounded);
    assert_eq!(state.current_iterations, 32);
    assert_eq!(state.max_iterations, 64);
    assert!(!state.redraw);
    assert_eq!(state.view, HOME);
    assert_eq!(counts(&state), DEPTH_32);
    assert_painted(&state, 32);
    assert_eq!(state.buffer[0..4], [129, 69, 1, 255]);
    assert_eq!(state.buffer[4 * 13..4 * 13 + 4], [66, 30, 15, 255]);
}

#[test]
fn idle_frames_resume_up_to_the_ceiling_and_then_rest() {
    let mut state = small_state();
    state.update(&Keys::none(), &shift, &locate_small, &step, &bounded);
    state.update(&Keys::none(), &shift, &locate_small, &step, &bounded);
    assert_eq!(state.current_iterations, 64);
    assert_eq!(counts(&state), DEPTH_64);
    assert_painted(&state, 64);
    let image = state.buffer.clone();
    let orbits: Vec<[u64; 4]> = state.pixels.iter().map(|p| bits(p.orbit)).collect();
    state.update(&Keys::none(), &shift, &locate_small, &step, &bounded);
    assert_eq!(state.current_iterations, 64);
    assert_eq!(counts(&state), DEPTH_64);
    assert_eq!(state.buffer, image);
    let after: Vec<[u64; 4]> = state.pixels.iter().map(|p| bits(p.orbit)).collect();
    assert_eq!(after, orbits);
}

#[test]
fn resumed_image_equals_the_image_computed_in_one_pass() {
    let mut resumed = small_state();
    resumed.calculate_mandelbrot(32, &locate_small, &step, &bounded);
    resumed.calculate_mandelbrot(64, &locate_small, &step, &bounded);
    let mut single = small_state();
    single.calculate_mandelbrot(64, &locate_small, &step, &bounded);
    assert_eq!(counts(&resumed), counts(&single));
    assert_eq!(resumed.buffer, single.buffer);
    for (a, b) in resumed.pixels.iter().zip(single.pixels.iter()) {
        assert_eq!(bits(a.orbit), bits(b.orbit));
    }
}

#[test]
fn counts_never_fall_over_resumed_frames() {
    let mut state = small_state();
    state.update(&Keys::none(), &shift, &locate_small, &step, &bounded);
    let raise = Keys { e: true, ..Keys::none() };
    let mut last = counts(&state);
    let mut depths = vec![state.current_iterations];
    for frame in 0..6 {
        let keys = if frame < 2 { raise } else { Keys::none() };
        state.update(&keys, &shift, &locate_small, &step, &bounded);
        let now = counts(&state);
        for (a, b) in last.iter().zip(now.iter()) {
            assert!(a <= b);
        }
        last = now;
        depths.push(state.current_iterations);
    }
    assert_eq!(state.max_iterations, 192);
    assert_eq!(depths, vec![32, 64, 96, 128, 160, 192, 192]);
}

#[test]
fn raising_the_ceiling_keeps_what_was_computed() {
    let mut state = small_state();
    state.update(&Keys::none(), &shift, &locate_small, &step, &bounded);
    state.update(&Keys::none(), &shift, &locate_small, &step, &bounded);
    state.update(&Keys { e: true, ..Keys::none() }, &shift, &locate_small, &step, &bounded);
    assert_eq!(state.max_iterations, 128);
    assert_eq!(state.current_iterations, 96);
    assert!(counts(&state).iter().zip(DEPTH_64.iter()).all(|(now, then)| now >= then));
    assert_painted(&state, 96);
}

#[test]
fn raising_the_ceiling_does_not_cancel_the_first_pass() {
    let mut state = small_state();
    state.update(&Keys { e: true, ..Keys::none() }, &shift, &locate_small, &step, &bounded);
    assert_eq!(state.max_iterations, 128);
    assert_eq!(state.current_iterations, 32);
    assert_eq!(counts(&state), DEPTH_32);
}

#[test]
fn lowering_the_ceiling_restarts_the_image() {
    let mut state = small_state();
    let raise = Keys { e: true, ..Keys::none() };
    for _ in 0..4 {
        state.update(&raise, &shift, &locate_small, &step, &bounded);
    }
    assert_eq!(state.max_iterations, 320);
    assert_eq!(state.current_iterations, 128);
    state.update(&Keys { q: true, ..Keys::none() }, &shift, &locate_small, &step, &bounded);
    assert_eq!(state.max_iterations, 256);
    assert_eq!(state.current_iterations, 32);
    assert_eq!(counts(&state), DEPTH_32);
    assert_painted(&state, 32);
}

#[test]
fn ceiling_is_never_lowered_below_one_step() {
    let mut state = small_state();
    let lower = Keys { q: true, ..Keys::none() };
    state.update(&lower, &shift, &locate_small, &step, &bounded);
    assert_eq!(state.max_iterations, 64);
    state.update(&lower, &shift, &locate_small, &step, &bounded);
    assert_eq!(state.max_iterations, 64);
    assert_eq!(state.current_iterations, 32);
}

#[test]
fn panning_moves_the_viewport_and_restarts_the_image() {
    let mut state = small_state();
    state.update(&Keys::none(), &shift, &locate_small, &step, &bounded);
    state.update(&Keys::none(), &shift, &locate_small, &step, &bounded);
    assert_eq!(state.current_iterations, 64);
    state.update(&Keys { d: true, ..Keys::none() }, &shift, &locate_small, &step, &bounded);
    assert_eq!(state.view, shift(HOME, Motion::PanRight));
    assert_eq!(state.view.x_min, -2.5 + 0.025 * 3.5);
    assert_eq!(state.current_iterations, 32);
    assert!(!state.redraw);
    let mut direct: GameState<View, [f64; 4]> =
        GameState::with_size(8, 4, shift(HOME, Motion::PanRight), ORIGIN);
    direct.calculate_mandelbrot(32, &locate_small, &step, &bounded);
    assert_eq!(counts(&state), counts(&direct));
    assert_eq!(state.buffer, direct.buffer);
}

#[test]
fn reset_key_restores_the_exact_initial_rectangle() {
    let mut state = small_state();
    let wander = [
        Keys { left: true, ..Keys::none() },
        Keys { equals: true, w: true, ..Keys::none() },
        Keys { equals: true, ..Keys::none() },
        Keys { s: true, d: true, minus: true, ..Keys::none() },
        Keys { e: true, up: true, ..Keys::none() },
    ];
    for keys in wander {
        state.update(&keys, &shift, &locate_small, &step, &bounded);
    }
    assert!(state.view != HOME);
    state.update(&Keys { r: true, ..Keys::none() }, &shift, &locate_small, &step, &bounded);
    assert_eq!(state.view, HOME);
    assert_eq!(state.view.x_min.to_bits(), (-2.5f64).to_bits());
    assert_eq!(state.view.x_range.to_bits(), 3.5f64.to_bits());
    assert_eq!(state.view.y_min.to_bits(), (-1.0f64).to_bits());
    assert_eq!(state.view.y_range.to_bits(), 2.0f64.to_bits());
    assert_eq!(state.current_iterations, 32);
    assert_eq!(counts(&state), DEPTH_32);
}

#[test]
fn reset_key_applies_before_the_movements_of_the_same_frame() {
    let mut state = small_state();
    state.handle_input(&Keys { minus: true, ..Keys::none() }, &shift);
    state.handle_input(&Keys { r: true, a: true, ..Keys::none() }, &shift);
    assert_eq!(state.view, shift(HOME, Motion::PanLeft));
    assert!(state.redraw);
}

#[test]
fn handling_input_touches_neither_pixels_nor_image() {
    let mut state = small_state();
    state.update(&Keys::none(), &shift, &locate_small, &step, &bounded);
    let image = state.buffer.clone();
    state.handle_input(&Keys { equals: true, q: true, ..Keys::none() }, &shift);
    assert!(state.redraw);
    assert_eq!(state.view, shift(HOME, Motion::ZoomIn));
    assert_eq!(state.current_iterations, 32);
    assert_eq!(counts(&state), DEPTH_32);
    assert_eq!(state.buffer, image);
}

#[test]
fn pending_reset_survives_input_that_asks_for_none() {
    let mut state = small_state();
    state.handle_input(&Keys { e: true, ..Keys::none() }, &shift);
    assert!(state.redraw);
    assert_eq!(state.max_iterations, 128);
    state.redraw = false;
    state.handle_input(&Keys { e: true, ..Keys::none() }, &shift);
    assert!(!state.redraw);
    assert_eq!(state.max_iterations, 192);
}

#[test]
fn pass_to_depth_zero_iterates_nothing() {
    let mut state = small_state();
    state.calculate_mandelbrot(0, &locate_small, &step, &bounded);
    assert_eq!(state.current_iterations, 0);
    assert_eq!(counts(&state), vec![0; 32]);
    for p in 0..32 {
        assert_eq!(state.buffer[4 * p..4 * p + 4], [106, 52, 3, 255]);
    }
}

#[test]
fn forgetting_the_pixels_keeps_the_image() {
    let mut state = small_state();
    state.calculate_mandelbrot(32, &locate_small, &step, &bounded);
    let image = state.buffer.clone();
    state.reset_pixels();
    assert_eq!(state.current_iterations, 0);
    assert_eq!(counts(&state), vec![0; 32]);
    assert!(state.pixels.iter().all(|p| bits(p.orbit) == [0; 4]));
    assert_eq!(state.buffer, image);
}

#[test]
fn default_image_shows_the_set_at_depth_32() {
    let mut state: GameState<View, [f64; 4]> = GameState::new(HOME, ORIGIN);
    state.update(&Keys::none(), &shift, &locate_screen, &step, &bounded);
    assert_eq!(state.current_iterations, 32);
    let corner = state.pixel_index(0, 0);
    assert_eq!(state.pixels[corner].iter_count, 1);
    assert_eq!(state.buffer[4 * corner..4 * corner + 4], [129, 69, 1, 255]);
    let centre = state.pixel_index(400, 225);
    assert_eq!(centre, 400 + 225 * 800);
    assert_eq!(state.pixels[centre].iter_count, 32);
    assert_eq!(state.buffer[4 * centre..4 * centre + 4], [66, 30, 15, 255]);
    assert_painted(&state, 32);
}
