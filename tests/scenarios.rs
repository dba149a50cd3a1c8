use gest::config::{ApplicationGestures, Config, Gesture, Options, RepeatMode};
use gest::engine::GesturesEngine;
use gest::frame::State;
use gest::geometry::{calculate_move_threshold_units, Direction, Edge, Fraction, MoveThresholdUnits, Position};
use gest::matcher::Window;
use gest::sequence_step::{DefinedSequenceStep, PerformedSequenceStep};

fn frame(points: &[(u8, u16, u16)]) -> State {
    let mut s = State::new();
    for &(slot, x, y) in points {
        s.insert(slot, Position { x, y });
    }
    s
}

fn gesture(name: &str, sequence: Vec<DefinedSequenceStep>, edge: Option<Edge>, repeat_mode: RepeatMode) -> Gesture {
    Gesture { name: name.to_string(), sequence, edge, repeat_mode, command: name.to_string() }
}

fn catalog(gestures: Vec<Gesture>, options: Options) -> Config {
    Config { options, gestures, application_gestures: ApplicationGestures { by_title: vec![], by_class: vec![] } }
}

fn engine(options: &Options) -> GesturesEngine {
    let size = MoveThresholdUnits { x: 1000, y: 1000 };
    GesturesEngine::new(calculate_move_threshold_units(&size, options.move_threshold), size)
}

fn window() -> Window {
    Window { class: "term".to_string(), title: "shell".to_string() }
}

fn mv(fingers: u8, direction: Direction, distance: Option<u32>) -> DefinedSequenceStep {
    DefinedSequenceStep::Move { fingers, direction, distance: distance.map(|ppm| Fraction { ppm }) }
}

fn last_move(e: &GesturesEngine) -> (usize, Direction, u64) {
    match e.performed_sequence().last() {
        Some(PerformedSequenceStep::Move { slots, direction, distance }) => (slots.len(), *direction, *distance),
        _ => panic!("last step is no move"),
    }
}

#[test]
fn three_finger_swipe_up() {
    let cfg = catalog(
        vec![gesture("up3", vec![mv(3, Direction::Up, None)], None, RepeatMode::empty())],
        Options::defaults(),
    );
    let mut e = engine(&cfg.options);
    let w = window();
    assert!(e.update_state(frame(&[(1, 500, 500), (2, 520, 500), (3, 540, 500)]), &cfg, &w).is_empty());
    assert!(e.update_state(frame(&[(1, 500, 320), (2, 520, 320), (3, 540, 320)]), &cfg, &w).is_empty());
    assert_eq!(e.performed_sequence().len(), 1);
    let (fingers, direction, distance) = last_move(&e);
    assert_eq!(fingers, 3);
    assert_eq!(direction, Direction::Up);
    assert_eq!(distance, 180_000);
    let slots = e.performed_sequence()[0].slots();
    assert!(slots.contains(1) && slots.contains(2) && slots.contains(3));
    assert_eq!(e.update_state(State::new(), &cfg, &w), vec!["up3".to_string()]);
}

#[test]
fn edge_slide_from_left_repeats() {
    let mut options = Options::defaults();
    options.edge.threshold = Fraction { ppm: 100_000 };
    options.edge.sensitivity = Fraction { ppm: 500_000 };
    let cfg = catalog(
        vec![
            gesture("plain", vec![mv(1, Direction::Right, None)], None, RepeatMode::slide_only()),
            gesture("edge", vec![mv(1, Direction::Right, None)], Some(Edge::Left), RepeatMode::slide_only()),
        ],
        options,
    );
    let mut e = engine(&cfg.options);
    let w = window();
    assert!(e.update_state(frame(&[(1, 50, 500)]), &cfg, &w).is_empty());
    assert_eq!(e.starting_edge(), Some(Edge::Left));
    assert_eq!(e.update_state(frame(&[(1, 250, 500)]), &cfg, &w), vec!["edge".to_string()]);
    assert_eq!(e.repeat_mode(), RepeatMode::slide_only());
    assert!(e.update_state(State::new(), &cfg, &w).is_empty());
}

#[test]
fn tap_repeat_fires_on_each_touch_down() {
    let cfg = catalog(
        vec![gesture("tap", vec![mv(1, Direction::Up, None)], None, RepeatMode::tap_only())],
        Options::defaults(),
    );
    let mut e = engine(&cfg.options);
    let w = window();
    assert!(e.update_state(frame(&[(1, 500, 500)]), &cfg, &w).is_empty());
    assert!(e.update_state(frame(&[(1, 500, 499)]), &cfg, &w).is_empty());
    assert!(e.update_state(frame(&[(1, 500, 300)]), &cfg, &w).is_empty());
    assert_eq!(e.update_state(frame(&[(1, 500, 300), (2, 700, 700)]), &cfg, &w), vec!["tap".to_string()]);
    assert_eq!(e.repeat_mode(), RepeatMode::tap_only());
    assert!(e.update_state(frame(&[(1, 500, 300)]), &cfg, &w).is_empty());
    assert_eq!(e.performed_sequence().len(), 1);
    assert_eq!(e.update_state(frame(&[(1, 500, 300), (3, 700, 700)]), &cfg, &w), vec!["tap".to_string()]);
    assert!(e.update_state(State::new(), &cfg, &w).is_empty());
}

#[test]
fn touch_steps_at_the_end_never_match() {
    let cfg = catalog(
        vec![gesture(
            "td_tu",
            vec![DefinedSequenceStep::TouchDown { fingers: 2 }, DefinedSequenceStep::TouchUp { fingers: 2 }],
            None,
            RepeatMode::tap_only(),
        )],
        Options::defaults(),
    );
    let mut e = engine(&cfg.options);
    let w = window();
    assert!(e.update_state(frame(&[(1, 500, 500), (2, 600, 500)]), &cfg, &w).is_empty());
    assert!(e.update_state(frame(&[(1, 500, 500)]), &cfg, &w).is_empty());
    assert!(e.update_state(frame(&[(1, 500, 500), (3, 600, 500)]), &cfg, &w).is_empty());
    assert!(e.update_state(State::new(), &cfg, &w).is_empty());
}

fn promotion_frames(e: &mut GesturesEngine, cfg: &Config, w: &Window) {
    assert!(e.update_state(frame(&[(1, 600, 500)]), cfg, w).is_empty());
    assert!(e.update_state(frame(&[(1, 430, 500)]), cfg, w).is_empty());
    assert_eq!(last_move(e), (1, Direction::Left, 170_000));
    assert!(e.update_state(frame(&[(1, 430, 500), (2, 700, 500)]), cfg, w).is_empty());
    assert_eq!(e.performed_sequence().len(), 2);
    assert!(e.performed_sequence()[1].is_touch_down());
    assert!(e.update_state(frame(&[(1, 300, 500), (2, 520, 500)]), cfg, w).is_empty());
    let steps = e.performed_sequence();
    assert_eq!(steps.len(), 2);
    assert_eq!(steps[0].direction(), Some(Direction::Left));
    assert_eq!(steps[0].slots().len(), 2);
    assert_eq!(steps[0].distance(), Some(180_000));
}

#[test]
fn trailing_distance_short_of_minimum_does_not_match() {
    let cfg = catalog(
        vec![gesture("left2", vec![mv(2, Direction::Left, Some(200_000))], None, RepeatMode::empty())],
        Options::defaults(),
    );
    let mut e = engine(&cfg.options);
    let w = window();
    promotion_frames(&mut e, &cfg, &w);
    assert!(e.update_state(State::new(), &cfg, &w).is_empty());
}

#[test]
fn trailing_distance_promotes_second_finger() {
    let cfg = catalog(
        vec![gesture("left2", vec![mv(2, Direction::Left, Some(200_000))], None, RepeatMode::empty())],
        Options::defaults(),
    );
    let mut e = engine(&cfg.options);
    let w = window();
    promotion_frames(&mut e, &cfg, &w);
    assert!(e.update_state(frame(&[(1, 300, 500), (2, 500, 500)]), &cfg, &w).is_empty());
    assert_eq!(e.performed_sequence()[0].distance(), Some(200_000));
    assert_eq!(e.update_state(State::new(), &cfg, &w), vec!["left2".to_string()]);
}

fn tie_break(run_all: bool, order: &[(&str, u32)]) -> Vec<String> {
    let mut options = Options::defaults();
    options.run_all_matches = run_all;
    let gestures = order
        .iter()
        .map(|(name, ppm)| gesture(name, vec![mv(1, Direction::Up, Some(*ppm))], None, RepeatMode::empty()))
        .collect();
    let cfg = catalog(gestures, options);
    let mut e = engine(&cfg.options);
    let w = window();
    assert!(e.update_state(frame(&[(1, 500, 900)]), &cfg, &w).is_empty());
    assert!(e.update_state(frame(&[(1, 500, 450)]), &cfg, &w).is_empty());
    assert_eq!(last_move(&e), (1, Direction::Up, 450_000));
    e.update_state(State::new(), &cfg, &w)
}

#[test]
fn tie_break_by_distance() {
    assert_eq!(tie_break(false, &[("g1", 200_000), ("g2", 400_000)]), vec!["g2".to_string()]);
    assert_eq!(tie_break(false, &[("g2", 400_000), ("g1", 200_000)]), vec!["g2".to_string()]);
    assert_eq!(tie_break(true, &[("g1", 200_000), ("g2", 400_000)]), vec!["g1".to_string(), "g2".to_string()]);
}

#[test]
fn tie_break_equal_distances_keeps_first() {
    assert_eq!(tie_break(false, &[("a", 300_000), ("b", 300_000)]), vec!["a".to_string()]);
}

#[test]
fn direction_change_reseats_start() {
    let cfg = catalog(
        vec![gesture("up_right", vec![mv(1, Direction::Up, None), mv(1, Direction::Right, None)], None, RepeatMode::empty())],
        Options::defaults(),
    );
    let mut e = engine(&cfg.options);
    let w = window();
    assert!(e.update_state(frame(&[(1, 500, 500)]), &cfg, &w).is_empty());
    assert!(e.update_state(frame(&[(1, 500, 300)]), &cfg, &w).is_empty());
    assert!(e.update_state(frame(&[(1, 700, 300)]), &cfg, &w).is_empty());
    let steps = e.performed_sequence();
    assert_eq!(steps.len(), 2);
    assert_eq!(steps[0].direction(), Some(Direction::Up));
    assert_eq!(steps[0].distance(), Some(200_000));
    assert_eq!(steps[1].direction(), Some(Direction::Right));
    assert_eq!(steps[1].distance(), Some(200_000));
    assert_eq!(e.update_state(State::new(), &cfg, &w), vec!["up_right".to_string()]);
}

#[test]
fn empty_frame_resets_engine() {
    let cfg = catalog(vec![], Options::defaults());
    let mut e = engine(&cfg.options);
    let w = window();
    e.update_state(frame(&[(1, 30, 500)]), &cfg, &w);
    e.update_state(frame(&[(1, 30, 499)]), &cfg, &w);
    e.update_state(frame(&[(1, 30, 200)]), &cfg, &w);
    assert!(e.gesture_in_progress());
    assert_eq!(e.performed_sequence().len(), 1);
    assert!(e.update_state(State::new(), &cfg, &w).is_empty());
    assert!(e.performed_sequence().is_empty());
    assert_eq!(e.starting_edge(), None);
    assert!(!e.gesture_in_progress());
    assert_eq!(e.previous_direction(), None);
    assert_eq!(e.repeat_mode(), RepeatMode::empty());
    assert!(e.touch_down_state().is_empty());
    assert!(e.sequence_step_start_state().is_empty());
    assert!(e.previous_state().is_empty());
    assert_eq!(e.state_direction(1), None);
}

#[test]
fn same_frame_twice_adds_nothing() {
    let cfg = catalog(
        vec![gesture("any", vec![mv(1, Direction::Up, None)], None, RepeatMode::slide_only())],
        Options::defaults(),
    );
    let mut e = engine(&cfg.options);
    let w = window();
    e.update_state(frame(&[(1, 500, 500)]), &cfg, &w);
    e.update_state(frame(&[(1, 500, 499)]), &cfg, &w);
    assert_eq!(e.update_state(frame(&[(1, 500, 300)]), &cfg, &w), vec!["any".to_string()]);
    let n = e.performed_sequence().len();
    assert!(e.update_state(frame(&[(1, 500, 300)]), &cfg, &w).is_empty());
    assert_eq!(e.performed_sequence().len(), n);
}

#[test]
fn lifted_finger_leaves_every_table() {
    let cfg = catalog(vec![], Options::defaults());
    let mut e = engine(&cfg.options);
    let w = window();
    e.update_state(frame(&[(1, 500, 500), (2, 600, 500)]), &cfg, &w);
    e.update_state(frame(&[(1, 500, 499), (2, 600, 499)]), &cfg, &w);
    e.update_state(frame(&[(1, 500, 300), (2, 600, 300)]), &cfg, &w);
    assert_eq!(e.state_direction(2), Some(Direction::Up));
    e.update_state(frame(&[(1, 500, 300)]), &cfg, &w);
    assert!(!e.touch_down_state().contains(2));
    assert!(!e.sequence_step_start_state().contains(2));
    assert_eq!(e.state_direction(2), None);
    let last = e.performed_sequence().last().unwrap();
    assert!(last.is_touch_up());
    assert!(last.slots().contains(2));
}

#[test]
fn edge_reaim_can_repeat_a_direction() {
    let cfg = catalog(vec![], Options::defaults());
    let mut e = engine(&cfg.options);
    let w = window();
    e.update_state(frame(&[(1, 500, 500)]), &cfg, &w);
    e.update_state(frame(&[(1, 500, 499)]), &cfg, &w);
    e.update_state(frame(&[(1, 500, 300)]), &cfg, &w);
    e.update_state(frame(&[(1, 499, 300)]), &cfg, &w);
    e.update_state(frame(&[(1, 40, 300)]), &cfg, &w);
    let dirs: Vec<_> = e.performed_sequence().iter().map(|s| s.direction()).collect();
    assert_eq!(dirs, vec![Some(Direction::Up), Some(Direction::Left)]);
    e.update_state(frame(&[(1, 40, 299)]), &cfg, &w);
    let dirs: Vec<_> = e.performed_sequence().iter().map(|s| s.direction()).collect();
    assert_eq!(dirs, vec![Some(Direction::Up), Some(Direction::Up)]);
}

#[test]
fn extended_move_keeps_its_largest_distance() {
    let cfg = catalog(vec![], Options::defaults());
    let mut e = engine(&cfg.options);
    let w = window();
    e.update_state(frame(&[(1, 400, 500), (2, 600, 500)]), &cfg, &w);
    e.update_state(frame(&[(1, 400, 490), (2, 600, 500)]), &cfg, &w);
    e.update_state(frame(&[(1, 400, 0), (2, 600, 500)]), &cfg, &w);
    let (_, _, first) = last_move(&e);
    assert_eq!(first, 500_000);
    e.update_state(frame(&[(1, 400, 45), (2, 600, 55)]), &cfg, &w);
    assert_eq!(last_move(&e), (2, Direction::Up, 500_000));
}
