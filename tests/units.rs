use gest::config::{ApplicationGestures, Config, Gesture, Options, RepeatMode, WindowPattern};
use gest::frame::{SlotSet, State};
use gest::geometry::{
    calculate_move_threshold_units, edge_at, outside_of_ellipse, side_in_ellipse, Direction, Edge, Fraction,
    MoveThresholdUnits, Position,
};
use gest::loader::{
    are_gestures_conflicting, conflicting_pairs, parse_app_key, parse_repeat_mode,
    repeat_mode_from_words, short_move_steps, step_from_fields, AppKey, Args, ConfigError, ConfigRaw, GestureRaw,
    LogLevel, RawDistance, StepError,
};
use gest::matcher::{find_commands, gesture_weight, select_commands, Window};
use gest::sequence_step::{DefinedSequenceStep, DefinedSequenceStepRaw, Distance, PerformedSequenceStep};

fn size() -> MoveThresholdUnits {
    MoveThresholdUnits { x: 1000, y: 1000 }
}

fn mv(fingers: u8, direction: Direction, distance: Option<u32>) -> DefinedSequenceStep {
    DefinedSequenceStep::Move { fingers, direction, distance: distance.map(|ppm| Fraction { ppm }) }
}

fn gesture(name: &str, sequence: Vec<DefinedSequenceStep>) -> Gesture {
    Gesture { name: name.to_string(), sequence, edge: None, repeat_mode: RepeatMode::empty(), command: name.to_string() }
}

fn move_step(slots: &[u8], direction: Direction, distance: u64) -> PerformedSequenceStep {
    let mut set = SlotSet::new();
    for &s in slots {
        set.insert(s);
    }
    PerformedSequenceStep::Move { slots: set, direction, distance }
}

#[test]
fn position_distance_is_componentwise() {
    let a = Position { x: 10, y: 300 };
    let b = Position { x: 40, y: 100 };
    let d = a.distance(&b);
    assert_eq!((d.x, d.y), (30, 200));
    let d = b.distance(&a);
    assert_eq!((d.x, d.y), (30, 200));
}

#[test]
fn centroid_truncates_and_is_none_when_empty() {
    let mut s = State::new();
    assert!(s.centroid().is_none());
    s.insert(3, Position { x: 1, y: 2 });
    s.insert(200, Position { x: 2, y: 5 });
    let c = s.centroid().unwrap();
    assert_eq!((c.x, c.y), (1, 3));
    assert_eq!(s.len(), 2);
    s.remove(3);
    assert_eq!(s.len(), 1);
    let c = s.centroid().unwrap();
    assert_eq!((c.x, c.y), (2, 5));
}

#[test]
fn centroid_of_largest_coordinates() {
    let mut s = State::new();
    for slot in 0..=255u8 {
        s.insert(slot, Position { x: u16::MAX, y: u16::MAX });
    }
    let c = s.centroid().unwrap();
    assert_eq!((c.x, c.y), (u16::MAX, u16::MAX));
    assert_eq!(s.len(), 256);
}

#[test]
fn move_threshold_units_scale_the_size() {
    let u = calculate_move_threshold_units(&MoveThresholdUnits { x: 1000, y: 600 }, Fraction { ppm: 150_000 });
    assert_eq!((u.x, u.y), (150, 90));
    let u = calculate_move_threshold_units(&MoveThresholdUnits { x: 1001, y: 7 }, Fraction { ppm: 150_000 });
    assert_eq!((u.x, u.y), (150, 1));
}

#[test]
fn edge_threshold_is_on_edge() {
    let t = Fraction { ppm: 50_000 };
    assert_eq!(edge_at(&Position { x: 50, y: 500 }, &size(), t), Some(Edge::Left));
    assert_eq!(edge_at(&Position { x: 51, y: 500 }, &size(), t), None);
    assert_eq!(edge_at(&Position { x: 950, y: 500 }, &size(), t), Some(Edge::Right));
    assert_eq!(edge_at(&Position { x: 949, y: 500 }, &size(), t), None);
    assert_eq!(edge_at(&Position { x: 500, y: 50 }, &size(), t), Some(Edge::Top));
    assert_eq!(edge_at(&Position { x: 500, y: 950 }, &size(), t), Some(Edge::Bottom));
    assert_eq!(edge_at(&Position { x: 10, y: 10 }, &size(), t), Some(Edge::Left));
}

#[test]
fn ellipse_boundary_is_not_outside() {
    let units = MoveThresholdUnits { x: 150, y: 150 };
    let c = Position { x: 500, y: 500 };
    let half = Fraction { ppm: 500_000 };
    assert!(!outside_of_ellipse(&Position { x: 650, y: 500 }, &c, &units, false, half));
    assert!(outside_of_ellipse(&Position { x: 651, y: 500 }, &c, &units, false, half));
    assert!(!outside_of_ellipse(&Position { x: 500, y: 350 }, &c, &units, false, half));
    assert!(!outside_of_ellipse(&Position { x: 575, y: 500 }, &c, &units, true, half));
    assert!(outside_of_ellipse(&Position { x: 576, y: 500 }, &c, &units, true, half));
    assert!(!outside_of_ellipse(&c, &c, &MoveThresholdUnits { x: 0, y: 0 }, false, half));
}

#[test]
fn side_prefers_vertical_on_ties() {
    let units = MoveThresholdUnits { x: 150, y: 100 };
    let c = Position { x: 500, y: 500 };
    assert_eq!(side_in_ellipse(&Position { x: 650, y: 600 }, &c, &units), Direction::Down);
    assert_eq!(side_in_ellipse(&Position { x: 651, y: 400 }, &c, &units), Direction::Right);
    assert_eq!(side_in_ellipse(&Position { x: 349, y: 500 }, &c, &units), Direction::Left);
    assert_eq!(side_in_ellipse(&Position { x: 500, y: 499 }, &c, &units), Direction::Up);
    assert_eq!(side_in_ellipse(&c, &c, &units), Direction::Down);
}

#[test]
fn zero_minimum_is_no_minimum() {
    for distance in [0u64, 1, 450_000] {
        let p = move_step(&[1], Direction::Up, distance);
        assert_eq!(mv(1, Direction::Up, Some(0)).matches(&p), mv(1, Direction::Up, None).matches(&p));
        assert!(mv(1, Direction::Up, Some(0)).matches(&p));
    }
    let p = move_step(&[1, 2], Direction::Up, 100);
    assert!(!mv(1, Direction::Up, None).matches(&p));
    assert!(!mv(2, Direction::Down, None).matches(&p));
    assert!(!mv(2, Direction::Up, Some(101)).matches(&p));
    assert!(mv(2, Direction::Up, Some(100)).matches(&p));
}

#[test]
fn step_resolves_named_distance() {
    let distances = vec![("far".to_string(), Fraction { ppm: 400_000 })];
    let raw = DefinedSequenceStepRaw::Move {
        fingers: 2,
        direction: Direction::Left,
        distance: Some(Distance::Variable("far".to_string())),
    };
    assert_eq!(DefinedSequenceStep::from_raw(raw, &distances), Ok(mv(2, Direction::Left, Some(400_000))));
    let raw = DefinedSequenceStepRaw::Move {
        fingers: 2,
        direction: Direction::Left,
        distance: Some(Distance::Variable("near".to_string())),
    };
    assert_eq!(DefinedSequenceStep::from_raw(raw, &distances), Err("near".to_string()));
    let raw = DefinedSequenceStepRaw::TouchUp { fingers: 3 };
    assert_eq!(DefinedSequenceStep::from_raw(raw, &distances), Ok(DefinedSequenceStep::TouchUp { fingers: 3 }));
}

#[test]
fn gesture_weight_is_largest_minimum() {
    let g = gesture("g", vec![mv(1, Direction::Up, Some(200_000)), DefinedSequenceStep::TouchUp { fingers: 1 }, mv(1, Direction::Left, Some(300_000))]);
    assert_eq!(gesture_weight(&g), 300_000);
    assert_eq!(gesture_weight(&gesture("h", vec![mv(1, Direction::Up, None)])), 0);
}

fn app_catalog() -> Config {
    let bound = |name: &str| vec![gesture(name, vec![mv(1, Direction::Up, None)])];
    Config {
        options: Options::defaults(),
        gestures: bound("global"),
        application_gestures: ApplicationGestures {
            by_class: vec![(WindowPattern::new("^fire".to_string()).unwrap(), bound("class"))],
            by_title: vec![(WindowPattern::new("mail$".to_string()).unwrap(), bound("title"))],
        },
    }
}

#[test]
fn candidates_follow_hits_in_catalog_order() {
    let mut cfg = app_catalog();
    cfg.options.run_all_matches = true;
    let performed = vec![move_step(&[4], Direction::Up, 10)];
    let all = select_commands(&cfg, &vec![true], &vec![true], &performed, 1, None, RepeatMode::empty());
    assert_eq!(all, vec!["global".to_string(), "class".to_string(), "title".to_string()]);
    let some = select_commands(&cfg, &vec![false], &vec![true], &performed, 1, None, RepeatMode::empty());
    assert_eq!(some, vec!["global".to_string(), "title".to_string()]);
    let none = select_commands(&cfg, &vec![false], &vec![false], &performed, 0, None, RepeatMode::empty());
    assert!(none.is_empty());
    let slide = select_commands(&cfg, &vec![true], &vec![true], &performed, 1, None, RepeatMode::slide_only());
    assert!(slide.is_empty());
}

#[test]
fn window_patterns_select_gestures() {
    let mut cfg = app_catalog();
    cfg.options.run_all_matches = true;
    let performed = vec![move_step(&[4], Direction::Up, 10)];
    let w = Window { class: "firefox".to_string(), title: "inbox - mail".to_string() };
    assert_eq!(
        find_commands(&cfg, &w, &performed, 1, None, RepeatMode::empty()),
        vec!["global".to_string(), "class".to_string(), "title".to_string()]
    );
    let w = Window { class: "xfirefox".to_string(), title: "mail client".to_string() };
    assert_eq!(find_commands(&cfg, &w, &performed, 1, None, RepeatMode::empty()), vec!["global".to_string()]);
    assert!(WindowPattern::new("(".to_string()).is_err());
    assert_eq!(WindowPattern::new("a+".to_string()).unwrap().as_str(), "a+");
    assert!(WindowPattern::new("^a+$".to_string()).unwrap().is_match("aaa"));
    assert!(!WindowPattern::new("^a+$".to_string()).unwrap().is_match("aab"));
}

#[test]
fn app_keys_parse() {
    let key = |c: Option<&str>, t: Option<&str>| Some(AppKey { class: c.map(String::from), title: t.map(String::from) });
    assert_eq!(parse_app_key("firefox"), key(Some("firefox"), None));
    assert_eq!(parse_app_key("class:^code$"), key(Some("^code$"), None));
    assert_eq!(parse_app_key("title:mail"), key(None, Some("mail")));
    assert_eq!(parse_app_key("class:a,title:b"), key(Some("a"), Some("b")));
    assert_eq!(parse_app_key("title:b,class:a"), key(Some("a"), Some("b")));
    assert_eq!(parse_app_key("class:a,class:b"), key(Some("b"), None));
    assert_eq!(parse_app_key("a,title:b"), None);
    assert_eq!(parse_app_key("class:a,title:b,c"), key(Some("a"), Some("b,c")));
}

#[test]
fn conflicts_are_found_in_order() {
    let a = gesture("a", vec![mv(3, Direction::Up, None)]);
    let b = gesture("b", vec![mv(3, Direction::Up, None)]);
    let c = gesture("c", vec![mv(3, Direction::Up, Some(200_000))]);
    let mut d = gesture("d", vec![mv(3, Direction::Up, None)]);
    d.edge = Some(Edge::Top);
    assert!(are_gestures_conflicting(&a, &b));
    assert!(!are_gestures_conflicting(&a, &c));
    assert!(!are_gestures_conflicting(&a, &d));
    let all = vec![a.clone(), c.clone(), b.clone(), a.clone()];
    assert_eq!(conflicting_pairs(&all, 2), vec![(0, 2), (0, 3)]);
    assert_eq!(conflicting_pairs(&all, 4), vec![(0, 2), (0, 3), (2, 3)]);
    assert!(conflicting_pairs(&all, 0).is_empty());
}

#[test]
fn short_moves_are_reported() {
    let all = vec![
        gesture("a", vec![mv(1, Direction::Up, Some(100_000)), mv(1, Direction::Left, Some(150_000))]),
        gesture("b", vec![DefinedSequenceStep::TouchDown { fingers: 2 }, mv(1, Direction::Up, Some(149_999))]),
    ];
    assert_eq!(short_move_steps(&all, Fraction { ppm: 150_000 }), vec![(0, 0), (1, 1)]);
}

#[test]
fn repeat_modes_parse() {
    assert_eq!(parse_repeat_mode("tap"), Ok(RepeatMode::tap_only()));
    assert_eq!(parse_repeat_mode("  SLIDE   Tap "), Ok(RepeatMode { tap: true, slide: true }));
    assert_eq!(parse_repeat_mode(""), Ok(RepeatMode::empty()));
    assert_eq!(parse_repeat_mode("tap\u{a0}slide\t"), Ok(RepeatMode { tap: true, slide: true }));
    assert_eq!(parse_repeat_mode("tap\u{200b}slide"), Err("tap\u{200b}slide".to_string()));
    assert_eq!(parse_repeat_mode("tap Swipe slide"), Err("Swipe".to_string()));
    assert_eq!(repeat_mode_from_words(&vec!["slide".to_string(), "tap".to_string()]), Ok(RepeatMode { tap: true, slide: true }));
    assert_eq!(repeat_mode_from_words(&vec!["slide".to_string(), "TAP".to_string()]), Err(1));
    let mut m = RepeatMode::empty();
    m.insert(RepeatMode::slide_only());
    assert!(m.contains(RepeatMode::slide_only()) && !m.contains(RepeatMode::tap_only()));
}

#[test]
fn steps_read_from_fields() {
    assert_eq!(step_from_fields(None, Some("touch up"), None), Err(StepError::MissingFingers));
    assert_eq!(step_from_fields(Some(2), None, None), Err(StepError::MissingAction));
    assert_eq!(step_from_fields(Some(2), Some("move up"), Some(RawDistance::Ppm(1_000_001))), Err(StepError::DistanceOutOfRange(1_000_001)));
    assert_eq!(step_from_fields(Some(2), Some("move up"), Some(RawDistance::Ppm(-1))), Err(StepError::DistanceOutOfRange(-1)));
    assert_eq!(step_from_fields(Some(2), Some("wiggle"), None), Err(StepError::UnknownAction("wiggle".to_string())));
    assert_eq!(step_from_fields(Some(2), Some("touch_down"), None), Ok(DefinedSequenceStepRaw::TouchDown { fingers: 2 }));
    assert_eq!(step_from_fields(Some(258), Some("touch up"), None), Err(StepError::InvalidFingers(258)));
    assert_eq!(step_from_fields(Some(0), Some("touch up"), None), Err(StepError::InvalidFingers(0)));
    assert_eq!(step_from_fields(Some(255), Some("touch up"), None), Ok(DefinedSequenceStepRaw::TouchUp { fingers: 255 }));
    assert_eq!(
        step_from_fields(Some(3), Some("move_left"), Some(RawDistance::Ppm(1_000_000))),
        Ok(DefinedSequenceStepRaw::Move { fingers: 3, direction: Direction::Left, distance: Some(Distance::Fixed(Fraction { ppm: 1_000_000 })) })
    );
    assert_eq!(
        step_from_fields(Some(4), Some("move right"), Some(RawDistance::Name("far".to_string()))),
        Ok(DefinedSequenceStepRaw::Move { fingers: 4, direction: Direction::Right, distance: Some(Distance::Variable("far".to_string())) })
    );
}

#[test]
fn log_levels_follow_verbosity() {
    let args = |verbose| Args { verbose, config_file: None, log_file: None };
    assert_eq!(args(0).log_level(), LogLevel::Error);
    assert_eq!(args(1).log_level(), LogLevel::Info);
    assert_eq!(args(2).log_level(), LogLevel::Debug);
    assert_eq!(args(255).log_level(), LogLevel::Debug);
}

#[test]
fn config_path_prefers_xdg() {
    assert_eq!(Config::get_config_path(Some("/x".to_string()), Some("/h".to_string())), Some("/x/gest/config.yaml".to_string()));
    assert_eq!(Config::get_config_path(None, Some("/h".to_string())), Some("/h/.config/gest/config.yaml".to_string()));
    assert_eq!(Config::get_config_path(None, None), None);
}

fn raw_gesture(name: &str, distance: Option<Distance>) -> GestureRaw {
    GestureRaw {
        name: name.to_string(),
        sequence: vec![DefinedSequenceStepRaw::Move { fingers: 1, direction: Direction::Up, distance }],
        edge: None,
        repeat_mode: RepeatMode::empty(),
        command: name.to_string(),
    }
}

#[test]
fn catalog_keeps_configuration_order() {
    let mut options = Options::defaults();
    options.distance.push(("far".to_string(), Fraction { ppm: 600_000 }));
    let imported = Config {
        options: Options::defaults(),
        gestures: vec![gesture("imported", vec![mv(1, Direction::Down, None)])],
        application_gestures: ApplicationGestures {
            by_class: vec![(WindowPattern::new("imp".to_string()).unwrap(), vec![])],
            by_title: vec![],
        },
    };
    let raw = ConfigRaw {
        import: vec!["other.yaml".to_string()],
        options: None,
        gestures: Some(vec![
            raw_gesture("own", Some(Distance::Variable("far".to_string()))),
            raw_gesture("lost", Some(Distance::Variable("missing".to_string()))),
        ]),
        application_gestures: Some(vec![
            ("class:a,title:b".to_string(), vec![raw_gesture("both", None)]),
            ("c".to_string(), vec![raw_gesture("bare", None)]),
        ]),
    };
    let (cfg, unknown) = Config::from_raw(raw, vec![imported], &options).unwrap();
    assert_eq!(unknown, vec!["missing".to_string()]);
    let names: Vec<&str> = cfg.gestures.iter().map(|g| g.name.as_str()).collect();
    assert_eq!(names, vec!["own", "imported"]);
    assert_eq!(cfg.gestures[0].sequence[0], mv(1, Direction::Up, Some(600_000)));
    let classes: Vec<&str> = cfg.application_gestures.by_class.iter().map(|(p, _)| p.as_str()).collect();
    assert_eq!(classes, vec!["imp", "a", "c"]);
    let titles: Vec<&str> = cfg.application_gestures.by_title.iter().map(|(p, _)| p.as_str()).collect();
    assert_eq!(titles, vec!["b"]);
    assert_eq!(cfg.options.distance.len(), 1);
}

#[test]
fn catalog_rejects_bad_keys_and_patterns() {
    let raw = |key: &str| ConfigRaw {
        import: vec![],
        options: None,
        gestures: None,
        application_gestures: Some(vec![(key.to_string(), vec![])]),
    };
    let options = Options::defaults();
    assert_eq!(Config::from_raw(raw("x,title:y"), vec![], &options).err(), Some(ConfigError::InvalidKey("x,title:y".to_string())));
    assert_eq!(Config::from_raw(raw("title:("), vec![], &options).err(), Some(ConfigError::InvalidPattern("(".to_string())));
}

#[test]
fn catalog_binds_each_key_to_its_gestures() {
    let options = Options::defaults();
    let raw = ConfigRaw {
        import: vec![],
        options: None,
        gestures: None,
        application_gestures: Some(vec![
            ("title:b,class:a".to_string(), vec![raw_gesture("both", None)]),
            ("title:t".to_string(), vec![raw_gesture("titled", None), raw_gesture("lost", Some(Distance::Variable("x".to_string())))]),
        ]),
    };
    let (cfg, unknown) = Config::from_raw(raw, vec![], &options).unwrap();
    assert_eq!(unknown, vec!["x".to_string()]);
    let class: Vec<(&str, Vec<&str>)> = cfg
        .application_gestures
        .by_class
        .iter()
        .map(|(p, gs)| (p.as_str(), gs.iter().map(|g| g.name.as_str()).collect()))
        .collect();
    assert_eq!(class, vec![("a", vec!["both"])]);
    let title: Vec<(&str, Vec<&str>)> = cfg
        .application_gestures
        .by_title
        .iter()
        .map(|(p, gs)| (p.as_str(), gs.iter().map(|g| g.name.as_str()).collect()))
        .collect();
    assert_eq!(title, vec![("b", vec!["both"]), ("t", vec!["titled"])]);
}

#[test]
fn catalog_checks_every_pattern_of_a_key() {
    let raw = |key: &str| ConfigRaw {
        import: vec![],
        options: None,
        gestures: None,
        application_gestures: Some(vec![(key.to_string(), vec![])]),
    };
    let options = Options::defaults();
    assert_eq!(Config::from_raw(raw("class:(,class:a"), vec![], &options).err(), Some(ConfigError::InvalidPattern("(".to_string())));
    assert!(Config::from_raw(raw("class:x,class:a"), vec![], &options).is_ok());
    assert_eq!(Config::from_raw(raw("[z"), vec![], &options).err(), Some(ConfigError::InvalidPattern("[z".to_string())));
}
