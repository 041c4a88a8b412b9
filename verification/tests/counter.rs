use rew::counter::{Config, GlobalGenerator, LocalGenerator, INIT_ERROR, STEP_ERROR};

#[test]
fn config_from_str_errors() {
    for input in ["", ":", ":34", ":cd", "ab", "ab:", "ab:34", "ab:cd"] {
        assert_eq!(Config::from_str(input), Err(INIT_ERROR), "{}", input);
    }
    for input in ["12:", "12:cd"] {
        assert_eq!(Config::from_str(input), Err(STEP_ERROR), "{}", input);
    }
}

#[test]
fn config_from_str_values() {
    assert_eq!(Config::from_str("12"), Ok(Config { init: 12, step: 1 }));
    assert_eq!(Config::from_str("12:34"), Ok(Config { init: 12, step: 34 }));
    assert_eq!(Config::from_str("+7:+2"), Ok(Config { init: 7, step: 2 }));
    assert_eq!(Config::from_str("4294967296"), Err(INIT_ERROR));
}

#[test]
fn global_generator_sequence() {
    for (init, step, results) in [(0, 1, [0, 1, 2]), (1, 10, [1, 11, 21])] {
        let mut counter = GlobalGenerator::new(init, step);
        for result in results {
            assert_eq!(counter.next(), result);
        }
    }
}

#[test]
fn local_generator_sequence() {
    const A: &str = "a";
    const AX: &str = "a/b/..";
    const B: &str = "a/b";
    const C: &str = "a/b/c";
    const CX: &str = "./a/b/c";
    let cases: [(u32, u32, &[&str], &str, u32); 22] = [
        (0, 1, &[], C, 0),
        (0, 1, &[C], C, 1),
        (0, 1, &[C, C], C, 2),
        (0, 1, &[C, C, C], B, 0),
        (0, 1, &[C, C, C, B], A, 0),
        (0, 1, &[C, C, C, B, A], B, 1),
        (0, 1, &[C, C, C, B, A, B], B, 2),
        (0, 1, &[C, C, C, B, A, B, B], A, 1),
        (0, 1, &[C, C, C, B, A, B, B, A], A, 2),
        (1, 10, &[], C, 1),
        (1, 10, &[C], C, 11),
        (1, 10, &[C, C], C, 21),
        (1, 10, &[C, C, C], B, 1),
        (1, 10, &[C, C, C, B], A, 1),
        (1, 10, &[C, C, C, B, A], B, 11),
        (1, 10, &[C, C, C, B, A, B], B, 21),
        (1, 10, &[C, C, C, B, A, B, B], A, 11),
        (1, 10, &[C, C, C, B, A, B, B, A], A, 21),
        (0, 1, &[], C, 0),
        (0, 1, &[C], CX, 1),
        (0, 1, &[C, CX], A, 0),
        (0, 1, &[C, CX, A], AX, 1),
    ];
    for (init, step, previous, next, result) in cases {
        let mut counter = LocalGenerator::new(init, step);
        for path in previous {
            counter.next(path);
        }
        assert_eq!(counter.next(next), result, "{:?} then {}", previous, next);
    }
}

#[test]
fn local_generator_overflow_check() {
    let mut counter = LocalGenerator::new(u32::MAX - 1, 1);
    assert!(counter.can_advance("a/b"));
    assert_eq!(counter.next("a/b"), u32::MAX - 1);
    assert!(counter.can_advance("a/b"));
    assert_eq!(counter.next("a/b"), u32::MAX);
    assert!(!counter.can_advance("a/b"));
    assert!(counter.can_advance("c/d"));
}

#[test]
fn config_from_str_numeral_limits() {
    assert_eq!(Config::from_str("4294967295:0"), Ok(Config { init: u32::MAX, step: 0 }));
    assert_eq!(Config::from_str("0004294967295"), Ok(Config { init: u32::MAX, step: 1 }));
    assert_eq!(Config::from_str("42949672950"), Err(INIT_ERROR));
    assert_eq!(Config::from_str("1:4294967296"), Err(STEP_ERROR));
    assert_eq!(Config::from_str("+"), Err(INIT_ERROR));
    assert_eq!(Config::from_str("++1"), Err(INIT_ERROR));
    assert_eq!(Config::from_str("-1"), Err(INIT_ERROR));
    assert_eq!(Config::from_str("1:"), Err(STEP_ERROR));
    assert_eq!(Config::from_str("1a"), Err(INIT_ERROR));
}
