use captcha_keyspace::orchestrator::{prepare, validate_config, ConfigError};
use captcha_keyspace::output::make_path;

#[test]
fn scenario_two_char_alphabet_length_two() {
    let alphabet = vec!['A', 'B'];
    let mut plan = prepare(&alphabet, 2, 1, 0, 10_000).unwrap();
    assert_eq!(
        plan.candidates,
        vec![
            "AA".to_string(),
            "AB".to_string(),
            "BA".to_string(),
            "BB".to_string()
        ]
    );
    assert_eq!(plan.total, 4);
    let paths: Vec<String> = plan
        .candidates
        .iter()
        .map(|k| make_path("root", k.as_str(), 0, "png"))
        .collect();
    assert_eq!(
        paths,
        vec![
            "root/AA.0.png".to_string(),
            "root/AB.0.png".to_string(),
            "root/BA.0.png".to_string(),
            "root/BB.0.png".to_string()
        ]
    );
    for _ in 0..4 {
        let done = plan.tracker.advance(1);
        assert!(done <= plan.total);
    }
    assert_eq!(plan.tracker.report_line(), "Progress: 100.00% (4/4)");
}

#[test]
fn scenario_single_char_alphabet_two_repetitions() {
    let alphabet = vec!['A'];
    let plan = prepare(&alphabet, 3, 2, 0, 10_000).unwrap();
    assert_eq!(plan.candidates, vec!["AAA".to_string()]);
    assert_eq!(plan.total, 2);
    let paths: Vec<String> = (0..2)
        .map(|i| make_path("root", "AAA", i, "png"))
        .collect();
    assert_eq!(
        paths,
        vec!["root/AAA.0.png".to_string(), "root/AAA.1.png".to_string()]
    );
}

#[test]
fn total_is_kept_count_times_repeat() {
    let alphabet = vec!['A', 'B', 'C'];
    let plan = prepare(&alphabet, 2, 5, 0, 10_000).unwrap();
    assert_eq!(plan.candidates.len(), 9);
    assert_eq!(plan.total, plan.candidates.len() * 5);
    assert_eq!(plan.tracker.total, plan.total);
    assert_eq!(plan.tracker.completed, 0);
}

#[test]
fn validation_rejects_each_bad_configuration() {
    let good = vec!['A', 'B'];
    assert_eq!(validate_config(&good, 2, 1, 0), Ok(()));
    let empty: Vec<char> = Vec::new();
    assert_eq!(
        validate_config(&empty, 2, 1, 0),
        Err(ConfigError::EmptyAlphabet)
    );
    let doubled = vec!['A', 'B', 'A'];
    assert_eq!(
        validate_config(&doubled, 2, 1, 0),
        Err(ConfigError::DuplicateAlphabet)
    );
    assert_eq!(
        validate_config(&good, 0, 1, 0),
        Err(ConfigError::ZeroLength)
    );
    assert_eq!(
        validate_config(&good, 2, 0, 0),
        Err(ConfigError::ZeroRepeat)
    );
    assert_eq!(
        validate_config(&good, 2, 1, 1_000_000),
        Err(ConfigError::DropoutOutOfRange)
    );
}

#[test]
fn prepare_reports_bad_configuration() {
    let empty: Vec<char> = Vec::new();
    match prepare(&empty, 2, 1, 0, 10_000) {
        Err(e) => assert_eq!(e, ConfigError::EmptyAlphabet),
        Ok(_) => panic!("empty alphabet accepted"),
    }
}

#[test]
fn prepare_reports_total_overflow() {
    let alphabet = vec!['A', 'B'];
    match prepare(&alphabet, 1, usize::MAX, 0, 10_000) {
        Err(e) => assert_eq!(e, ConfigError::TotalOverflow),
        Ok(_) => panic!("overflowing total accepted"),
    }
}
