use image_notify_bot::evaluater::{
    errorno_to_error, is_ready_line, parse_score_line, parse_tag_definition,
    tag_listing_length, EvaluaterError, EvaluationAction, EvaluationPhase, EvaluationSession,
    TagClass, TagTable,
};

fn failed_evaluating(e: EvaluaterError) -> String {
    match e {
        EvaluaterError::FailedEvaluating(m) => m,
        other => panic!("unexpected error {:?}", other),
    }
}

#[test]
fn tag_classes_by_number() {
    assert_eq!(TagClass::from_num(0), TagClass::General);
    assert_eq!(TagClass::from_num(1), TagClass::Artist);
    assert_eq!(TagClass::from_num(2), TagClass::Unknown);
    assert_eq!(TagClass::from_num(3), TagClass::Copyright);
    assert_eq!(TagClass::from_num(4), TagClass::Character);
    assert_eq!(TagClass::from_num(5), TagClass::Meta);
    assert_eq!(TagClass::from_num(6), TagClass::Unknown);
    assert_eq!(TagClass::from_num(u32::MAX), TagClass::Unknown);
}

#[test]
fn failure_codes_map_to_errors() {
    assert!(matches!(errorno_to_error(-1), EvaluaterError::FailedRequesting));
    assert!(matches!(errorno_to_error(-2), EvaluaterError::FailedRetreiving));
    assert!(matches!(errorno_to_error(-3), EvaluaterError::FailedOpening));
    assert_eq!(failed_evaluating(errorno_to_error(-4)), "Unknown Error -4");
    assert_eq!(failed_evaluating(errorno_to_error(-5)), "Unknown Error -5");
    assert_eq!(failed_evaluating(errorno_to_error(i32::MIN)), "Unknown Error -2147483648");
    assert_eq!(failed_evaluating(errorno_to_error(17)), "Unknown Error 17");
}

#[test]
fn ready_line() {
    assert!(is_ready_line("---ready---\n"));
    assert!(!is_ready_line("---ready---"));
    assert!(!is_ready_line("loading model\n"));
    assert!(!is_ready_line(" ---ready---\n"));
}

#[test]
fn tag_listing_lengths() {
    assert_eq!(tag_listing_length("3\n").unwrap(), 3);
    assert_eq!(tag_listing_length("  +12 \r\n").unwrap(), 12);
    assert_eq!(tag_listing_length("-4\n").unwrap(), 0);
    assert!(matches!(tag_listing_length("three\n"), Err(EvaluaterError::FailedCreatingEvaluater)));
    assert!(matches!(tag_listing_length("\n"), Err(EvaluaterError::FailedCreatingEvaluater)));
}

#[test]
fn tag_definitions() {
    let (num, name, class) = parse_tag_definition("12 hatsune_miku 4\n").unwrap();
    assert_eq!((num, name.as_str(), class), (12, "hatsune_miku", TagClass::Character));
    let (num, name, class) = parse_tag_definition("  0 1girl 0  ").unwrap();
    assert_eq!((num, name.as_str(), class), (0, "1girl", TagClass::General));
    let (_, _, class) = parse_tag_definition("7 rating 9\n").unwrap();
    assert_eq!(class, TagClass::Unknown);
    for bad in ["12 two words 4\n", "12 name\n", "x name 4\n", "12 name y\n", "12  name 4\n", ""] {
        assert!(
            matches!(parse_tag_definition(bad), Err(EvaluaterError::FailedCreatingEvaluater)),
            "input {:?}",
            bad
        );
    }
}

#[test]
fn score_lines() {
    let (num, confidence) = parse_score_line("42 0.875\n").unwrap();
    assert_eq!((num, confidence.as_str()), (42, "0.875"));
    assert_eq!(
        failed_evaluating(parse_score_line("42 0.8 extra\n").unwrap_err()),
        "Error parsing requested data from child: Incorrect format, too many value"
    );
    assert_eq!(
        failed_evaluating(parse_score_line("42\n").unwrap_err()),
        "Error parsing requested data from child: Incorrect format, too many value"
    );
    assert_eq!(
        failed_evaluating(parse_score_line("-4 0.5\n").unwrap_err()),
        "Error parsing requested data from child: invalid digit found in string"
    );
    assert_eq!(
        failed_evaluating(parse_score_line("99999999999 0.5\n").unwrap_err()),
        "Error parsing requested data from child: number too large to fit in target type"
    );
}

#[test]
fn tag_table_resolution() {
    let mut table = TagTable::new();
    let (n, name, class) = parse_tag_definition("3 cat_ears 0\n").unwrap();
    table.insert(n, name, class);
    table.insert(5, "artist_x".to_string(), TagClass::Artist);
    let (name, class) = table.resolve(3);
    assert_eq!((name.as_str(), class), ("cat_ears", TagClass::General));
    let (name, class) = table.resolve(5);
    assert_eq!((name.as_str(), class), ("artist_x", TagClass::Artist));
    let (name, class) = table.resolve(8);
    assert_eq!((name.as_str(), class), ("(Unknown Tag 8", TagClass::Unknown));
    table.insert(5, "artist_y".to_string(), TagClass::Meta);
    let (name, class) = table.resolve(5);
    assert_eq!((name.as_str(), class), ("artist_y", TagClass::Meta));
}

#[test]
fn evaluation_answer_session() {
    let mut s = EvaluationSession::new();
    assert!(matches!(s.on_line("2\n"), EvaluationAction::ReadLine));
    assert_eq!(s.phase, EvaluationPhase::ReadingScores { left: 2 });
    assert!(matches!(s.on_line("4 0.75\n"), EvaluationAction::ReadLine));
    assert!(matches!(s.on_line("9 0.125\n"), EvaluationAction::Done));
    assert_eq!(s.phase, EvaluationPhase::Finished);
    assert_eq!(s.scores, vec![(4, "0.75".to_string()), (9, "0.125".to_string())]);
}

#[test]
fn evaluation_answer_count_cases() {
    let mut s = EvaluationSession::new();
    assert!(matches!(s.on_line("0\n"), EvaluationAction::Done));
    assert!(s.scores.is_empty());
    for code in [-1, -2, -3, -5, -9] {
        let mut s = EvaluationSession::new();
        match s.on_line(&format!("{}\n", code)) {
            EvaluationAction::Refused(c) => assert_eq!(c, code),
            other => panic!("unexpected {:?}", other),
        }
        assert_eq!(s.phase, EvaluationPhase::Finished);
    }
    let mut s = EvaluationSession::new();
    let std_msg = "x".parse::<i32>().unwrap_err().to_string();
    match s.on_line("x\n") {
        EvaluationAction::Fail(e) => assert_eq!(
            failed_evaluating(e),
            format!("Error parsing requested data from child: {}", std_msg)
        ),
        other => panic!("unexpected {:?}", other),
    }
    let mut s = EvaluationSession::new();
    match s.on_line("\n") {
        EvaluationAction::Fail(e) => assert_eq!(
            failed_evaluating(e),
            "Error parsing requested data from child: cannot parse integer from empty string"
        ),
        other => panic!("unexpected {:?}", other),
    }
}

#[test]
fn evaluation_answer_stops_at_bad_line() {
    let mut s = EvaluationSession::new();
    s.on_line("3\n");
    assert!(matches!(s.on_line("1 0.5\n"), EvaluationAction::ReadLine));
    match s.on_line("2 0.5 extra\n") {
        EvaluationAction::Fail(e) => assert_eq!(
            failed_evaluating(e),
            "Error parsing requested data from child: Incorrect format, too many value"
        ),
        other => panic!("unexpected {:?}", other),
    }
    assert_eq!(s.phase, EvaluationPhase::Finished);
    assert_eq!(s.scores, vec![(1, "0.5".to_string())]);
}
