use image_notify_bot::evaluater::{
    EvaluaterError, StartupAction, StartupPhase, StartupSession, TagClass,
};

#[test]
fn startup_full_exchange() {
    let mut s = StartupSession::new();
    assert!(matches!(s.on_line("loading weights...\n"), StartupAction::ReadLine));
    assert_eq!(s.phase, StartupPhase::AwaitingReady);
    assert!(matches!(s.on_line("---ready---\n"), StartupAction::SendTagsRequest));
    assert_eq!(s.phase, StartupPhase::AwaitingCount);
    assert!(matches!(s.on_line("2\n"), StartupAction::ReadLine));
    assert_eq!(s.phase, StartupPhase::ReadingTags { left: 2 });
    assert!(matches!(s.on_line("0 1girl 0\n"), StartupAction::ReadLine));
    assert!(matches!(s.on_line("9 miku 4\n"), StartupAction::Done));
    assert_eq!(s.phase, StartupPhase::Finished);
    let (name, class) = s.tags.resolve(9);
    assert_eq!((name.as_str(), class), ("miku", TagClass::Character));
    let (name, class) = s.tags.resolve(0);
    assert_eq!((name.as_str(), class), ("1girl", TagClass::General));
}

#[test]
fn startup_without_tags() {
    for count in ["0\n", "-3\n"] {
        let mut s = StartupSession::new();
        assert!(matches!(s.on_line("---ready---\n"), StartupAction::SendTagsRequest));
        assert!(matches!(s.on_line(count), StartupAction::Done));
        assert_eq!(s.phase, StartupPhase::Finished);
        assert!(s.tags.tags.is_empty());
    }
}

#[test]
fn startup_failures() {
    let mut s = StartupSession::new();
    s.on_line("---ready---\n");
    assert!(matches!(
        s.on_line("many\n"),
        StartupAction::Fail(EvaluaterError::FailedCreatingEvaluater)
    ));
    assert_eq!(s.phase, StartupPhase::Finished);

    let mut s = StartupSession::new();
    s.on_line("---ready---\n");
    s.on_line("3\n");
    assert!(matches!(s.on_line("1 a 0\n"), StartupAction::ReadLine));
    assert!(matches!(
        s.on_line("2 b\n"),
        StartupAction::Fail(EvaluaterError::FailedCreatingEvaluater)
    ));
    assert_eq!(s.phase, StartupPhase::Finished);
}

#[test]
fn ready_line_must_be_exact() {
    let mut s = StartupSession::new();
    assert!(matches!(s.on_line("---ready---"), StartupAction::ReadLine));
    assert!(matches!(s.on_line("---ready--- \n"), StartupAction::ReadLine));
    assert_eq!(s.phase, StartupPhase::AwaitingReady);
}
