use crosscut::builds::{BuildAction, BuildGameOnceError, BuildLoop, Timestamp};

fn error(not_found: bool, source: &str) -> BuildGameOnceError {
    BuildGameOnceError {
        source: source.to_string(),
        not_found,
        path: "snake/snake.capi".to_string(),
    }
}

#[test]
fn timestamp_follows_the_clock() {
    let mut timestamp = Timestamp(10);
    timestamp.update(25);
    assert_eq!(timestamp, Timestamp(25));
}

#[test]
fn timestamp_increases_when_the_clock_does_not() {
    let mut timestamp = Timestamp(10);
    timestamp.update(10);
    assert_eq!(timestamp, Timestamp(11));
    timestamp.update(3);
    assert_eq!(timestamp, Timestamp(12));
}

#[test]
fn successful_builds_are_published_with_increasing_timestamps() {
    let mut builds = BuildLoop::new();
    assert_eq!(builds.timestamp(), 0);

    let first = builds.on_build(Ok(()), 100);
    assert!(matches!(first, BuildAction::Publish { timestamp: 100 }));

    let second = builds.on_build(Ok(()), 100);
    assert!(matches!(second, BuildAction::Publish { timestamp: 101 }));
    assert_eq!(builds.timestamp(), 101);
}

#[test]
fn missing_code_is_ignored_once() {
    let mut builds = BuildLoop::new();

    let action = builds.on_build(Err(error(true, "not found")), 5);
    assert!(matches!(action, BuildAction::Retry));

    let action = builds.on_build(Ok(()), 7);
    assert!(matches!(action, BuildAction::Publish { timestamp: 7 }));

    let action = builds.on_build(Err(error(true, "not found again")), 8);
    assert!(matches!(action, BuildAction::Retry));
}

#[test]
fn missing_code_twice_in_a_row_stops_building() {
    let mut builds = BuildLoop::new();

    let _ = builds.on_build(Err(error(true, "first")), 5);
    let action = builds.on_build(Err(error(true, "second")), 6);

    match action {
        BuildAction::Abort {
            error,
            previously_ignored: Some(previous),
        } => {
            assert_eq!(error.source, "second");
            assert_eq!(previous.source, "first");
        }
        other => panic!("unexpected action: {other:?}"),
    }
}

#[test]
fn other_read_errors_stop_building() {
    let mut builds = BuildLoop::new();

    let action = builds.on_build(Err(error(false, "permission denied")), 5);
    match action {
        BuildAction::Abort {
            error,
            previously_ignored: None,
        } => {
            assert_eq!(error.source, "permission denied");
            assert_eq!(error.path, "snake/snake.capi");
        }
        other => panic!("unexpected action: {other:?}"),
    }
}
