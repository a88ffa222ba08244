use timetracking::event::{TrackingData, TrackingEvent};
use timetracking::log_ops::{log_continue, log_start, log_stop, ContinueOutcome};

fn start(desc: Option<&str>, time: i64) -> TrackingEvent {
    TrackingEvent::Start(TrackingData { description: desc.map(|s| s.to_string()), time })
}

fn stop(desc: Option<&str>, time: i64) -> TrackingEvent {
    TrackingEvent::Stop(TrackingData { description: desc.map(|s| s.to_string()), time })
}

#[test]
fn start_twice_appends_exactly_one() {
    let mut log: Vec<TrackingEvent> = Vec::new();
    let added_first = log_start(&mut log, Some("a".to_string()), 100);
    let added_second = log_start(&mut log, Some("b".to_string()), 200);
    assert!(added_first);
    assert!(!added_second);
    assert_eq!(log.len(), 1);
    assert_eq!(log[0], start(Some("a"), 100));
}

#[test]
fn stop_twice_appends_exactly_one() {
    let mut log = vec![start(Some("a"), 100)];
    assert!(log_stop(&mut log, None, 200));
    assert!(!log_stop(&mut log, None, 300));
    assert_eq!(log.len(), 2);
    assert_eq!(log[1], stop(None, 200));
}

#[test]
fn stop_on_empty_log_is_appended() {
    let mut log: Vec<TrackingEvent> = Vec::new();
    assert!(log_stop(&mut log, Some("odd".to_string()), 50));
    assert_eq!(log.len(), 1);
    assert!(log[0].is_stop());
}

#[test]
fn running_flips_only_on_successful_transitions() {
    let mut log: Vec<TrackingEvent> = Vec::new();
    log_start(&mut log, None, 1);
    assert!(log.last().unwrap().is_start());
    log_start(&mut log, None, 2);
    assert!(log.last().unwrap().is_start());
    log_stop(&mut log, None, 3);
    assert!(log.last().unwrap().is_stop());
    log_stop(&mut log, None, 4);
    assert!(log.last().unwrap().is_stop());
    assert_eq!(log.len(), 2);
}

#[test]
fn continue_after_stop_reuses_description() {
    let mut log = vec![start(Some("working on X"), 100), stop(Some("working on X"), 200)];
    let outcome = log_continue(&mut log, 300);
    assert_eq!(outcome, ContinueOutcome::Continued);
    assert_eq!(log.len(), 3);
    assert_eq!(log[2], start(Some("working on X"), 300));
}

#[test]
fn continue_skips_trailing_stops_to_find_description() {
    let mut log = vec![
        start(Some("morning"), 100),
        stop(None, 200),
        stop(Some("again"), 250),
    ];
    let outcome = log_continue(&mut log, 300);
    assert_eq!(outcome, ContinueOutcome::Continued);
    assert_eq!(log[3], start(Some("morning"), 300));
}

#[test]
fn continue_on_empty_log_appends_nothing() {
    let mut log: Vec<TrackingEvent> = Vec::new();
    let outcome = log_continue(&mut log, 300);
    assert_eq!(outcome, ContinueOutcome::NoEntries);
    assert!(log.is_empty());
}

#[test]
fn continue_while_running_is_a_no_op() {
    let mut log = vec![start(Some("a"), 100)];
    let outcome = log_continue(&mut log, 300);
    assert_eq!(outcome, ContinueOutcome::AlreadyRunning);
    assert_eq!(log.len(), 1);
}

#[test]
fn continue_without_prior_start_appends_nothing() {
    let mut log = vec![stop(Some("only a stop"), 100)];
    let outcome = log_continue(&mut log, 300);
    assert_eq!(outcome, ContinueOutcome::NoPriorStart);
    assert_eq!(log.len(), 1);
}
