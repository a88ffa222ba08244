use timetracking::commands::cmd_show;
use timetracking::event::{TrackingData, TrackingEvent};
use timetracking::show::{duration_parts, show_total};

fn start(time: i64) -> TrackingEvent {
    TrackingEvent::Start(TrackingData { description: None, time })
}

fn stop(time: i64) -> TrackingEvent {
    TrackingEvent::Stop(TrackingData { description: None, time })
}

// 2024-01-01 00:00:00 UTC.
const DAY: i64 = 1704067200;

#[test]
fn pairs_and_open_trailing_session_sum() {
    // Start@08:00, Stop@12:00, Start@13:00; now = 14:00 of the same day.
    let log = vec![start(DAY + 8 * 3600), stop(DAY + 12 * 3600), start(DAY + 13 * 3600)];
    let now = DAY + 14 * 3600;
    let total = show_total(&log, None, None, now).unwrap();
    assert_eq!(total, 4 * 3600 + (now - (DAY + 13 * 3600)));
    assert_eq!(total, 5 * 3600);
}

#[test]
fn window_starting_mid_session_discards_dangling_stop() {
    // The session 07:00-09:00 straddles the window start at 08:00: the
    // dangling Stop@09:00 is discarded, and only 10:00-11:00 counts.
    let log = vec![
        start(DAY + 7 * 3600),
        stop(DAY + 9 * 3600),
        start(DAY + 10 * 3600),
        stop(DAY + 11 * 3600),
    ];
    let total = show_total(&log, Some(DAY + 8 * 3600), None, DAY + 12 * 3600).unwrap();
    assert_eq!(total, 3600);
}

#[test]
fn window_bounds_are_inclusive() {
    let log = vec![start(DAY), stop(DAY + 100)];
    assert_eq!(show_total(&log, Some(DAY), Some(DAY + 100), DAY + 200).unwrap(), 100);
    assert_eq!(show_total(&log, Some(DAY + 1), Some(DAY + 100), DAY + 200).unwrap(), 0);
}

#[test]
fn trailing_lone_stop_adds_nothing() {
    let log = vec![start(DAY), stop(DAY + 60), stop(DAY + 120)];
    assert_eq!(show_total(&log, None, None, DAY + 300).unwrap(), 60);
}

#[test]
fn overflowing_accumulation_is_reported() {
    let log = vec![start(i64::MIN), stop(i64::MAX)];
    assert_eq!(show_total(&log, None, None, 0), None);
}

#[test]
fn duration_parts_decompose_modularly() {
    // 26 hours, 3 minutes, 4 seconds: hours exceed 24 and stay whole.
    assert_eq!(duration_parts(26 * 3600 + 3 * 60 + 4), (false, 26, 3, 4));
    assert_eq!(duration_parts(0), (false, 0, 0, 0));
    assert_eq!(duration_parts(-61), (true, 0, 1, 1));
}

#[test]
fn show_all_removes_the_upper_bound() {
    // One closed session on 2024-01-01 and one the day after; with the
    // stop token "all" both count, with the bare date only the first.
    let log = vec![
        start(DAY + 3600),
        stop(DAY + 2 * 3600),
        start(DAY + 25 * 3600),
        stop(DAY + 27 * 3600),
    ];
    let with_all = cmd_show(
        &log,
        Some(b"2024-01-01".to_vec()),
        Some(b"all".to_vec()),
    )
    .unwrap();
    assert_eq!(with_all, (false, 3, 0, 0));
    let one_day = cmd_show(&log, Some(b"2024-01-01".to_vec()), None).unwrap();
    assert_eq!(one_day, (false, 1, 0, 0));
}

#[test]
fn missing_stop_defaults_to_the_start_day() {
    let log = vec![
        start(DAY + 3600),
        stop(DAY + 2 * 3600),
        start(DAY + 25 * 3600),
        stop(DAY + 27 * 3600),
    ];
    let defaulted = cmd_show(&log, Some(b"2024-01-01".to_vec()), None).unwrap();
    let explicit = cmd_show(
        &log,
        Some(b"2024-01-01".to_vec()),
        Some(b"2024-01-01".to_vec()),
    )
    .unwrap();
    assert_eq!(defaulted, explicit);
}

#[test]
fn unparsable_show_boundary_falls_back_to_today_silently() {
    let log: Vec<TrackingEvent> = Vec::new();
    assert_eq!(
        cmd_show(&log, Some(b"junk".to_vec()), None).unwrap(),
        (false, 0, 0, 0)
    );
}

#[test]
fn date_time_start_defaults_stop_to_that_day() {
    let log = vec![
        start(DAY + 3600),
        stop(DAY + 2 * 3600),
        start(DAY + 25 * 3600),
        stop(DAY + 27 * 3600),
    ];
    // A date-time start bound still caps the window at the end of its own
    // calendar day when no stop argument is given.
    let r = cmd_show(&log, Some(b"2024-01-01 00:30:00".to_vec()), None).unwrap();
    assert_eq!(r, (false, 1, 0, 0));
}
