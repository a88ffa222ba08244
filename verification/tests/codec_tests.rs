use timetracking::codec::{decode_log, encode_log};
use timetracking::commands::{cmd_start, CommandError};
use timetracking::event::{TrackingData, TrackingEvent};

fn start(desc: Option<&str>, time: i64) -> TrackingEvent {
    TrackingEvent::Start(TrackingData { description: desc.map(|s| s.to_string()), time })
}

fn stop(desc: Option<&str>, time: i64) -> TrackingEvent {
    TrackingEvent::Stop(TrackingData { description: desc.map(|s| s.to_string()), time })
}

#[test]
fn round_trip_preserves_count_order_descriptions_and_instants() {
    let log = vec![
        start(Some("hello"), 100),
        stop(None, -5),
        start(Some("müller näßt 🕰"), 0),
        stop(Some(""), i64::MAX),
        start(None, i64::MIN),
    ];
    let bytes = encode_log(&log);
    let back = decode_log(bytes.as_slice()).expect("a fresh encoding must decode");
    assert_eq!(back, log);
}

#[test]
fn empty_log_round_trips() {
    let log: Vec<TrackingEvent> = Vec::new();
    let bytes = encode_log(&log);
    assert_eq!(bytes.len(), 8);
    let back = decode_log(bytes.as_slice()).unwrap();
    assert!(back.is_empty());
}

#[test]
fn corrupt_buffers_are_rejected() {
    assert_eq!(decode_log(&[]), None);
    assert_eq!(decode_log(&[1, 2, 3]), None);
    // A count of one event but no event bytes.
    assert_eq!(decode_log(&[1, 0, 0, 0, 0, 0, 0, 0]), None);
    // A bad kind byte.
    assert_eq!(
        decode_log(&[1, 0, 0, 0, 0, 0, 0, 0, 9, 0, 0, 0, 0, 0, 0, 0, 0, 0]),
        None
    );
}

#[test]
fn trailing_bytes_are_rejected() {
    let log = vec![start(Some("x"), 1)];
    let mut bytes = encode_log(&log);
    bytes.push(0);
    assert_eq!(decode_log(bytes.as_slice()), None);
}

#[test]
fn invalid_utf8_description_bytes_are_rejected() {
    let log = vec![start(Some("ab"), 1)];
    let mut bytes = encode_log(&log);
    // The description bytes sit after the count, kind, flag and length:
    // 8 + 1 + 1 + 8 = 18; overwrite one with a lone continuation byte.
    bytes[18] = 0xFF;
    assert_eq!(decode_log(bytes.as_slice()), None);
}

#[test]
fn unparsable_at_argument_is_a_fatal_error() {
    let mut log: Vec<TrackingEvent> = Vec::new();
    let r = cmd_start(&mut log, None, Some(b"not a time".to_vec()));
    assert_eq!(r, Err(CommandError::UnparsableTime));
    assert!(log.is_empty());
}

#[test]
fn start_without_at_uses_the_current_clock() {
    let mut log: Vec<TrackingEvent> = Vec::new();
    assert_eq!(cmd_start(&mut log, None, None), Ok(true));
    assert_eq!(log.len(), 1);
    assert!(log[0].is_start());
    // The clock cannot plausibly sit at the epoch.
    assert!(log[0].time() != 0);
}

#[test]
fn at_argument_with_full_date_time_is_accepted() {
    let mut log: Vec<TrackingEvent> = Vec::new();
    let r = cmd_start(
        &mut log,
        Some("morning".to_string()),
        Some(b"2024-06-01 09:00:00".to_vec()),
    );
    assert_eq!(r, Ok(true));
    assert_eq!(log.len(), 1);
    assert!(log[0].is_start());
    assert_eq!(log[0].description_clone(), Some("morning".to_string()));
}
