use timetracking::civil::{epoch_seconds_exec, CivilDate, CivilDateTime};
use timetracking::parse::{
    parse_date_or_date_time_parts, parse_date_time_parts, DateOrDateTime, ParsedDateTime,
    TimeOfDay,
};

fn bytes(s: &str) -> Vec<u8> {
    s.as_bytes().to_vec()
}

fn tod(hour: u32, minute: u32, second: u32) -> ParsedDateTime {
    ParsedDateTime::TimeOfDay(TimeOfDay { hour, minute, second })
}

fn full(year: u32, month: u32, day: u32, hour: u32, minute: u32, second: u32) -> ParsedDateTime {
    ParsedDateTime::Full(CivilDateTime {
        date: CivilDate { year, month, day },
        hour,
        minute,
        second,
    })
}

#[test]
fn full_time_of_day_parses_exactly() {
    assert_eq!(parse_date_time_parts(&bytes("09:30:15")), Some(tod(9, 30, 15)));
}

#[test]
fn hour_minute_gets_zero_seconds_via_appended_suffix() {
    assert_eq!(parse_date_time_parts(&bytes("09:30")), Some(tod(9, 30, 0)));
}

#[test]
fn bare_hour_gets_zero_minutes_and_seconds() {
    assert_eq!(parse_date_time_parts(&bytes("09")), Some(tod(9, 0, 0)));
}

#[test]
fn single_digit_segments_parse() {
    assert_eq!(parse_date_time_parts(&bytes("9:5:3")), Some(tod(9, 5, 3)));
}

#[test]
fn full_date_time_parses() {
    assert_eq!(
        parse_date_time_parts(&bytes("2024-01-02 03:04:05")),
        Some(full(2024, 1, 2, 3, 4, 5))
    );
}

#[test]
fn date_time_without_seconds_and_minutes() {
    assert_eq!(
        parse_date_time_parts(&bytes("2024-01-02 03:04")),
        Some(full(2024, 1, 2, 3, 4, 0))
    );
    assert_eq!(
        parse_date_time_parts(&bytes("2024-01-02 03")),
        Some(full(2024, 1, 2, 3, 0, 0))
    );
}

#[test]
fn out_of_range_fields_fail() {
    assert_eq!(parse_date_time_parts(&bytes("24:00:00")), None);
    assert_eq!(parse_date_time_parts(&bytes("12:60:00")), None);
    assert_eq!(parse_date_time_parts(&bytes("12:00:61")), None);
    assert_eq!(parse_date_time_parts(&bytes("nonsense")), None);
    assert_eq!(parse_date_time_parts(&bytes("")), None);
}

#[test]
fn impossible_calendar_days_fail() {
    assert_eq!(parse_date_time_parts(&bytes("2023-02-29 10:00:00")), None);
    assert_eq!(parse_date_time_parts(&bytes("2024-04-31 10:00:00")), None);
    assert_eq!(parse_date_time_parts(&bytes("2024-13-01 10:00:00")), None);
    assert_eq!(parse_date_time_parts(&bytes("2024-00-10 10:00:00")), None);
}

#[test]
fn leap_day_parses_in_leap_years_only() {
    assert_eq!(
        parse_date_time_parts(&bytes("2024-02-29 00:00:00")),
        Some(full(2024, 2, 29, 0, 0, 0))
    );
    assert_eq!(
        parse_date_time_parts(&bytes("2000-02-29 00:00:00")),
        Some(full(2000, 2, 29, 0, 0, 0))
    );
    assert_eq!(parse_date_time_parts(&bytes("1900-02-29 00:00:00")), None);
}

#[test]
fn show_boundary_prefers_bare_date() {
    assert_eq!(
        parse_date_or_date_time_parts(&bytes("2024-01-01")),
        Some(DateOrDateTime::Date(CivilDate { year: 2024, month: 1, day: 1 }))
    );
    assert_eq!(
        parse_date_or_date_time_parts(&bytes("2024-01-01 10:30:00")),
        Some(DateOrDateTime::DateTime(CivilDateTime {
            date: CivilDate { year: 2024, month: 1, day: 1 },
            hour: 10,
            minute: 30,
            second: 0,
        }))
    );
    assert_eq!(parse_date_or_date_time_parts(&bytes("gibberish")), None);
}

#[test]
fn epoch_seconds_match_known_instants() {
    let epoch = CivilDateTime {
        date: CivilDate { year: 1970, month: 1, day: 1 },
        hour: 0,
        minute: 0,
        second: 0,
    };
    assert_eq!(epoch_seconds_exec(&epoch), 0);
    let new_year = CivilDateTime {
        date: CivilDate { year: 2024, month: 1, day: 1 },
        hour: 0,
        minute: 0,
        second: 0,
    };
    assert_eq!(epoch_seconds_exec(&new_year), 1704067200);
    let before_epoch = CivilDateTime {
        date: CivilDate { year: 1969, month: 12, day: 31 },
        hour: 23,
        minute: 59,
        second: 59,
    };
    assert_eq!(epoch_seconds_exec(&before_epoch), -1);
}
