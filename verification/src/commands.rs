use vstd::prelude::*;

use crate::civil::CivilDate;
use crate::clock::{local_civil_to_utc_seconds, local_today, now_utc_seconds};
use crate::event::TrackingEvent;
use crate::log_ops::{
    continue_transition, log_continue, log_start, log_stop, running, start_transition,
    stop_transition, ContinueOutcome,
};
use crate::parse::{
    lemma_parse_ymd_hms_valid, lemma_parse_ymd_valid, parse_date_or_date_time_parts,
    parse_date_time_parts, spec_parse_date_or_date_time, spec_parse_date_time, DateOrDateTime,
    ParsedDateTime,
};
use crate::show::{
    bound_valid, default_stop, duration_parts, filter_window, first_non_stop, lower_secs,
    spec_default_stop, spec_duration_parts, spec_lower_secs, spec_upper_secs, sum_sessions,
    sum_sessions_exec, sum_sessions_fits, trim_leading_stops, upper_secs, window_filter,
};

verus! {

/// The fatal failures a command can report; each aborts the process in the
/// caller, as the tool's error taxonomy demands.
#[derive(Clone, Copy, Debug, PartialEq, Eq, Structural)]
pub enum CommandError {
    /// A user-supplied time string survived none of the six parse attempts.
    UnparsableTime,
    /// The parsed wall-clock reading names no single instant in the local
    /// time zone.
    LocalTimeUnrepresentable,
    /// The clock reported a local day outside the representable calendar.
    ClockOutOfRange,
    /// Checked duration accumulation left the representable range.
    DurationOverflow,
}

/// Turns an `--at` argument into an instant: the parsed time of day is
/// placed on the current local day, a full date-time is read as local
/// wall-clock time, and either is converted to UTC seconds.
fn resolve_at(at: &Vec<u8>) -> (r: Result<i64, CommandError>)
    ensures
        r == Result::<i64, CommandError>::Err(CommandError::UnparsableTime) <==> spec_parse_date_time(at@) is None,
        r is Err ==> (r == Result::<i64, CommandError>::Err(CommandError::UnparsableTime) || r
            == Result::<i64, CommandError>::Err(CommandError::LocalTimeUnrepresentable)),
{
    match parse_date_time_parts(at) {
        Option::None => Result::Err(CommandError::UnparsableTime),
        Option::Some(ParsedDateTime::TimeOfDay(t)) => {
            let (y, mo, d) = local_today();
            match local_civil_to_utc_seconds(y, mo, d, t.hour, t.minute, t.second) {
                Option::Some(x) => Result::Ok(x),
                Option::None => Result::Err(CommandError::LocalTimeUnrepresentable),
            }
        },
        Option::Some(ParsedDateTime::Full(dt)) => {
            match local_civil_to_utc_seconds(
                dt.date.year as i32,
                dt.date.month,
                dt.date.day,
                dt.hour,
                dt.minute,
                dt.second,
            ) {
                Option::Some(x) => Result::Ok(x),
                Option::None => Result::Err(CommandError::LocalTimeUnrepresentable),
            }
        },
    }
}

/// The `start` command: appends a Start event at the given or current
/// time, unless the log is already running, in which case nothing changes;
/// reports whether an event was appended.
pub fn cmd_start(log: &mut Vec<TrackingEvent>, description: Option<String>, at: Option<Vec<u8>>) -> (r:
    Result<bool, CommandError>)
    ensures
        match r {
            Result::Ok(added) => added == !running(old(log)@) && (exists|t: i64|
                final(log)@ == start_transition(old(log)@, description, t)),
            Result::Err(_) => final(log)@ == old(log)@,
        },
        at is None ==> r is Ok,
        (at matches Option::Some(s) && spec_parse_date_time(s@) is None) <==> r == Result::<
            bool,
            CommandError,
        >::Err(CommandError::UnparsableTime),
        r is Err ==> (r == Result::<bool, CommandError>::Err(CommandError::UnparsableTime) || r
            == Result::<bool, CommandError>::Err(CommandError::LocalTimeUnrepresentable)),
{
    let time: i64 = match &at {
        Option::None => now_utc_seconds(),
        Option::Some(s) => {
            match resolve_at(s) {
                Result::Ok(t) => t,
                Result::Err(e) => {
                    return Result::Err(e);
                },
            }
        },
    };
    let added = log_start(log, description, time);
    proof {
        assert(log@ == start_transition(old(log)@, description, time));
    }
    Result::Ok(added)
}

/// The `stop` command: appends a Stop event at the given or current time,
/// unless the last event is already a Stop, in which case nothing changes;
/// reports whether an event was appended.
pub fn cmd_stop(log: &mut Vec<TrackingEvent>, description: Option<String>, at: Option<Vec<u8>>) -> (r:
    Result<bool, CommandError>)
    ensures
        match r {
            Result::Ok(added) => added == (old(log)@.len() == 0 || old(log)@.last().spec_is_start())
                && (exists|t: i64| final(log)@ == stop_transition(old(log)@, description, t)),
            Result::Err(_) => final(log)@ == old(log)@,
        },
        at is None ==> r is Ok,
        (at matches Option::Some(s) && spec_parse_date_time(s@) is None) <==> r == Result::<
            bool,
            CommandError,
        >::Err(CommandError::UnparsableTime),
        r is Err ==> (r == Result::<bool, CommandError>::Err(CommandError::UnparsableTime) || r
            == Result::<bool, CommandError>::Err(CommandError::LocalTimeUnrepresentable)),
{
    let time: i64 = match &at {
        Option::None => now_utc_seconds(),
        Option::Some(s) => {
            match resolve_at(s) {
                Result::Ok(t) => t,
                Result::Err(e) => {
                    return Result::Err(e);
                },
            }
        },
    };
    let added = log_stop(log, description, time);
    proof {
        assert(log@ == stop_transition(old(log)@, description, time));
    }
    Result::Ok(added)
}

/// The `continue` command: resumes tracking at the current instant with
/// the most recent Start's description; never a fatal error, whatever the
/// state of the log.
pub fn cmd_continue(log: &mut Vec<TrackingEvent>) -> (outcome: ContinueOutcome)
    ensures
        exists|now: i64| final(log)@ == continue_transition(old(log)@, now),
        outcome == (if old(log)@.len() == 0 {
            ContinueOutcome::NoEntries
        } else if old(log)@.last().spec_is_start() {
            ContinueOutcome::AlreadyRunning
        } else if crate::log_ops::prev_start_description(old(log)@) is Some {
            ContinueOutcome::Continued
        } else {
            ContinueOutcome::NoPriorStart
        }),
{
    let now = now_utc_seconds();
    let outcome = log_continue(log, now);
    proof {
        assert(log@ == continue_transition(old(log)@, now));
    }
    outcome
}

/// The literal token that removes the upper bound of `show`.
pub open spec fn spec_stop_is_all(s: Seq<u8>) -> bool {
    s == seq![97u8, 108u8, 108u8]
}

fn stop_is_all(s: &Vec<u8>) -> (b: bool)
    ensures
        b == spec_stop_is_all(s@),
{
    let b = s.len() == 3 && s[0] == 97 && s[1] == 108 && s[2] == 108;
    proof {
        if b {
            assert(s@ =~= seq![97u8, 108u8, 108u8]);
        } else {
            assert(s@ != seq![97u8, 108u8, 108u8]) by {
                if s@ == seq![97u8, 108u8, 108u8] {
                    assert(s@.len() == 3 && s@[0] == 97u8 && s@[1] == 108u8 && s@[2] == 108u8);
                }
            }
        }
    }
    b
}

/// A `show` boundary string resolved to a boundary: what it parses to, or
/// the current day when it parses to nothing (a silent fallback).
pub open spec fn spec_resolve_bound(s: Seq<u8>, today: CivilDate) -> DateOrDateTime {
    match spec_parse_date_or_date_time(s) {
        Option::Some(b) => b,
        Option::None => DateOrDateTime::Date(today),
    }
}

fn resolve_bound(s: &Vec<u8>, today: CivilDate) -> (r: DateOrDateTime)
    requires
        today.valid(),
    ensures
        r == spec_resolve_bound(s@, today),
        bound_valid(r),
{
    proof {
        lemma_parse_ymd_valid(s@);
        lemma_parse_ymd_hms_valid(s@);
    }
    match parse_date_or_date_time_parts(s) {
        Option::Some(b) => b,
        Option::None => DateOrDateTime::Date(today),
    }
}

/// The window of a `show` invocation, as inclusive bounds in UTC seconds,
/// each side optional: the boundary fields are read without a time-zone
/// offset, midnight for a date lower bound and the day's last second for a
/// date upper bound; a missing stop argument follows the defaulting rule,
/// and the token `all` removes the upper bound.
pub open spec fn spec_show_bounds(
    start: Option<Seq<u8>>,
    stop: Option<Seq<u8>>,
    today: CivilDate,
) -> (Option<i64>, Option<i64>) {
    let sb = match start {
        Option::Some(s) => Option::Some(spec_resolve_bound(s, today)),
        Option::None => Option::None,
    };
    let eb = match stop {
        Option::Some(s) => if spec_stop_is_all(s) {
            Option::None
        } else {
            Option::Some(spec_resolve_bound(s, today))
        },
        Option::None => spec_default_stop(sb),
    };
    (
        match sb {
            Option::Some(b) => Option::Some(spec_lower_secs(b) as i64),
            Option::None => Option::None,
        },
        match eb {
            Option::Some(b) => Option::Some(spec_upper_secs(b) as i64),
            Option::None => Option::None,
        },
    )
}

/// The view of an optional byte-string argument.
pub open spec fn opt_bytes(o: Option<Vec<u8>>) -> Option<Seq<u8>> {
    match o {
        Option::Some(v) => Option::Some(v@),
        Option::None => Option::None,
    }
}

/// Giving `show` a date and no stop argument covers exactly that one day:
/// the window equals the one the same date given twice resolves to.
pub proof fn lemma_show_date_without_stop_covers_one_day(s: Seq<u8>, today: CivilDate)
    requires
        spec_parse_date_or_date_time(s) matches Option::Some(DateOrDateTime::Date(_)),
    ensures
        spec_show_bounds(Option::Some(s), Option::None, today) == spec_show_bounds(
            Option::Some(s),
            Option::Some(s),
            today,
        ),
{
    assert(!spec_stop_is_all(s)) by {
        if spec_stop_is_all(s) {
            assert(s.len() == 3);
            assert(crate::parse::spec_parse_ymd(s) is None);
        }
    }
}

/// The `show` command: resolves the window, filters the log to it, drops a
/// dangling leading Stop, sums the Start/Stop pairs with checked
/// arithmetic, and splits the total for display as sign, hours, minutes
/// and seconds.
pub fn cmd_show(log: &Vec<TrackingEvent>, start: Option<Vec<u8>>, stop: Option<Vec<u8>>) -> (r:
    Result<(bool, u64, u64, u64), CommandError>)
    ensures
        match r {
            Result::Ok(parts) => exists|today: CivilDate, now: i64|
                {
                    &&& today.valid()
                    &&& #[trigger] sum_sessions_fits(
                        trim_leading_stops(
                            window_filter(
                                log@,
                                spec_show_bounds(opt_bytes(start), opt_bytes(stop), today).0,
                                spec_show_bounds(opt_bytes(start), opt_bytes(stop), today).1,
                            ),
                        ),
                        now,
                        0,
                    )
                    &&& parts == spec_duration_parts(
                        sum_sessions(
                            trim_leading_stops(
                                window_filter(
                                    log@,
                                    spec_show_bounds(opt_bytes(start), opt_bytes(stop), today).0,
                                    spec_show_bounds(opt_bytes(start), opt_bytes(stop), today).1,
                                ),
                            ),
                            now,
                        ),
                    )
                },
            Result::Err(e) => e == CommandError::DurationOverflow || e
                == CommandError::ClockOutOfRange,
        },
{
    let (ty, tm, td) = local_today();
    if ty < 0 {
        return Result::Err(CommandError::ClockOutOfRange);
    }
    let today = CivilDate { year: ty as u32, month: tm, day: td };
    let start_bound: Option<DateOrDateTime> = match &start {
        Option::Some(s) => Option::Some(resolve_bound(s, today)),
        Option::None => Option::None,
    };
    let stop_bound: Option<DateOrDateTime> = match &stop {
        Option::Some(s) => {
            if stop_is_all(s) {
                Option::None
            } else {
                Option::Some(resolve_bound(s, today))
            }
        },
        Option::None => default_stop(&start_bound),
    };
    let lo: Option<i64> = match &start_bound {
        Option::Some(b) => Option::Some(lower_secs(b)),
        Option::None => Option::None,
    };
    let hi: Option<i64> = match &stop_bound {
        Option::Some(b) => Option::Some(upper_secs(b)),
        Option::None => Option::None,
    };
    proof {
        assert((lo, hi) == spec_show_bounds(opt_bytes(start), opt_bytes(stop), today));
    }
    let filtered = filter_window(log, lo, hi);
    let from = first_non_stop(&filtered);
    let now = now_utc_seconds();
    let total = match sum_sessions_exec(&filtered, from, now) {
        Option::Some(t) => t,
        Option::None => {
            return Result::Err(CommandError::DurationOverflow);
        },
    };
    proof {
        assert(filtered@.skip(from as int) == trim_leading_stops(
            window_filter(
                log@,
                spec_show_bounds(opt_bytes(start), opt_bytes(stop), today).0,
                spec_show_bounds(opt_bytes(start), opt_bytes(stop), today).1,
            ),
        ));
        assert(sum_sessions_fits(
            trim_leading_stops(
                window_filter(
                    log@,
                    spec_show_bounds(opt_bytes(start), opt_bytes(stop), today).0,
                    spec_show_bounds(opt_bytes(start), opt_bytes(stop), today).1,
                ),
            ),
            now,
            0,
        ));
    }
    Result::Ok(duration_parts(total))
}

} // verus!
