use vstd::prelude::*;

use crate::civil::{epoch_seconds, epoch_seconds_exec, CivilDate, CivilDateTime};
use crate::event::TrackingEvent;
use crate::parse::DateOrDateTime;

verus! {

/// Validity of a window boundary, whichever shape it has.
pub open spec fn bound_valid(b: DateOrDateTime) -> bool {
    match b {
        DateOrDateTime::Date(d) => d.valid(),
        DateOrDateTime::DateTime(dt) => dt.valid(),
    }
}

/// The instant where a window boundary begins: midnight of the day for a
/// date, the exact instant for a date-time.
pub open spec fn spec_lower_secs(b: DateOrDateTime) -> int {
    match b {
        DateOrDateTime::Date(d) => epoch_seconds(
            d.year as int,
            d.month as int,
            d.day as int,
            0,
            0,
            0,
        ),
        DateOrDateTime::DateTime(dt) => dt.spec_epoch_seconds(),
    }
}

/// The instant where a window boundary ends: the last second of the day
/// for a date, the exact instant for a date-time.
pub open spec fn spec_upper_secs(b: DateOrDateTime) -> int {
    match b {
        DateOrDateTime::Date(d) => epoch_seconds(
            d.year as int,
            d.month as int,
            d.day as int,
            23,
            59,
            59,
        ),
        DateOrDateTime::DateTime(dt) => dt.spec_epoch_seconds(),
    }
}

/// When `show` is given no stop argument, a date-time start bound defaults
/// to the whole day it falls on, and any other start bound is reused as the
/// stop bound; this asymmetry is deliberate.
pub open spec fn spec_default_stop(start: Option<DateOrDateTime>) -> Option<DateOrDateTime> {
    match start {
        Option::Some(DateOrDateTime::DateTime(dt)) => Option::Some(
            DateOrDateTime::Date(dt.date),
        ),
        _ => start,
    }
}

pub fn lower_secs(b: &DateOrDateTime) -> (r: i64)
    requires
        bound_valid(*b),
    ensures
        r == spec_lower_secs(*b),
{
    match b {
        DateOrDateTime::Date(d) => {
            let dt = CivilDateTime { date: *d, hour: 0, minute: 0, second: 0 };
            epoch_seconds_exec(&dt)
        },
        DateOrDateTime::DateTime(dt) => epoch_seconds_exec(dt),
    }
}

pub fn upper_secs(b: &DateOrDateTime) -> (r: i64)
    requires
        bound_valid(*b),
    ensures
        r == spec_upper_secs(*b),
{
    match b {
        DateOrDateTime::Date(d) => {
            let dt = CivilDateTime { date: *d, hour: 23, minute: 59, second: 59 };
            epoch_seconds_exec(&dt)
        },
        DateOrDateTime::DateTime(dt) => epoch_seconds_exec(dt),
    }
}

pub fn default_stop(start: &Option<DateOrDateTime>) -> (r: Option<DateOrDateTime>)
    ensures
        r == spec_default_stop(*start),
{
    match start {
        Option::Some(DateOrDateTime::DateTime(dt)) => Option::Some(
            DateOrDateTime::Date(dt.date),
        ),
        Option::Some(DateOrDateTime::Date(d)) => Option::Some(DateOrDateTime::Date(*d)),
        Option::None => Option::None,
    }
}

/// Whether an event's instant lies inside the window, each bound optional
/// and inclusive.
pub open spec fn in_window(e: TrackingEvent, lo: Option<i64>, hi: Option<i64>) -> bool {
    (match lo {
        Option::Some(l) => e.spec_time() >= l,
        Option::None => true,
    }) && (match hi {
        Option::Some(h) => e.spec_time() <= h,
        Option::None => true,
    })
}

/// The events of the log whose instants lie inside the window, in order.
pub open spec fn window_filter(
    log: Seq<TrackingEvent>,
    lo: Option<i64>,
    hi: Option<i64>,
) -> Seq<TrackingEvent>
    decreases log.len(),
{
    if log.len() == 0 {
        Seq::<TrackingEvent>::empty()
    } else {
        window_filter(log.drop_last(), lo, hi) + (if in_window(log.last(), lo, hi) {
            seq![log.last()]
        } else {
            Seq::<TrackingEvent>::empty()
        })
    }
}

pub fn filter_window(log: &Vec<TrackingEvent>, lo: Option<i64>, hi: Option<i64>) -> (r: Vec<
    TrackingEvent,
>)
    ensures
        r@ == window_filter(log@, lo, hi),
{
    let mut r: Vec<TrackingEvent> = Vec::new();
    let mut i: usize = 0;
    proof {
        assert(log@.subrange(0, 0) =~= Seq::<TrackingEvent>::empty());
    }
    while i < log.len()
        invariant
            i <= log@.len(),
            r@ == window_filter(log@.subrange(0, i as int), lo, hi),
        decreases log@.len() - i,
    {
        proof {
            assert(log@.subrange(0, i + 1 as int).drop_last() =~= log@.subrange(0, i as int));
            assert(log@.subrange(0, i + 1 as int).last() == log@[i as int]);
        }
        let e = &log[i];
        let t = e.time();
        let lo_ok = match lo {
            Option::Some(l) => t >= l,
            Option::None => true,
        };
        let hi_ok = match hi {
            Option::Some(h) => t <= h,
            Option::None => true,
        };
        if lo_ok && hi_ok {
            r.push(e.duplicate());
        }
        i = i + 1;
    }
    proof {
        assert(log@.subrange(0, log@.len() as int) =~= log@);
    }
    r
}

/// The filtered window with any leading Stop events discarded: a window
/// may begin mid-session on a dangling Stop, which has no matching Start
/// inside the window.
pub open spec fn trim_leading_stops(s: Seq<TrackingEvent>) -> Seq<TrackingEvent>
    decreases s.len(),
{
    if s.len() == 0 {
        s
    } else if s[0].spec_is_stop() {
        trim_leading_stops(s.drop_first())
    } else {
        s
    }
}

/// Where the trimmed suffix begins.
pub fn first_non_stop(v: &Vec<TrackingEvent>) -> (i: usize)
    ensures
        i <= v@.len(),
        v@.skip(i as int) == trim_leading_stops(v@),
{
    let mut i: usize = 0;
    proof {
        assert(v@.skip(0) =~= v@);
    }
    while i < v.len() && v[i].is_stop()
        invariant
            i <= v@.len(),
            trim_leading_stops(v@.skip(i as int)) == trim_leading_stops(v@),
        decreases v@.len() - i,
    {
        proof {
            assert(v@.skip(i as int).drop_first() =~= v@.skip(i + 1 as int));
            assert(v@.skip(i as int)[0] == v@[i as int]);
        }
        i = i + 1;
    }
    proof {
        if i < v@.len() {
            assert(v@.skip(i as int)[0] == v@[i as int]);
        }
    }
    i
}

pub open spec fn fits_i64(x: int) -> bool {
    i64::MIN <= x <= i64::MAX
}

/// Total elapsed seconds of the sequence read two events at a time: each
/// complete pair contributes the second instant minus the first; a final
/// unpaired Start contributes the current instant minus its own; any other
/// trailing shape contributes nothing.
pub open spec fn sum_sessions(s: Seq<TrackingEvent>, now: i64) -> int
    decreases s.len(),
{
    if s.len() >= 2 {
        (s[1].spec_time() - s[0].spec_time()) + sum_sessions(s.skip(2), now)
    } else if s.len() == 1 && s[0].spec_is_start() {
        now - s[0].spec_time()
    } else {
        0
    }
}

/// Whether the left-to-right checked accumulation of `sum_sessions`,
/// started at `acc`, stays within the signed 64-bit range at every step.
pub open spec fn sum_sessions_fits(s: Seq<TrackingEvent>, now: i64, acc: int) -> bool
    decreases s.len(),
{
    if s.len() >= 2 {
        fits_i64(s[1].spec_time() - s[0].spec_time()) && fits_i64(
            acc + (s[1].spec_time() - s[0].spec_time()),
        ) && sum_sessions_fits(s.skip(2), now, acc + (s[1].spec_time() - s[0].spec_time()))
    } else if s.len() == 1 && s[0].spec_is_start() {
        fits_i64(now - s[0].spec_time()) && fits_i64(acc + (now - s[0].spec_time()))
    } else {
        true
    }
}

/// Sums the work of the already filtered and trimmed window; None exactly
/// when the checked accumulation would leave the signed 64-bit range, a
/// fatal error for the caller.
pub fn sum_sessions_exec(v: &Vec<TrackingEvent>, from: usize, now: i64) -> (r: Option<i64>)
    requires
        from <= v@.len(),
    ensures
        r is Some <==> sum_sessions_fits(v@.skip(from as int), now, 0),
        r matches Some(total) ==> total == sum_sessions(v@.skip(from as int), now),
{
    let ghost whole: Seq<TrackingEvent> = v@.skip(from as int);
    let mut acc: i64 = 0;
    let mut i: usize = from;
    loop
        invariant
            from <= i <= v@.len(),
            whole == v@.skip(from as int),
            sum_sessions_fits(whole, now, 0) <==> sum_sessions_fits(
                v@.skip(i as int),
                now,
                acc as int,
            ),
            sum_sessions_fits(whole, now, 0) ==> sum_sessions(whole, now) == acc + sum_sessions(
                v@.skip(i as int),
                now,
            ),
        ensures
            (sum_sessions_fits(whole, now, 0) <==> sum_sessions_fits(
                v@.skip(i as int),
                now,
                acc as int,
            )),
            sum_sessions_fits(whole, now, 0) ==> sum_sessions(whole, now) == acc + sum_sessions(
                v@.skip(i as int),
                now,
            ),
            v@.skip(i as int).len() < 2 && !(v@.skip(i as int).len() == 1
                && v@.skip(i as int)[0].spec_is_start()),
        decreases v@.len() - i,
    {
        proof {
            assert(v@.skip(i as int).len() == v@.len() - i);
        }
        if v.len() - i >= 2 {
            proof {
                assert(v@.skip(i as int)[0] == v@[i as int]);
                assert(v@.skip(i as int)[1] == v@[i + 1]);
                assert(v@.skip(i as int).skip(2) =~= v@.skip(i + 2 as int));
            }
            let t0 = v[i].time();
            let t1 = v[i + 1].time();
            let diff = match t1.checked_sub(t0) {
                Option::Some(d) => d,
                Option::None => {
                    return Option::None;
                },
            };
            acc = match acc.checked_add(diff) {
                Option::Some(a) => a,
                Option::None => {
                    return Option::None;
                },
            };
            i = i + 2;
        } else if i < v.len() {
            proof {
                assert(v@.skip(i as int)[0] == v@[i as int]);
                assert(v@.skip(i as int).len() == 1);
            }
            if v[i].is_start() {
                let t0 = v[i].time();
                let diff = match now.checked_sub(t0) {
                    Option::Some(d) => d,
                    Option::None => {
                        return Option::None;
                    },
                };
                acc = match acc.checked_add(diff) {
                    Option::Some(a) => a,
                    Option::None => {
                        return Option::None;
                    },
                };
                i = i + 1;
            }
            break ;
        } else {
            break ;
        }
    }
    Option::Some(acc)
}

/// Filters the log to the window, discards leading Stop events, and sums
/// the remaining pairs; None exactly on checked-accumulation overflow.
pub fn show_total(log: &Vec<TrackingEvent>, lo: Option<i64>, hi: Option<i64>, now: i64) -> (r:
    Option<i64>)
    ensures
        r is Some <==> sum_sessions_fits(
            trim_leading_stops(window_filter(log@, lo, hi)),
            now,
            0,
        ),
        r matches Some(total) ==> total == sum_sessions(
            trim_leading_stops(window_filter(log@, lo, hi)),
            now,
        ),
{
    let filtered = filter_window(log, lo, hi);
    let from = first_non_stop(&filtered);
    sum_sessions_exec(&filtered, from, now)
}

/// The magnitude of a total, split into whole hours (which may exceed 24),
/// leftover minutes and leftover seconds.
pub open spec fn abs_of(t: int) -> int {
    if t < 0 {
        -t
    } else {
        t
    }
}

/// A total duration split for display: a sign, then whole hours, leftover
/// minutes and leftover seconds of the magnitude.
pub open spec fn spec_duration_parts(total: int) -> (bool, u64, u64, u64) {
    (
        (total < 0),
        (abs_of(total) / 3600) as u64,
        ((abs_of(total) / 60) % 60) as u64,
        (abs_of(total) % 60) as u64,
    )
}

/// Splits a total duration for display: a sign, then hours, minutes and
/// seconds of the magnitude by modular decomposition.
pub fn duration_parts(total: i64) -> (r: (bool, u64, u64, u64))
    ensures
        r == spec_duration_parts(total as int),
        r.0 == (total < 0),
        r.1 == abs_of(total as int) / 3600,
        r.2 == (abs_of(total as int) / 60) % 60,
        r.3 == abs_of(total as int) % 60,
{
    let mag: u64 = if total >= 0 {
        total as u64
    } else {
        (-(total + 1)) as u64 + 1
    };
    (total < 0, mag / 3600, (mag / 60) % 60, mag % 60)
}

/// The displayed parts rebuild the magnitude exactly: the decomposition is
/// modular, never a wraparound.
pub proof fn lemma_duration_parts_rebuild(t: int)
    requires
        t >= 0,
    ensures
        3600 * (t / 3600) + 60 * ((t / 60) % 60) + t % 60 == t,
{
    assert(60 * (t / 60) + t % 60 == t) by {
        vstd::arithmetic::div_mod::lemma_fundamental_div_mod(t, 60);
    }
    assert(60 * ((t / 60) / 60) + (t / 60) % 60 == t / 60) by {
        vstd::arithmetic::div_mod::lemma_fundamental_div_mod(t / 60, 60);
    }
    assert((t / 60) / 60 == t / 3600) by {
        vstd::arithmetic::div_mod::lemma_div_denominator(t, 60, 60);
    }
}

/// A window whose first event is a dangling Stop discards it: trimming the
/// window and trimming the window without that Stop agree.
pub proof fn lemma_leading_stop_discarded(s: Seq<TrackingEvent>)
    requires
        s.len() > 0,
        s[0].spec_is_stop(),
    ensures
        trim_leading_stops(s) == trim_leading_stops(s.drop_first()),
{
}

/// Trimming leaves nothing, or a sequence that begins with a Start, so
/// accumulation always begins at a Start event.
pub proof fn lemma_trim_starts_with_start(s: Seq<TrackingEvent>)
    ensures
        trim_leading_stops(s).len() > 0 ==> trim_leading_stops(s)[0].spec_is_start(),
    decreases s.len(),
{
    if s.len() > 0 && s[0].spec_is_stop() {
        lemma_trim_starts_with_start(s.drop_first());
    }
}

/// The two defaulting rules of `show`'s stop argument: a date start bound
/// with no stop argument covers exactly that one day, as if the same date
/// had been given again; and the literal token `all` removes the upper
/// bound, leaving every event at or after the lower bound in the window.
pub proof fn lemma_show_stop_defaults(d: CivilDate, lo: i64)
    ensures
        spec_default_stop(Option::Some(DateOrDateTime::Date(d))) == Option::Some(
            DateOrDateTime::Date(d),
        ),
        forall|e: TrackingEvent|
            in_window(e, Option::Some(lo), Option::None) == (e.spec_time() >= lo),
{
}

} // verus!
