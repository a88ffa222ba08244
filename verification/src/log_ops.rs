use vstd::prelude::*;

use crate::event::{TrackingData, TrackingEvent};

verus! {

/// The log is running when its last event is a Start.
pub open spec fn running(log: Seq<TrackingEvent>) -> bool {
    log.len() > 0 && log.last().spec_is_start()
}

/// A Start event may be appended only when the log is empty or the last
/// event is a Stop; a second Start in a row is absorbed as a no-op.
pub open spec fn start_transition(
    log: Seq<TrackingEvent>,
    description: Option<String>,
    time: i64,
) -> Seq<TrackingEvent> {
    if running(log) {
        log
    } else {
        log.push(TrackingEvent::Start(TrackingData { description, time }))
    }
}

/// A Stop event may be appended only when the log is empty or the last
/// event is a Start; a second Stop in a row is absorbed as a no-op.
pub open spec fn stop_transition(
    log: Seq<TrackingEvent>,
    description: Option<String>,
    time: i64,
) -> Seq<TrackingEvent> {
    if log.len() == 0 || log.last().spec_is_start() {
        log.push(TrackingEvent::Stop(TrackingData { description, time }))
    } else {
        log
    }
}

/// The description of the most recent Start event, found by scanning
/// backward past any contiguous trailing Stop events; None when no Start
/// event exists there.
pub open spec fn prev_start_description(log: Seq<TrackingEvent>) -> Option<Option<String>>
    decreases log.len(),
{
    if log.len() == 0 {
        Option::None
    } else if log.last().spec_is_stop() {
        prev_start_description(log.drop_last())
    } else {
        Option::Some(log.last().spec_description())
    }
}

/// `continue` appends a new Start, reusing the most recent Start's
/// description, but only when the last event is a Stop and such a prior
/// Start exists; in every other case the log is left unchanged.
pub open spec fn continue_transition(log: Seq<TrackingEvent>, now: i64) -> Seq<TrackingEvent> {
    if log.len() > 0 && log.last().spec_is_stop() {
        match prev_start_description(log) {
            Option::Some(d) => log.push(
                TrackingEvent::Start(TrackingData { description: d, time: now }),
            ),
            Option::None => log,
        }
    } else {
        log
    }
}

/// What a `continue` command did; only `NoEntries` is reported to the user,
/// and none of the outcomes is an error.
#[derive(Clone, Copy, Debug, PartialEq, Eq, Structural)]
pub enum ContinueOutcome {
    /// A new Start event was appended.
    Continued,
    /// The log was empty; an advisory notice is printed.
    NoEntries,
    /// The last event is already a Start; nothing to do.
    AlreadyRunning,
    /// The trailing Stop events are preceded by no Start event.
    NoPriorStart,
}

/// Appends a Start event carrying `description` and `time`, unless the log
/// is already running; reports whether the event was appended.
pub fn log_start(log: &mut Vec<TrackingEvent>, description: Option<String>, time: i64) -> (added:
    bool)
    ensures
        final(log)@ == start_transition(old(log)@, description, time),
        added == !running(old(log)@),
{
    let should_add: bool = match log.last() {
        Option::None => true,
        Option::Some(event) => event.is_stop(),
    };
    if should_add {
        log.push(TrackingEvent::Start(TrackingData { description, time }));
    }
    should_add
}

/// Appends a Stop event carrying `description` and `time`, unless the last
/// event is already a Stop; reports whether the event was appended.
pub fn log_stop(log: &mut Vec<TrackingEvent>, description: Option<String>, time: i64) -> (added:
    bool)
    ensures
        final(log)@ == stop_transition(old(log)@, description, time),
        added == (old(log)@.len() == 0 || old(log)@.last().spec_is_start()),
{
    let should_add: bool = match log.last() {
        Option::None => true,
        Option::Some(event) => event.is_start(),
    };
    if should_add {
        log.push(TrackingEvent::Stop(TrackingData { description, time }));
    }
    should_add
}

/// Resumes tracking at `now` with the most recent Start's description, as
/// `continue_transition` describes, and reports what happened.
pub fn log_continue(log: &mut Vec<TrackingEvent>, now: i64) -> (outcome: ContinueOutcome)
    ensures
        final(log)@ == continue_transition(old(log)@, now),
        outcome == (if old(log)@.len() == 0 {
            ContinueOutcome::NoEntries
        } else if old(log)@.last().spec_is_start() {
            ContinueOutcome::AlreadyRunning
        } else if prev_start_description(old(log)@) is Some {
            ContinueOutcome::Continued
        } else {
            ContinueOutcome::NoPriorStart
        }),
{
    if log.len() == 0 {
        return ContinueOutcome::NoEntries;
    }
    if log[log.len() - 1].is_start() {
        return ContinueOutcome::AlreadyRunning;
    }
    let ghost whole: Seq<TrackingEvent> = log@;
    let mut i: usize = log.len();
    proof {
        assert(log@.subrange(0, i as int) =~= log@);
    }
    while i > 0 && log[i - 1].is_stop()
        invariant
            log@ == whole,
            i <= log@.len(),
            prev_start_description(log@.subrange(0, i as int)) == prev_start_description(log@),
        decreases i,
    {
        proof {
            assert(log@.subrange(0, i as int).drop_last() =~= log@.subrange(0, i - 1 as int));
        }
        i = i - 1;
    }
    if i == 0 {
        proof {
            assert(log@.subrange(0, 0) =~= Seq::<TrackingEvent>::empty());
        }
        return ContinueOutcome::NoPriorStart;
    }
    proof {
        assert(log@.subrange(0, i as int).last() == log@[i - 1]);
    }
    let description = log[i - 1].description_clone();
    let now_data = TrackingData { description, time: now };
    log.push(TrackingEvent::Start(now_data));
    ContinueOutcome::Continued
}

/// A `start` command always leaves the log running, and a `start` issued
/// while the log is already running is absorbed: issuing `start` twice in
/// a row appends exactly one Start event.
pub proof fn lemma_start_idempotent(
    log: Seq<TrackingEvent>,
    d1: Option<String>,
    t1: i64,
    d2: Option<String>,
    t2: i64,
)
    ensures
        running(start_transition(log, d1, t1)),
        start_transition(start_transition(log, d1, t1), d2, t2) == start_transition(log, d1, t1),
        !running(log) ==> start_transition(log, d1, t1).len() == log.len() + 1,
        running(log) ==> start_transition(log, d1, t1) == log,
{
}

/// A `stop` command always leaves the log stopped, and a second `stop` in
/// a row is absorbed: exactly one Stop event is appended.
pub proof fn lemma_stop_idempotent(
    log: Seq<TrackingEvent>,
    d1: Option<String>,
    t1: i64,
    d2: Option<String>,
    t2: i64,
)
    ensures
        !running(stop_transition(log, d1, t1)),
        stop_transition(stop_transition(log, d1, t1), d2, t2) == stop_transition(log, d1, t1),
        running(log) || log.len() == 0 ==> stop_transition(log, d1, t1).len() == log.len() + 1,
        !(running(log) || log.len() == 0) ==> stop_transition(log, d1, t1) == log,
{
}

/// `continue` leaves the log running exactly when it appended a Start,
/// and otherwise leaves the running state untouched: the flag flips only
/// on successful transitions, never on absorbed no-ops.
pub proof fn lemma_continue_running(log: Seq<TrackingEvent>, now: i64)
    ensures
        running(continue_transition(log, now)) == (if log.len() > 0 && log.last().spec_is_stop()
            && prev_start_description(log) is Some {
            true
        } else {
            running(log)
        }),
{
}

/// `continue` right after a `stop` that closed an open session appends a
/// new Start event whose description equals the description of the Start
/// event that opened that session.
pub proof fn lemma_continue_after_stop(
    log: Seq<TrackingEvent>,
    d: Option<String>,
    t: i64,
    now: i64,
)
    requires
        running(log),
    ensures
        continue_transition(stop_transition(log, d, t), now) == stop_transition(log, d, t).push(
            (TrackingEvent::Start(
                TrackingData { description: log.last().spec_description(), time: now },
            )),
        ),
{
    let stopped = stop_transition(log, d, t);
    assert(stopped.last().spec_is_stop());
    assert(stopped.drop_last() =~= log);
    assert(prev_start_description(stopped) == prev_start_description(log));
    assert(prev_start_description(log) == Option::Some(log.last().spec_description()));
}

/// `continue` on an empty log appends nothing; the outcome is an advisory
/// notice, never a fatal error.
pub proof fn lemma_continue_empty(now: i64)
    ensures
        continue_transition(Seq::<TrackingEvent>::empty(), now) == Seq::<TrackingEvent>::empty(),
{
}

} // verus!
