use vstd::prelude::*;

verus! {

/// The payload carried by every event: an optional free-text description
/// and the absolute instant of the event, as whole seconds since the Unix
/// epoch in UTC.
#[derive(Debug, PartialEq, Eq)]
pub struct TrackingData {
    pub description: Option<String>,
    pub time: i64,
}

/// A single entry of the log: tracking either began or ended at an instant.
#[derive(Debug, PartialEq, Eq)]
pub enum TrackingEvent {
    Start(TrackingData),
    Stop(TrackingData),
}

impl TrackingEvent {
    /// The instant of the event, whichever kind it is.
    pub open spec fn spec_time(self) -> i64 {
        match self {
            TrackingEvent::Start(d) => d.time,
            TrackingEvent::Stop(d) => d.time,
        }
    }

    /// The description of the event, whichever kind it is.
    pub open spec fn spec_description(self) -> Option<String> {
        match self {
            TrackingEvent::Start(d) => d.description,
            TrackingEvent::Stop(d) => d.description,
        }
    }

    pub open spec fn spec_is_start(self) -> bool {
        match self {
            TrackingEvent::Start(_) => true,
            TrackingEvent::Stop(_) => false,
        }
    }

    pub open spec fn spec_is_stop(self) -> bool {
        !self.spec_is_start()
    }

    pub fn time(&self) -> (t: i64)
        ensures
            t == self.spec_time(),
    {
        match self {
            TrackingEvent::Start(TrackingData { time, .. }) => *time,
            TrackingEvent::Stop(TrackingData { time, .. }) => *time,
        }
    }

    pub fn is_start(&self) -> (b: bool)
        ensures
            b == self.spec_is_start(),
    {
        match self {
            TrackingEvent::Start(_) => true,
            TrackingEvent::Stop(_) => false,
        }
    }

    pub fn is_stop(&self) -> (b: bool)
        ensures
            b == self.spec_is_stop(),
    {
        match self {
            TrackingEvent::Start(_) => false,
            TrackingEvent::Stop(_) => true,
        }
    }

    /// A copy of the whole event, equal to the original.
    pub fn duplicate(&self) -> (r: TrackingEvent)
        ensures
            r == *self,
    {
        match self {
            TrackingEvent::Start(d) => TrackingEvent::Start(
                TrackingData { description: clone_description(&d.description), time: d.time },
            ),
            TrackingEvent::Stop(d) => TrackingEvent::Stop(
                TrackingData { description: clone_description(&d.description), time: d.time },
            ),
        }
    }

    /// A copy of the description, for callers that must keep the event.
    pub fn description_clone(&self) -> (d: Option<String>)
        ensures
            d == self.spec_description(),
    {
        match self {
            TrackingEvent::Start(TrackingData { description, .. }) => clone_description(
                description,
            ),
            TrackingEvent::Stop(TrackingData { description, .. }) => clone_description(description),
        }
    }
}

/// Copies an optional description, preserving its value.
pub fn clone_description(d: &Option<String>) -> (r: Option<String>)
    ensures
        r == *d,
{
    match d {
        Option::Some(s) => Option::Some(s.clone()),
        Option::None => Option::None,
    }
}

} // verus!
