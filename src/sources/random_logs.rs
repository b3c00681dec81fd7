//! A source that emits the same log line at a fixed interval.

use vstd::prelude::*;

use crate::event::{AttrView, Event, EventLog, EventLogAttribute, EventView};
use crate::helper::now;
use crate::ordered::insert_entry;

verus! {

/// The interval used when none is configured, in milliseconds.
pub const DEFAULT_INTERVAL_MS: u64 = 1000;

/// How often to emit.
pub struct Config {
    /// Interval between two events, in milliseconds.
    pub interval: Option<u64>,
}

impl Default for Config {
    fn default() -> (r: Self)
        ensures
            r.interval is None,
    {
        Config { interval: None }
    }
}

impl Config {
    /// The interval between two events, in milliseconds.
    pub fn interval_ms(&self) -> (r: u64)
        ensures
            r == match self.interval {
                Some(v) => v,
                None => DEFAULT_INTERVAL_MS,
            },
    {
        match self.interval {
            Some(v) => v,
            None => DEFAULT_INTERVAL_MS,
        }
    }
}

/// The event emitted at time `timestamp`, in seconds since the epoch.
pub open spec fn generated(timestamp: u64) -> EventView {
    EventView::Log {
        attributes: insert_entry(
            insert_entry(
                insert_entry(Seq::empty(), "hostname"@, AttrView::Text("fake-server"@)),
                "ddsource"@,
                AttrView::Text("tiny-vector"@),
            ),
            "timestamp"@,
            AttrView::UInteger(timestamp),
        ),
        message: "Hello World!"@,
    }
}

/// The log emitted at `timestamp`.
pub fn generate_at(timestamp: u64) -> (r: Event)
    ensures
        r@ == generated(timestamp),
{
    Event::Log(
        EventLog::new("Hello World!").with_attribute("hostname", EventLogAttribute::text("fake-server")).with_attribute(
            "ddsource",
            EventLogAttribute::text("tiny-vector"),
        ).with_attribute("timestamp", EventLogAttribute::UInteger(timestamp)),
    )
}

/// The log emitted now.
pub fn generate() -> (r: Event)
    ensures
        exists|t: u64| r@ == generated(t),
{
    let t = now();
    generate_at(t)
}

} // verus!
