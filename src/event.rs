//! Telemetry events: structured logs and numeric metrics.

use vstd::prelude::*;

use indexmap::IndexMap;

use crate::ordered::{
    attributes_clone, texts_clone, attribute_entries, attributes_insert, attributes_new, insert_entry, text_entries, texts_insert,
    texts_new,
};

verus! {

/// A log attribute value. A float is held as its IEEE-754 bit pattern.
#[derive(Debug, PartialEq)]
pub enum EventLogAttribute {
    Text(String),
    UInteger(u64),
    Integer(i64),
    Float(u64),
    Boolean(bool),
}

/// The content of an attribute value.
pub enum AttrView {
    Text(Seq<char>),
    UInteger(u64),
    Integer(i64),
    Float(u64),
    Boolean(bool),
}

impl View for EventLogAttribute {
    type V = AttrView;

    open spec fn view(&self) -> AttrView {
        match self {
            EventLogAttribute::Text(s) => AttrView::Text(s@),
            EventLogAttribute::UInteger(v) => AttrView::UInteger(*v),
            EventLogAttribute::Integer(v) => AttrView::Integer(*v),
            EventLogAttribute::Float(v) => AttrView::Float(*v),
            EventLogAttribute::Boolean(v) => AttrView::Boolean(*v),
        }
    }
}

impl EventLogAttribute {
    pub fn as_text(&self) -> (r: Option<&str>)
        ensures
            r is Some <==> self is Text,
            r matches Some(s) ==> self@ == AttrView::Text(s@),
    {
        match self {
            EventLogAttribute::Text(s) => Some(s.as_str()),
            _ => None,
        }
    }

    pub fn as_uint(&self) -> (r: Option<u64>)
        ensures
            r == match self {
                EventLogAttribute::UInteger(v) => Some(*v),
                _ => None::<u64>,
            },
    {
        match self {
            EventLogAttribute::UInteger(v) => Some(*v),
            _ => None,
        }
    }

    pub fn as_int(&self) -> (r: Option<i64>)
        ensures
            r == match self {
                EventLogAttribute::Integer(v) => Some(*v),
                _ => None::<i64>,
            },
    {
        match self {
            EventLogAttribute::Integer(v) => Some(*v),
            _ => None,
        }
    }

    /// The bit pattern of a float value.
    pub fn as_float_bits(&self) -> (r: Option<u64>)
        ensures
            r == match self {
                EventLogAttribute::Float(v) => Some(*v),
                _ => None::<u64>,
            },
    {
        match self {
            EventLogAttribute::Float(v) => Some(*v),
            _ => None,
        }
    }

    pub fn as_bool(&self) -> (r: Option<bool>)
        ensures
            r == match self {
                EventLogAttribute::Boolean(v) => Some(*v),
                _ => None::<bool>,
            },
    {
        match self {
            EventLogAttribute::Boolean(v) => Some(*v),
            _ => None,
        }
    }
}

/// A structured log line.
#[derive(Debug)]
pub struct EventLog {
    pub attributes: IndexMap<String, EventLogAttribute>,
    pub message: String,
}

/// The namespace and name of a metric.
#[derive(Debug, PartialEq, Eq)]
pub struct EventMetricName {
    pub namespace: String,
    pub name: String,
}

/// The identity of a metric series: its name and tags.
#[derive(Debug)]
pub struct EventMetricHeader {
    pub name: EventMetricName,
    pub tags: IndexMap<String, String>,
}

/// A metric reading. A gauge is held as the IEEE-754 bit pattern of its value.
#[derive(Debug, Clone, Copy, PartialEq, Eq, Structural)]
pub enum EventMetricValue {
    Counter(u64),
    Gauge(u64),
}

/// A timestamped metric reading, the timestamp in seconds since the epoch.
#[derive(Debug)]
pub struct EventMetric {
    pub timestamp: u64,
    pub header: EventMetricHeader,
    pub value: EventMetricValue,
}

/// A telemetry event.
#[derive(Debug)]
pub enum Event {
    Log(EventLog),
    Metric(EventMetric),
}

/// The content of an event.
pub enum EventView {
    Log { attributes: Seq<(Seq<char>, AttrView)>, message: Seq<char> },
    Metric {
        timestamp: u64,
        namespace: Seq<char>,
        name: Seq<char>,
        tags: Seq<(Seq<char>, Seq<char>)>,
        value: EventMetricValue,
    },
}

impl View for EventLog {
    type V = (Seq<(Seq<char>, AttrView)>, Seq<char>);

    open spec fn view(&self) -> (Seq<(Seq<char>, AttrView)>, Seq<char>) {
        (attribute_entries(self.attributes), self.message@)
    }
}

impl View for Event {
    type V = EventView;

    open spec fn view(&self) -> EventView {
        match self {
            Event::Log(l) => EventView::Log { attributes: attribute_entries(l.attributes), message: l.message@ },
            Event::Metric(m) => EventView::Metric {
                timestamp: m.timestamp,
                namespace: m.header.name.namespace@,
                name: m.header.name.name@,
                tags: text_entries(m.header.tags),
                value: m.value,
            },
        }
    }
}

impl EventLogAttribute {
    /// A text value.
    pub fn text(value: &str) -> (r: Self)
        ensures
            r@ == AttrView::Text(value@),
    {
        EventLogAttribute::Text(value.to_owned())
    }
}

impl EventLog {
    /// A log with `message` and no attributes.
    pub fn new(message: &str) -> (r: Self)
        ensures
            r@ == (Seq::<(Seq<char>, AttrView)>::empty(), message@),
    {
        EventLog { attributes: attributes_new(), message: message.to_owned() }
    }

    pub fn with_attribute(self, name: &str, value: EventLogAttribute) -> (r: Self)
        ensures
            r@ == (insert_entry(self@.0, name@, value@), self@.1),
    {
        let mut r = self;
        r.add_attribute(name, value);
        r
    }

    /// Writes `name -> value`; an existing attribute of that name keeps its place.
    pub fn add_attribute(&mut self, name: &str, value: EventLogAttribute)
        ensures
            final(self)@ == (insert_entry(old(self)@.0, name@, value@), old(self)@.1),
    {
        attributes_insert(&mut self.attributes, name.to_owned(), value);
    }
}

impl EventMetricName {
    pub fn new(namespace: &str, name: &str) -> (r: Self)
        ensures
            r.namespace@ == namespace@,
            r.name@ == name@,
    {
        EventMetricName { namespace: namespace.to_owned(), name: name.to_owned() }
    }
}

impl EventMetricHeader {
    /// A header with no tags.
    pub fn new(namespace: &str, name: &str) -> (r: Self)
        ensures
            r.name.namespace@ == namespace@,
            r.name.name@ == name@,
            text_entries(r.tags) == Seq::<(Seq<char>, Seq<char>)>::empty(),
    {
        EventMetricHeader { name: EventMetricName::new(namespace, name), tags: texts_new() }
    }

    /// Writes the tag `name -> value`; an existing tag of that name keeps its place.
    pub fn add_tag(&mut self, name: &str, value: &str)
        ensures
            final(self).name == old(self).name,
            text_entries(final(self).tags) == insert_entry(text_entries(old(self).tags), name@, value@),
    {
        texts_insert(&mut self.tags, name.to_owned(), value.to_owned());
    }

    pub fn with_tag(self, name: &str, value: &str) -> (r: Self)
        ensures
            r.name == self.name,
            text_entries(r.tags) == insert_entry(text_entries(self.tags), name@, value@),
    {
        let mut r = self;
        r.add_tag(name, value);
        r
    }
}

impl EventMetric {
    /// A metric with no tags.
    pub fn new(timestamp: u64, namespace: &str, name: &str, value: EventMetricValue) -> (r: Self)
        ensures
            Event::Metric(r)@ == (EventView::Metric {
                timestamp,
                namespace: namespace@,
                name: name@,
                tags: Seq::empty(),
                value,
            }),
    {
        EventMetric { timestamp, header: EventMetricHeader::new(namespace, name), value }
    }

    /// Writes the tag `name -> value`; an existing tag of that name keeps its place.
    pub fn add_tag(&mut self, name: &str, value: &str)
        ensures
            final(self).timestamp == old(self).timestamp,
            final(self).value == old(self).value,
            final(self).header.name == old(self).header.name,
            text_entries(final(self).header.tags) == insert_entry(text_entries(old(self).header.tags), name@, value@),
    {
        self.header.add_tag(name, value);
    }

    pub fn with_tag(self, name: &str, value: &str) -> (r: Self)
        ensures
            r.timestamp == self.timestamp,
            r.value == self.value,
            r.header.name == self.header.name,
            text_entries(r.header.tags) == insert_entry(text_entries(self.header.tags), name@, value@),
    {
        let mut r = self;
        r.add_tag(name, value);
        r
    }
}

impl From<EventLog> for Event {
    fn from(value: EventLog) -> (r: Event) {
        Event::Log(value)
    }
}

impl vstd::std_specs::convert::FromSpecImpl<EventLog> for Event {
    open spec fn obeys_from_spec() -> bool {
        true
    }

    open spec fn from_spec(v: EventLog) -> Event {
        Event::Log(v)
    }
}

impl From<EventMetric> for Event {
    fn from(value: EventMetric) -> (r: Event) {
        Event::Metric(value)
    }
}

impl vstd::std_specs::convert::FromSpecImpl<EventMetric> for Event {
    open spec fn obeys_from_spec() -> bool {
        true
    }

    open spec fn from_spec(v: EventMetric) -> Event {
        Event::Metric(v)
    }
}

impl Event {
    pub fn as_event_log(&self) -> (r: Option<&EventLog>)
        ensures
            r is Some <==> self is Log,
            r matches Some(l) ==> *self == Event::Log(*l),
    {
        match self {
            Event::Log(inner) => Some(inner),
            _ => None,
        }
    }

    pub fn as_event_metric(&self) -> (r: Option<&EventMetric>)
        ensures
            r is Some <==> self is Metric,
            r matches Some(m) ==> *self == Event::Metric(*m),
    {
        match self {
            Event::Metric(inner) => Some(inner),
            _ => None,
        }
    }

    pub fn into_event_log(self) -> (r: Option<EventLog>)
        ensures
            r is Some <==> self is Log,
            r matches Some(l) ==> self == Event::Log(l),
    {
        match self {
            Event::Log(inner) => Some(inner),
            _ => None,
        }
    }

    pub fn into_event_metric(self) -> (r: Option<EventMetric>)
        ensures
            r is Some <==> self is Metric,
            r matches Some(m) ==> self == Event::Metric(m),
    {
        match self {
            Event::Metric(inner) => Some(inner),
            _ => None,
        }
    }
}

impl Clone for EventLogAttribute {
    fn clone(&self) -> (r: Self)
        ensures
            r@ == self@,
    {
        match self {
            EventLogAttribute::Text(s) => EventLogAttribute::Text(s.clone()),
            EventLogAttribute::UInteger(v) => EventLogAttribute::UInteger(*v),
            EventLogAttribute::Integer(v) => EventLogAttribute::Integer(*v),
            EventLogAttribute::Float(v) => EventLogAttribute::Float(*v),
            EventLogAttribute::Boolean(v) => EventLogAttribute::Boolean(*v),
        }
    }
}

impl Clone for EventLog {
    fn clone(&self) -> (r: Self)
        ensures
            r@ == self@,
    {
        EventLog { attributes: attributes_clone(&self.attributes), message: self.message.clone() }
    }
}

impl Clone for EventMetricName {
    fn clone(&self) -> (r: Self)
        ensures
            r.namespace@ == self.namespace@,
            r.name@ == self.name@,
    {
        EventMetricName { namespace: self.namespace.clone(), name: self.name.clone() }
    }
}

impl Clone for EventMetricHeader {
    fn clone(&self) -> (r: Self)
        ensures
            r.name.namespace@ == self.name.namespace@,
            r.name.name@ == self.name.name@,
            text_entries(r.tags) == text_entries(self.tags),
    {
        EventMetricHeader { name: self.name.clone(), tags: texts_clone(&self.tags) }
    }
}

impl Clone for EventMetric {
    fn clone(&self) -> (r: Self)
        ensures
            Event::Metric(r)@ == Event::Metric(*self)@,
    {
        EventMetric { timestamp: self.timestamp, header: self.header.clone(), value: self.value }
    }
}

impl Clone for Event {
    fn clone(&self) -> (r: Self)
        ensures
            r@ == self@,
    {
        match self {
            Event::Log(l) => Event::Log(l.clone()),
            Event::Metric(m) => Event::Metric(m.clone()),
        }
    }
}

} // verus!
