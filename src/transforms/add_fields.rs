//! Writes configured fields into every event: attributes of logs, tags of metrics.

use vstd::prelude::*;

use indexmap::IndexMap;

use crate::event::{AttrView, Event, EventLogAttribute, EventView};
use crate::ordered::{
    attributes_insert, insert_entry, text_entries, texts_get_index, texts_insert, texts_len, texts_new,
};
use crate::resolve::StringOrEnv;

verus! {

/// Inserts the entries of `f` in order.
pub open spec fn insert_all<V>(e: Seq<(Seq<char>, V)>, f: Seq<(Seq<char>, V)>) -> Seq<(Seq<char>, V)>
    decreases f.len(),
{
    if f.len() == 0 {
        e
    } else {
        insert_entry(insert_all(e, f.drop_last()), f.last().0, f.last().1)
    }
}

/// Fields as text attributes.
pub open spec fn as_text_attributes(f: Seq<(Seq<char>, Seq<char>)>) -> Seq<(Seq<char>, AttrView)> {
    f.map_values(|p: (Seq<char>, Seq<char>)| (p.0, AttrView::Text(p.1)))
}

/// The event with the fields written in: into the attributes of a log, into the tags of a
/// metric; the last write of a key wins.
pub open spec fn with_fields(fields: Seq<(Seq<char>, Seq<char>)>, e: EventView) -> EventView {
    match e {
        EventView::Log { attributes, message } => EventView::Log {
            attributes: insert_all(attributes, as_text_attributes(fields)),
            message,
        },
        EventView::Metric { timestamp, namespace, name, tags, value } => EventView::Metric {
            timestamp,
            namespace,
            name,
            tags: insert_all(tags, fields),
            value,
        },
    }
}

/// The fields to write, resolved.
pub struct Config {
    pub fields: IndexMap<String, String>,
}

impl Config {
    pub fn new() -> (r: Self)
        ensures
            text_entries(r.fields) == Seq::<(Seq<char>, Seq<char>)>::empty(),
    {
        Config { fields: texts_new() }
    }

    /// Adds the field `name`, whose value is `value` resolved with `found`, what the
    /// environment holds under its key. A value that does not resolve is left out.
    pub fn with_field(self, name: &str, value: &StringOrEnv, found: Option<String>) -> (r: Self)
        ensures
            text_entries(r.fields) == match value.resolved(
                match found {
                    Some(s) => Some(s@),
                    None => None,
                },
            ) {
                Some(v) => insert_entry(text_entries(self.fields), name@, v),
                None => text_entries(self.fields),
            },
    {
        let mut r = self;
        match value.resolve(found) {
            Some(v) => texts_insert(&mut r.fields, name.to_owned(), v),
            None => {},
        }
        r
    }

    pub fn build(self) -> (r: Transform)
        ensures
            text_entries(r.fields) == text_entries(self.fields),
    {
        Transform { fields: self.fields }
    }
}

/// Writes its fields into every event.
pub struct Transform {
    pub fields: IndexMap<String, String>,
}

impl Transform {
    pub fn flavor(&self) -> (r: &'static str)
        ensures
            r@ == "add_fields"@,
    {
        "add_fields"
    }

    pub fn transform(&self, event: Event) -> (r: Event)
        ensures
            r@ == with_fields(text_entries(self.fields), event@),
    {
        let ghost f = text_entries(self.fields);
        let n = texts_len(&self.fields);
        match event {
            Event::Log(mut inner) => {
                let ghost start = inner@.0;
                let ghost message = inner.message@;
                let mut i: usize = 0;
                while i < n
                    invariant
                        f == text_entries(self.fields),
                        n == f.len(),
                        i <= n,
                        inner.message@ == message,
                        inner@.0 == insert_all(start, as_text_attributes(f.take(i as int))),
                    decreases n - i,
                {
                    let (k, v) = texts_get_index(&self.fields, i);
                    attributes_insert(&mut inner.attributes, k.clone(), EventLogAttribute::Text(v.clone()));
                    proof {
                        let a = as_text_attributes(f.take(i + 1));
                        assert(a.drop_last() =~= as_text_attributes(f.take(i as int)));
                    }
                    i = i + 1;
                }
                assert(f.take(i as int) =~= f);
                Event::Log(inner)
            },
            Event::Metric(mut inner) => {
                let ghost start = text_entries(inner.header.tags);
                let ghost other = (inner.timestamp, inner.header.name.namespace@, inner.header.name.name@, inner.value);
                let mut i: usize = 0;
                while i < n
                    invariant
                        f == text_entries(self.fields),
                        n == f.len(),
                        i <= n,
                        other == (inner.timestamp, inner.header.name.namespace@, inner.header.name.name@, inner.value),
                        text_entries(inner.header.tags) == insert_all(start, f.take(i as int)),
                    decreases n - i,
                {
                    let (k, v) = texts_get_index(&self.fields, i);
                    texts_insert(&mut inner.header.tags, k.clone(), v.clone());
                    proof {
                        assert(f.take(i + 1).drop_last() =~= f.take(i as int));
                    }
                    i = i + 1;
                }
                assert(f.take(i as int) =~= f);
                Event::Metric(inner)
            },
        }
    }
}

/// Writing no field leaves every event as it is.
pub proof fn lemma_no_fields_is_identity(e: EventView)
    ensures
        with_fields(Seq::empty(), e) == e,
{
    assert(as_text_attributes(Seq::empty()).len() == 0);
}

} // verus!
