//! Removes configured fields from every event: attributes of logs, tags of metrics.

use vstd::prelude::*;

use indexmap::IndexSet;

use crate::event::{Event, EventView};
use crate::ordered::{
    attributes_remove, items_get_index, items_insert, items_len, items_new, insert_item, remove_entry,
    text_items, texts_remove,
};

verus! {

/// Removes each key of `ks` in turn.
pub open spec fn remove_all<V>(e: Seq<(Seq<char>, V)>, ks: Seq<Seq<char>>) -> Seq<(Seq<char>, V)>
    decreases ks.len(),
{
    if ks.len() == 0 {
        e
    } else {
        remove_entry(remove_all(e, ks.drop_last()), ks.last())
    }
}

/// The event without the fields: attributes of a log, tags of a metric.
pub open spec fn without_fields(ks: Seq<Seq<char>>, e: EventView) -> EventView {
    match e {
        EventView::Log { attributes, message } => EventView::Log { attributes: remove_all(attributes, ks), message },
        EventView::Metric { timestamp, namespace, name, tags, value } => EventView::Metric {
            timestamp,
            namespace,
            name,
            tags: remove_all(tags, ks),
            value,
        },
    }
}

/// The fields to remove.
pub struct Config {
    pub fields: IndexSet<String>,
}

impl Config {
    pub fn new() -> (r: Self)
        ensures
            text_items(r.fields) == Seq::<Seq<char>>::empty(),
    {
        Config { fields: items_new() }
    }

    pub fn with_field(self, name: &str) -> (r: Self)
        ensures
            text_items(r.fields) == insert_item(text_items(self.fields), name@),
    {
        let mut r = self;
        items_insert(&mut r.fields, name.to_owned());
        r
    }

    pub fn build(self) -> (r: Transform)
        ensures
            text_items(r.fields) == text_items(self.fields),
    {
        Transform { fields: self.fields }
    }
}

/// Removes its fields from every event.
pub struct Transform {
    pub fields: IndexSet<String>,
}

impl Transform {
    pub fn flavor(&self) -> (r: &'static str)
        ensures
            r@ == "remove_fields"@,
    {
        "remove_fields"
    }

    pub fn transform(&self, event: Event) -> (r: Event)
        ensures
            r@ == without_fields(text_items(self.fields), event@),
    {
        let ghost ks = text_items(self.fields);
        let n = items_len(&self.fields);
        match event {
            Event::Log(mut inner) => {
                let ghost start = inner@.0;
                let ghost message = inner.message@;
                let mut i: usize = 0;
                while i < n
                    invariant
                        ks == text_items(self.fields),
                        n == ks.len(),
                        i <= n,
                        inner.message@ == message,
                        inner@.0 == remove_all(start, ks.take(i as int)),
                    decreases n - i,
                {
                    let k = items_get_index(&self.fields, i);
                    attributes_remove(&mut inner.attributes, k.as_str());
                    proof {
                        assert(ks.take(i + 1).drop_last() =~= ks.take(i as int));
                    }
                    i = i + 1;
                }
                assert(ks.take(i as int) =~= ks);
                Event::Log(inner)
            },
            Event::Metric(mut inner) => {
                let ghost start = crate::ordered::text_entries(inner.header.tags);
                let ghost other = (inner.timestamp, inner.header.name.namespace@, inner.header.name.name@, inner.value);
                let mut i: usize = 0;
                while i < n
                    invariant
                        ks == text_items(self.fields),
                        n == ks.len(),
                        i <= n,
                        other == (inner.timestamp, inner.header.name.namespace@, inner.header.name.name@, inner.value),
                        crate::ordered::text_entries(inner.header.tags) == remove_all(start, ks.take(i as int)),
                    decreases n - i,
                {
                    let k = items_get_index(&self.fields, i);
                    texts_remove(&mut inner.header.tags, k.as_str());
                    proof {
                        assert(ks.take(i + 1).drop_last() =~= ks.take(i as int));
                    }
                    i = i + 1;
                }
                assert(ks.take(i as int) =~= ks);
                Event::Metric(inner)
            },
        }
    }
}

/// Removing no field leaves every event as it is.
pub proof fn lemma_no_removal_is_identity(e: EventView)
    ensures
        without_fields(Seq::empty(), e) == e,
{
}

} // verus!
