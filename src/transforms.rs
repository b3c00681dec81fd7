//! The transform algebra: each transform maps an event to an event and to the outputs
//! that receive it.

use vstd::prelude::*;

use crate::condition::holds;
use crate::event::{AttrView, Event, EventView};
use crate::ordered::{entry_value, lemma_insert_then_get, lemma_remove_then_get, text_entries, text_items};
use crate::output::{default_word, ComponentWithOutputs, NamedOutput};
use crate::pattern::regex_compiles;
use crate::transforms::add_fields::{as_text_attributes, with_fields};
use crate::transforms::regex_parser::parsed_event;
use crate::transforms::remove_fields::without_fields;
use crate::transforms::route::{all_routes_compile, has_route, route_choice};

pub mod add_fields;
pub mod broadcast;
pub mod filter;
pub mod regex_parser;
pub mod remove_fields;
pub mod route;

verus! {

/// Where a transform sends an event.
#[derive(Debug, PartialEq, Eq)]
pub enum Dispatch {
    /// To one output.
    Output(NamedOutput),
    /// To every connected output.
    All,
}

/// The content of a [`Dispatch`]: an output by its name, or every output.
pub enum DispatchView {
    Output(Seq<char>),
    All,
}

impl View for Dispatch {
    type V = DispatchView;

    open spec fn view(&self) -> DispatchView {
        match self {
            Dispatch::Output(o) => DispatchView::Output(o@),
            Dispatch::All => DispatchView::All,
        }
    }
}

/// A transform as configured.
pub enum Config {
    AddFields(add_fields::Config),
    Broadcast(broadcast::Config),
    Filter(filter::Config),
    RegexParser(regex_parser::Config),
    RemoveFields(remove_fields::Config),
    Route(route::Config),
}

impl ComponentWithOutputs for Config {
    open spec fn declares(&self, output: Seq<char>) -> bool {
        match self {
            Config::Broadcast(inner) => inner.declares(output),
            Config::Filter(inner) => inner.declares(output),
            Config::Route(inner) => inner.declares(output),
            _ => output == default_word(),
        }
    }

    fn has_output(&self, output: &NamedOutput) -> (r: bool) {
        match self {
            Config::Broadcast(inner) => inner.has_output(output),
            Config::Filter(inner) => inner.has_output(output),
            Config::Route(inner) => inner.has_output(output),
            _ => output.is_default_name(),
        }
    }
}

/// A transform that failed to build.
#[derive(Debug)]
pub enum BuildError {
    Filter(filter::BuildError),
    RegexParser(regex_parser::BuildError),
    Route(route::BuildError),
}

impl Config {
    /// Whether the configuration builds: its expressions compile and a router's fallback
    /// is not also a route.
    pub open spec fn builds(&self) -> bool {
        match self {
            Config::Filter(inner) => crate::condition::compiles(inner.condition.view()),
            Config::RegexParser(inner) => regex_compiles(inner.pattern@),
            Config::Route(inner) => !has_route(inner.routes_view(), inner.fallback_name()) && all_routes_compile(
                inner.routes_view(),
            ),
            _ => true,
        }
    }

    /// The transform `t` is what the configuration builds.
    pub open spec fn built(&self, t: Transform) -> bool {
        match (self, t) {
            (Config::AddFields(c), Transform::AddFields(t)) => text_entries(t.fields) == text_entries(c.fields),
            (Config::Broadcast(_), Transform::Broadcast(_)) => true,
            (Config::Filter(c), Transform::Filter(t)) => t.condition.view() == c.condition.view() && t.fallback@
                == c.fallback_name(),
            (Config::RegexParser(c), Transform::RegexParser(t)) => t.pattern() == c.pattern@,
            (Config::RemoveFields(c), Transform::RemoveFields(t)) => text_items(t.fields) == text_items(c.fields),
            (Config::Route(c), Transform::Route(t)) => t.routes_view() == c.routes_view() && t.fallback@
                == c.fallback_name(),
            _ => false,
        }
    }

    pub fn build(self) -> (r: Result<Transform, BuildError>)
        ensures
            r is Ok <==> self.builds(),
            r matches Ok(t) ==> self.built(t),
    {
        match self {
            Config::AddFields(inner) => Ok(Transform::AddFields(inner.build())),
            Config::Broadcast(inner) => Ok(Transform::Broadcast(inner.build())),
            Config::Filter(inner) => match inner.build() {
                Ok(t) => Ok(Transform::Filter(t)),
                Err(e) => Err(BuildError::Filter(e)),
            },
            Config::RegexParser(inner) => match inner.build() {
                Ok(t) => Ok(Transform::RegexParser(t)),
                Err(e) => Err(BuildError::RegexParser(e)),
            },
            Config::RemoveFields(inner) => Ok(Transform::RemoveFields(inner.build())),
            Config::Route(inner) => match inner.build() {
                Ok(t) => Ok(Transform::Route(t)),
                Err(e) => Err(BuildError::Route(e)),
            },
        }
    }
}

/// A compiled transform.
pub enum Transform {
    AddFields(add_fields::Transform),
    Broadcast(broadcast::Transform),
    Filter(filter::Transform),
    RegexParser(regex_parser::Transform),
    RemoveFields(remove_fields::Transform),
    Route(route::Transform),
}

impl Transform {
    /// What the transform makes of an event, and where it sends the result.
    pub open spec fn outcome(&self, e: EventView) -> (EventView, DispatchView) {
        match self {
            Transform::AddFields(t) => (with_fields(text_entries(t.fields), e), DispatchView::Output(default_word())),
            Transform::Broadcast(_) => (e, DispatchView::All),
            Transform::Filter(t) => (e, if holds(t.condition.view(), e) {
                DispatchView::Output(default_word())
            } else {
                DispatchView::Output(t.fallback@)
            }),
            Transform::RegexParser(t) => (parsed_event(t.pattern(), e), DispatchView::Output(default_word())),
            Transform::RemoveFields(t) => (without_fields(text_items(t.fields), e), DispatchView::Output(default_word())),
            Transform::Route(t) => (e, route_choice(t.routes_view(), t.fallback@, e)),
        }
    }

    pub fn flavor(&self) -> &'static str {
        match self {
            Transform::AddFields(inner) => inner.flavor(),
            Transform::Broadcast(inner) => inner.flavor(),
            Transform::Filter(inner) => inner.flavor(),
            Transform::RegexParser(inner) => inner.flavor(),
            Transform::RemoveFields(inner) => inner.flavor(),
            Transform::Route(inner) => inner.flavor(),
        }
    }

    /// Applies the transform to an event.
    pub fn handle(&self, event: Event) -> (r: (Event, Dispatch))
        ensures
            (r.0@, r.1@) == self.outcome(event@),
    {
        match self {
            Transform::AddFields(inner) => (inner.transform(event), Dispatch::Output(NamedOutput::Default)),
            Transform::Broadcast(inner) => (event, inner.route()),
            Transform::Filter(inner) => {
                let d = inner.route(&event);
                (event, d)
            },
            Transform::RegexParser(inner) => (inner.handle(event), Dispatch::Output(NamedOutput::Default)),
            Transform::RemoveFields(inner) => (inner.transform(event), Dispatch::Output(NamedOutput::Default)),
            Transform::Route(inner) => {
                let d = inner.route(&event);
                (event, d)
            },
        }
    }
}

/// Last writer wins: adding a field after removing it leaves the added value, and removing
/// a field after adding it leaves no such field, for logs (attributes) and metrics (tags).
pub proof fn lemma_last_writer_wins(e: EventView, k: Seq<char>, v: Seq<char>)
    ensures
        match with_fields(seq![(k, v)], without_fields(seq![k], e)) {
            EventView::Log { attributes, .. } => entry_value(attributes, k) == Some(AttrView::Text(v)),
            EventView::Metric { tags, .. } => entry_value(tags, k) == Some(v),
        },
        match without_fields(seq![k], with_fields(seq![(k, v)], e)) {
            EventView::Log { attributes, .. } => entry_value(attributes, k) is None,
            EventView::Metric { tags, .. } => entry_value(tags, k) is None,
        },
{
    let f = seq![(k, v)];
    let ks = seq![k];
    assert(f.drop_last() =~= Seq::<(Seq<char>, Seq<char>)>::empty());
    assert(ks.drop_last() =~= Seq::<Seq<char>>::empty());
    let fa = as_text_attributes(f);
    assert(fa.drop_last() =~= Seq::<(Seq<char>, AttrView)>::empty());
    assert(fa.last() == (k, AttrView::Text(v)));
    match e {
        EventView::Log { attributes, .. } => {
            let x = crate::transforms::remove_fields::remove_all(attributes, ks);
            assert(crate::transforms::remove_fields::remove_all(attributes, ks.drop_last()) == attributes);
            assert(x == crate::ordered::remove_entry(attributes, k));
            assert(crate::transforms::add_fields::insert_all(x, fa.drop_last()) == x);
            assert(fa.len() == 1);
            assert(crate::transforms::add_fields::insert_all(x, fa) == crate::ordered::insert_entry(
                crate::transforms::add_fields::insert_all(x, fa.drop_last()), k, AttrView::Text(v)));
            let y = crate::transforms::add_fields::insert_all(attributes, fa);
            assert(crate::transforms::add_fields::insert_all(attributes, fa.drop_last()) == attributes);
            assert(crate::transforms::remove_fields::remove_all(y, ks.drop_last()) == y);
            lemma_insert_then_get(crate::ordered::remove_entry(attributes, k), k, AttrView::Text(v));
            lemma_remove_then_get(crate::ordered::insert_entry(attributes, k, AttrView::Text(v)), k);
        },
        EventView::Metric { tags, .. } => {
            let x = crate::transforms::remove_fields::remove_all(tags, ks);
            assert(crate::transforms::remove_fields::remove_all(tags, ks.drop_last()) == tags);
            assert(crate::transforms::add_fields::insert_all(x, f.drop_last()) == x);
            assert(crate::transforms::add_fields::insert_all(tags, f.drop_last()) == tags);
            let y = crate::transforms::add_fields::insert_all(tags, f);
            assert(crate::transforms::remove_fields::remove_all(y, ks.drop_last()) == y);
            lemma_insert_then_get(crate::ordered::remove_entry(tags, k), k, v);
            lemma_remove_then_get(crate::ordered::insert_entry(tags, k, v), k);
        },
    }
}

} // verus!
