//! Sends each event to the first route whose condition it satisfies, or to a fallback.

use vstd::prelude::*;

use indexmap::IndexMap;

use crate::condition::{self, compiles, holds, CondView, Condition};
use crate::event::{Event, EventView};
use crate::output::{ComponentWithOutputs, NamedOutput};
use crate::transforms::filter::{default_fallback, dropped_word};
use crate::ordered::{insert_entry, route_entries, routes_get_index, routes_insert, routes_len, routes_new};
use crate::text::str_eq;
use crate::transforms::{Dispatch, DispatchView};

verus! {

/// Some route has the name `o`.
pub open spec fn has_route(s: Seq<(Seq<char>, CondView)>, o: Seq<char>) -> bool {
    exists|i: int| 0 <= i < s.len() && s[i].0 == o
}

/// A router as configured.
pub struct Config {
    /// The route conditions by output name, in order.
    pub routes: IndexMap<String, condition::Config>,
    /// The output of the events that match no route; `dropped` when absent.
    pub fallback: Option<NamedOutput>,
}

/// A router that failed to build.
#[derive(Debug)]
pub enum BuildError {
    ConditionFailed(condition::BuildError),
    /// The fallback output is also the name of a route.
    FallbackRouteConflict { name: NamedOutput },
}

impl Config {
    pub fn new(fallback: Option<NamedOutput>) -> (r: Self)
        ensures
            r.routes_view().len() == 0,
            r.fallback == fallback,
    {
        Config { routes: routes_new(), fallback }
    }

    pub open spec fn routes_view(&self) -> Seq<(Seq<char>, CondView)> {
        route_entries(self.routes)
    }

    pub open spec fn fallback_name(&self) -> Seq<char> {
        match self.fallback {
            Some(o) => o@,
            None => dropped_word(),
        }
    }

    /// Sets the route `name`: an existing route of that name keeps its place and takes the
    /// new condition, a new one goes last.
    pub fn with_route(self, name: NamedOutput, condition: condition::Config) -> (r: Self)
        ensures
            r.fallback == self.fallback,
            r.routes_view() == insert_entry(self.routes_view(), name@, condition.view()),
    {
        let mut r = self;
        routes_insert(&mut r.routes, name.as_str().to_owned(), condition);
        r
    }
}

/// Every route condition compiles.
pub open spec fn all_routes_compile(s: Seq<(Seq<char>, CondView)>) -> bool {
    forall|i: int| 0 <= i < s.len() ==> compiles(#[trigger] s[i].1)
}

/// Route `i` is the first whose condition holds of the event.
pub open spec fn is_first_match(s: Seq<(Seq<char>, CondView)>, e: EventView, i: int) -> bool {
    0 <= i < s.len() && holds(s[i].1, e) && forall|j: int| 0 <= j < i ==> !holds(s[j].1, e)
}

/// The output that the routes choose for the event: the first route whose condition
/// holds, else the fallback.
pub open spec fn route_choice(s: Seq<(Seq<char>, CondView)>, fallback: Seq<char>, e: EventView) -> DispatchView {
    if some_route_matches(s, e) {
        DispatchView::Output(s[choose|i: int| is_first_match(s, e, i)].0)
    } else {
        DispatchView::Output(fallback)
    }
}

proof fn lemma_first_match_unique(s: Seq<(Seq<char>, CondView)>, e: EventView, a: int, b: int)
    requires
        is_first_match(s, e, a),
        is_first_match(s, e, b),
    ensures
        a == b,
{
}

/// Some route condition holds of the event.
pub open spec fn some_route_matches(s: Seq<(Seq<char>, CondView)>, e: EventView) -> bool {
    exists|i: int| 0 <= i < s.len() && holds(s[i].1, e)
}

/// The output called `name`.
fn output_named(name: &String) -> (r: NamedOutput)
    ensures
        r@ == name@,
{
    if str_eq(name.as_str(), "default") {
        proof {
            reveal_strlit("default");
            assert("default"@ =~= crate::output::default_word());
        }
        NamedOutput::Default
    } else {
        NamedOutput::Named(name.clone())
    }
}

impl Config {
    fn is_fallback(&self, output: &NamedOutput) -> (r: bool)
        ensures
            r == (output@ == self.fallback_name()),
    {
        match &self.fallback {
            Some(named) => named.same_as(output),
            None => default_fallback().same_as(output),
        }
    }

    fn has_route_named(&self, output: &NamedOutput) -> (r: bool)
        ensures
            r == has_route(self.routes_view(), output@),
    {
        let ghost v = self.routes_view();
        let n = routes_len(&self.routes);
        let mut i: usize = 0;
        while i < n
            invariant
                v == self.routes_view(),
                n == v.len(),
                i <= n,
                forall|j: int| 0 <= j < i ==> v[j].0 != output@,
            decreases n - i,
        {
            let (name, _) = routes_get_index(&self.routes, i);
            if str_eq(name.as_str(), output.as_str()) {
                assert(v[i as int].0 == output@);
                return true;
            }
            i = i + 1;
        }
        false
    }

    /// Compiles the routes. The fallback output may not also be a route.
    pub fn build(self) -> (r: Result<Transform, BuildError>)
        ensures
            has_route(self.routes_view(), self.fallback_name()) ==> (r matches Err(
                BuildError::FallbackRouteConflict { name },
            ) && name@ == self.fallback_name()),
            !has_route(self.routes_view(), self.fallback_name()) ==> (r is Ok <==> all_routes_compile(
                self.routes_view(),
            )),
            !has_route(self.routes_view(), self.fallback_name()) ==> (r matches Err(e) ==> e is ConditionFailed),
            r matches Ok(t) ==> t.routes_view() == self.routes_view() && t.fallback@ == self.fallback_name(),
    {
        let fallback = match &self.fallback {
            Some(o) => o.clone(),
            None => default_fallback(),
        };
        if self.has_route_named(&fallback) {
            return Err(BuildError::FallbackRouteConflict { name: fallback });
        }
        let ghost v = self.routes_view();
        let n = routes_len(&self.routes);
        let mut routes: Vec<(NamedOutput, Condition)> = Vec::new();
        let mut i: usize = 0;
        while i < n
            invariant
                v == self.routes_view(),
                n == v.len(),
                i <= n,
                compiled_routes_view(routes@) == v.take(i as int),
                forall|j: int| 0 <= j < i ==> compiles(#[trigger] v[j].1),
                !has_route(v, self.fallback_name()),
                fallback@ == self.fallback_name(),
            decreases n - i,
        {
            let (name, config) = routes_get_index(&self.routes, i);
            assert(v[i as int] == (name@, config.view()));
            match config.build() {
                Ok(c) => {
                    let ghost before = routes@;
                    let n2 = output_named(name);
                    routes.push((n2, c));
                    assert(compiled_routes_view(routes@) =~= compiled_routes_view(before).push((name@, config.view())));
                    assert(v.take(i + 1) =~= v.take(i as int).push(v[i as int]));
                },
                Err(e) => {
                    assert(!compiles(v[i as int].1));
                    assert(!all_routes_compile(v));
                    return Err(BuildError::ConditionFailed(e));
                },
            }
            i = i + 1;
        }
        assert(v.take(i as int) =~= v);
        Ok(Transform { routes, fallback })
    }
}

impl ComponentWithOutputs for Config {
    /// The route outputs and the fallback output.
    open spec fn declares(&self, output: Seq<char>) -> bool {
        has_route(self.routes_view(), output) || output == self.fallback_name()
    }

    fn has_output(&self, output: &NamedOutput) -> (r: bool) {
        self.has_route_named(output) || self.is_fallback(output)
    }
}

/// Compiled routes by output name and condition.
pub open spec fn compiled_routes_view(s: Seq<(NamedOutput, Condition)>) -> Seq<(Seq<char>, CondView)> {
    s.map_values(|p: (NamedOutput, Condition)| (p.0@, p.1.view()))
}

/// A compiled router.
pub struct Transform {
    pub routes: Vec<(NamedOutput, Condition)>,
    pub fallback: NamedOutput,
}

impl Transform {
    pub open spec fn routes_view(&self) -> Seq<(Seq<char>, CondView)> {
        compiled_routes_view(self.routes@)
    }

    pub fn flavor(&self) -> (r: &'static str)
        ensures
            r@ == "route"@,
    {
        "route"
    }

    /// The output of the event: the first route whose condition holds, else the fallback.
    pub fn route(&self, event: &Event) -> (r: Dispatch)
        ensures
            some_route_matches(self.routes_view(), event@) ==> exists|i: int|
                is_first_match(self.routes_view(), event@, i) && r@ == DispatchView::Output(self.routes_view()[i].0),
            !some_route_matches(self.routes_view(), event@) ==> r@ == DispatchView::Output(self.fallback@),
            r@ == route_choice(self.routes_view(), self.fallback@, event@),
    {
        let ghost v = self.routes_view();
        let mut i: usize = 0;
        while i < self.routes.len()
            invariant
                v == self.routes_view(),
                i <= self.routes@.len(),
                forall|j: int| 0 <= j < i ==> !holds(#[trigger] v[j].1, event@),
            decreases self.routes@.len() - i,
        {
            let (output, condition) = &self.routes[i];
            assert(v[i as int] == (output@, condition.view()));
            if condition.evaluate(event) {
                assert(is_first_match(v, event@, i as int));
                proof {
                    let k = choose|k: int| is_first_match(v, event@, k);
                    lemma_first_match_unique(v, event@, i as int, k);
                }
                return Dispatch::Output(output.clone());
            }
            i = i + 1;
        }
        Dispatch::Output(self.fallback.clone())
    }
}

} // verus!
