//! The condition language: boolean predicates over a single event.

use vstd::prelude::*;

use crate::event::{Event, EventView};
use crate::ordered::{attributes_get, entry_value, texts_get};
use crate::pattern::{regex_compiles, regex_is_match, Pattern};
use crate::text::{ends_with, starts_with, str_eq};

verus! {

/// How a tag value is checked.
pub enum CheckView {
    Exists,
    Equals(Seq<char>),
    EndsWith(Seq<char>),
    Matches(Seq<char>),
    StartsWith(Seq<char>),
}

/// The content of a condition, with regular expressions given by their source.
pub enum CondView {
    And(Seq<CondView>),
    Or(Seq<CondView>),
    Not(Box<CondView>),
    HasAttribute(Seq<char>),
    HasTag(Seq<char>, CheckView),
    IsLog,
    IsMetric,
}

/// Whether the tag value `v` passes the check.
pub open spec fn check_holds(c: CheckView, v: Seq<char>) -> bool {
    match c {
        CheckView::Exists => true,
        CheckView::Equals(x) => v == x,
        CheckView::StartsWith(x) => x.len() <= v.len() && v.take(x.len() as int) == x,
        CheckView::EndsWith(x) => x.len() <= v.len() && v.skip(v.len() - x.len()) == x,
        CheckView::Matches(p) => regex_is_match(p, v),
    }
}

/// Whether the condition holds of the event.
pub open spec fn holds(c: CondView, e: EventView) -> bool
    decreases c,
{
    match c {
        CondView::And(v) => all_hold(v, e),
        CondView::Or(v) => any_holds(v, e),
        CondView::Not(b) => !holds(*b, e),
        CondView::HasAttribute(n) => match e {
            EventView::Log { attributes, .. } => entry_value(attributes, n) is Some,
            _ => false,
        },
        CondView::HasTag(n, check) => match e {
            EventView::Metric { tags, .. } => match entry_value(tags, n) {
                Some(v) => check_holds(check, v),
                None => false,
            },
            _ => false,
        },
        CondView::IsLog => e is Log,
        CondView::IsMetric => e is Metric,
    }
}

/// Every condition of the list holds; true of the empty list.
pub open spec fn all_hold(s: Seq<CondView>, e: EventView) -> bool
    decreases s,
{
    if s.len() == 0 {
        true
    } else {
        all_hold(s.drop_last(), e) && holds(s.last(), e)
    }
}

/// Some condition of the list holds; false of the empty list.
pub open spec fn any_holds(s: Seq<CondView>, e: EventView) -> bool
    decreases s,
{
    if s.len() == 0 {
        false
    } else {
        any_holds(s.drop_last(), e) || holds(s.last(), e)
    }
}

/// Every regular expression in the condition compiles.
pub open spec fn compiles(c: CondView) -> bool
    decreases c,
{
    match c {
        CondView::And(v) => all_compile(v),
        CondView::Or(v) => all_compile(v),
        CondView::Not(b) => compiles(*b),
        CondView::HasTag(_, CheckView::Matches(p)) => regex_compiles(p),
        _ => true,
    }
}

pub open spec fn all_compile(s: Seq<CondView>) -> bool
    decreases s,
{
    if s.len() == 0 {
        true
    } else {
        all_compile(s.drop_last()) && compiles(s.last())
    }
}

/// How a tag is checked, as configured.
pub enum CheckConfig {
    Exists,
    Equals { value: String },
    EndsWith { value: String },
    Matches { regex: String },
    StartsWith { value: String },
}

impl Default for CheckConfig {
    fn default() -> (r: Self)
        ensures
            r is Exists,
    {
        CheckConfig::Exists
    }
}

impl CheckConfig {
    pub open spec fn view(&self) -> CheckView {
        match self {
            CheckConfig::Exists => CheckView::Exists,
            CheckConfig::Equals { value } => CheckView::Equals(value@),
            CheckConfig::EndsWith { value } => CheckView::EndsWith(value@),
            CheckConfig::Matches { regex } => CheckView::Matches(regex@),
            CheckConfig::StartsWith { value } => CheckView::StartsWith(value@),
        }
    }

    /// Compiles the check; a regular expression that does not compile is an error.
    pub fn build(&self) -> (r: Result<Check, BuildError>)
        ensures
            r is Ok <==> (self.view() matches CheckView::Matches(p) ==> regex_compiles(p)),
            r matches Ok(c) ==> c.view() == self.view(),
    {
        match self {
            CheckConfig::Exists => Ok(Check::Exists),
            CheckConfig::Equals { value } => Ok(Check::Equals { value: value.clone() }),
            CheckConfig::EndsWith { value } => Ok(Check::EndsWith { value: value.clone() }),
            CheckConfig::StartsWith { value } => Ok(Check::StartsWith { value: value.clone() }),
            CheckConfig::Matches { regex } => match Pattern::new(regex.as_str()) {
                Ok(p) => Ok(Check::Matches { regex: p }),
                Err(e) => Err(BuildError::InvalidPattern(e)),
            },
        }
    }
}

/// A compiled tag check.
pub enum Check {
    Exists,
    Equals { value: String },
    EndsWith { value: String },
    Matches { regex: Pattern },
    StartsWith { value: String },
}

impl Check {
    pub open spec fn view(&self) -> CheckView {
        match self {
            Check::Exists => CheckView::Exists,
            Check::Equals { value } => CheckView::Equals(value@),
            Check::EndsWith { value } => CheckView::EndsWith(value@),
            Check::Matches { regex } => CheckView::Matches(regex.source()),
            Check::StartsWith { value } => CheckView::StartsWith(value@),
        }
    }

    /// Whether the tag value passes the check.
    pub fn check(&self, v: &str) -> (r: bool)
        ensures
            r == check_holds(self.view(), v@),
    {
        match self {
            Check::Exists => true,
            Check::Equals { value } => str_eq(v, value.as_str()),
            Check::EndsWith { value } => ends_with(v, value.as_str()),
            Check::StartsWith { value } => starts_with(v, value.as_str()),
            Check::Matches { regex } => regex.is_match(v),
        }
    }
}

/// A condition that failed to compile.
#[derive(Debug)]
pub enum BuildError {
    InvalidPattern(regex::Error),
}

/// A condition as configured.
pub enum Config {
    And(Vec<Config>),
    HasAttribute { name: String },
    HasTag { name: String, check: CheckConfig },
    IsLog,
    IsMetric,
    Not(Box<Config>),
    Or(Vec<Config>),
}

impl Config {
    pub open spec fn view(&self) -> CondView
        decreases self,
    {
        match self {
            Config::And(v) => CondView::And(configs_view(v@)),
            Config::Or(v) => CondView::Or(configs_view(v@)),
            Config::Not(b) => CondView::Not(Box::new((**b).view())),
            Config::HasAttribute { name } => CondView::HasAttribute(name@),
            Config::HasTag { name, check } => CondView::HasTag(name@, check.view()),
            Config::IsLog => CondView::IsLog,
            Config::IsMetric => CondView::IsMetric,
        }
    }
}

pub open spec fn configs_view(s: Seq<Config>) -> Seq<CondView>
    decreases s,
{
    if s.len() == 0 {
        Seq::empty()
    } else {
        configs_view(s.drop_last()).push(s.last().view())
    }
}

/// A compiled condition.
pub enum Condition {
    And(Vec<Condition>),
    Or(Vec<Condition>),
    Not(Box<Condition>),
    HasAttribute { name: String },
    HasTag { name: String, check: Check },
    IsMetric,
    IsLog,
}

impl Condition {
    pub open spec fn view(&self) -> CondView
        decreases self,
    {
        match self {
            Condition::And(v) => CondView::And(conditions_view(v@)),
            Condition::Or(v) => CondView::Or(conditions_view(v@)),
            Condition::Not(b) => CondView::Not(Box::new((**b).view())),
            Condition::HasAttribute { name } => CondView::HasAttribute(name@),
            Condition::HasTag { name, check } => CondView::HasTag(name@, check.view()),
            Condition::IsLog => CondView::IsLog,
            Condition::IsMetric => CondView::IsMetric,
        }
    }
}

pub open spec fn conditions_view(s: Seq<Condition>) -> Seq<CondView>
    decreases s,
{
    if s.len() == 0 {
        Seq::empty()
    } else {
        conditions_view(s.drop_last()).push(s.last().view())
    }
}

proof fn lemma_conditions_view_take(s: Seq<Condition>, i: int)
    requires
        0 <= i < s.len(),
    ensures
        conditions_view(s.take(i + 1)) == conditions_view(s.take(i)).push(s[i].view()),
{
    assert(s.take(i + 1).drop_last() =~= s.take(i));
}

proof fn lemma_configs_view_take(s: Seq<Config>, i: int)
    requires
        0 <= i < s.len(),
    ensures
        configs_view(s.take(i + 1)) == configs_view(s.take(i)).push(s[i].view()),
{
    assert(s.take(i + 1).drop_last() =~= s.take(i));
}

proof fn lemma_push_drop_last(s: Seq<CondView>, c: CondView)
    ensures
        s.push(c).drop_last() == s,
        s.push(c).last() == c,
{
    assert(s.push(c).drop_last() =~= s);
}

impl Condition {
    /// Whether the condition holds of the event.
    pub fn evaluate(&self, event: &Event) -> (r: bool)
        ensures
            r == holds(self.view(), event@),
        decreases self,
    {
        match self {
            Condition::And(v) => {
                proof {
                    assert forall|j: int| 0 <= j < v@.len() implies decreases_to!(self => #[trigger] v@[j]) by {
                        assert(decreases_to!(self => self->And_0));
                        assert(decreases_to!(self->And_0 => self->And_0@));
                        assert(decreases_to!(self->And_0@ => self->And_0@[j]));
                    }
                }
                let mut ok = true;
                let mut i: usize = 0;
                while i < v.len()
                    invariant
                        forall|j: int| 0 <= j < v@.len() ==> decreases_to!(self => #[trigger] v@[j]),
                        i <= v@.len(),
                        ok == all_hold(conditions_view(v@.take(i as int)), event@),
                    decreases v@.len() - i,
                {
                    let x = v[i].evaluate(event);
                    proof {
                        lemma_conditions_view_take(v@, i as int);
                        lemma_push_drop_last(conditions_view(v@.take(i as int)), v@[i as int].view());
                    }
                    ok = ok && x;
                    i = i + 1;
                }
                assert(v@.take(i as int) =~= v@);
                ok
            },
            Condition::Or(v) => {
                proof {
                    assert forall|j: int| 0 <= j < v@.len() implies decreases_to!(self => #[trigger] v@[j]) by {
                        assert(decreases_to!(self => self->Or_0));
                        assert(decreases_to!(self->Or_0 => self->Or_0@));
                        assert(decreases_to!(self->Or_0@ => self->Or_0@[j]));
                    }
                }
                let mut found = false;
                let mut i: usize = 0;
                while i < v.len()
                    invariant
                        forall|j: int| 0 <= j < v@.len() ==> decreases_to!(self => #[trigger] v@[j]),
                        i <= v@.len(),
                        found == any_holds(conditions_view(v@.take(i as int)), event@),
                    decreases v@.len() - i,
                {
                    let x = v[i].evaluate(event);
                    proof {
                        lemma_conditions_view_take(v@, i as int);
                        lemma_push_drop_last(conditions_view(v@.take(i as int)), v@[i as int].view());
                    }
                    found = found || x;
                    i = i + 1;
                }
                assert(v@.take(i as int) =~= v@);
                found
            },
            Condition::Not(b) => !b.evaluate(event),
            Condition::HasAttribute { name } => match event {
                Event::Log(l) => attributes_get(&l.attributes, name.as_str()).is_some(),
                Event::Metric(_) => false,
            },
            Condition::HasTag { name, check } => match event {
                Event::Metric(m) => match texts_get(&m.header.tags, name.as_str()) {
                    Some(v) => check.check(v.as_str()),
                    None => false,
                },
                Event::Log(_) => false,
            },
            Condition::IsLog => matches!(event, Event::Log(_)),
            Condition::IsMetric => matches!(event, Event::Metric(_)),
        }
    }
}

impl Config {
    pub fn is_log() -> (r: Self)
        ensures
            r.view() == CondView::IsLog,
    {
        Config::IsLog
    }

    pub fn is_metric() -> (r: Self)
        ensures
            r.view() == CondView::IsMetric,
    {
        Config::IsMetric
    }

    /// Compiles the condition; a regular expression that does not compile is an error.
    pub fn build(&self) -> (r: Result<Condition, BuildError>)
        ensures
            r is Ok <==> compiles(self.view()),
            r matches Ok(c) ==> c.view() == self.view(),
        decreases self,
    {
        match self {
            Config::And(v) => {
                let built = build_all(v)?;
                Ok(Condition::And(built))
            },
            Config::Or(v) => {
                let built = build_all(v)?;
                Ok(Condition::Or(built))
            },
            Config::Not(b) => {
                let inner = b.build()?;
                Ok(Condition::Not(Box::new(inner)))
            },
            Config::HasAttribute { name } => Ok(Condition::HasAttribute { name: name.clone() }),
            Config::HasTag { name, check } => {
                let check = check.build()?;
                Ok(Condition::HasTag { name: name.clone(), check })
            },
            Config::IsLog => Ok(Condition::IsLog),
            Config::IsMetric => Ok(Condition::IsMetric),
        }
    }
}

fn build_all(v: &Vec<Config>) -> (r: Result<Vec<Condition>, BuildError>)
    ensures
        r is Ok <==> all_compile(configs_view(v@)),
        r matches Ok(c) ==> conditions_view(c@) == configs_view(v@),
    decreases v, 0int,
{
    let mut out: Vec<Condition> = Vec::new();
    let mut i: usize = 0;
    while i < v.len()
        invariant
            i <= v@.len(),
            all_compile(configs_view(v@.take(i as int))),
            conditions_view(out@) == configs_view(v@.take(i as int)),
        decreases v@.len() - i,
    {
        proof {
            lemma_configs_view_take(v@, i as int);
            lemma_push_drop_last(configs_view(v@.take(i as int)), v@[i as int].view());
        }
        match v[i].build() {
            Ok(c) => {
                let ghost before = out@;
                out.push(c);
                proof {
                    assert(out@.drop_last() =~= before);
                }
            },
            Err(e) => {
                proof {
                    lemma_configs_view_take_all(v@, i as int + 1);
                    if all_compile(configs_view(v@)) {
                        lemma_all_compile_prefix(configs_view(v@), i as int + 1);
                    }
                }
                return Err(e);
            },
        }
        i = i + 1;
    }
    assert(v@.take(i as int) =~= v@);
    Ok(out)
}

proof fn lemma_configs_view_take_all(s: Seq<Config>, k: int)
    requires
        0 <= k <= s.len(),
    ensures
        configs_view(s).len() == s.len(),
        configs_view(s.take(k)) == configs_view(s).take(k),
    decreases s.len(),
{
    if s.len() > 0 {
        if k < s.len() {
            assert(s.drop_last().take(k) =~= s.take(k));
            lemma_configs_view_take_all(s.drop_last(), k);
            assert(configs_view(s).take(k) =~= configs_view(s.drop_last()).take(k));
        } else {
            lemma_configs_view_take_all(s.drop_last(), k - 1);
            assert(s.take(k) =~= s);
            assert(configs_view(s).take(k) =~= configs_view(s));
        }
    } else {
        assert(s.take(k) =~= s);
        assert(configs_view(s).take(k) =~= configs_view(s));
    }
}

proof fn lemma_all_compile_prefix(s: Seq<CondView>, i: int)
    requires
        0 <= i <= s.len(),
        all_compile(s),
    ensures
        all_compile(s.take(i)),
    decreases s.len(),
{
    if i < s.len() {
        assert(s.drop_last().take(i) =~= s.take(i));
        lemma_all_compile_prefix(s.drop_last(), i);
    } else {
        assert(s.take(i) =~= s);
    }
}

} // verus!
