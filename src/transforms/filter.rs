//! Sends events that satisfy a condition to the default output, the others to a
//! fallback output.

use vstd::prelude::*;

use crate::condition::{self, compiles, holds, Condition};
use crate::event::Event;
use crate::output::{default_word, ComponentWithOutputs, NamedOutput};
use crate::transforms::{Dispatch, DispatchView};

verus! {

/// The characters of the word `dropped`, the fallback output when none is configured.
pub open spec fn dropped_word() -> Seq<char> {
    seq!['d', 'r', 'o', 'p', 'p', 'e', 'd']
}

/// The output `dropped`.
pub fn default_fallback() -> (r: NamedOutput)
    ensures
        r is Named,
        r@ == dropped_word(),
        r.wf(),
{
    proof {
        reveal_strlit("dropped");
        assert("dropped"@ =~= dropped_word());
        assert(dropped_word() != default_word()) by {
            assert(dropped_word()[1] != default_word()[1]);
        }
    }
    NamedOutput::Named("dropped".to_owned())
}

/// A filter as configured.
pub struct Config {
    pub condition: condition::Config,
    /// The output of the events that fail the condition; `dropped` when absent.
    pub fallback: Option<NamedOutput>,
}

/// A filter that failed to build.
#[derive(Debug)]
pub enum BuildError {
    ConditionFailed(condition::BuildError),
}

impl Config {
    pub open spec fn fallback_name(&self) -> Seq<char> {
        match self.fallback {
            Some(o) => o@,
            None => dropped_word(),
        }
    }

    fn is_fallback(&self, output: &NamedOutput) -> (r: bool)
        ensures
            r == (output@ == self.fallback_name()),
    {
        match &self.fallback {
            Some(named) => named.same_as(output),
            None => default_fallback().same_as(output),
        }
    }

    pub fn build(self) -> (r: Result<Transform, BuildError>)
        ensures
            r is Ok <==> compiles(self.condition.view()),
            r matches Ok(t) ==> t.condition.view() == self.condition.view() && t.fallback@ == self.fallback_name(),
    {
        let fallback = match self.fallback {
            Some(o) => o,
            None => default_fallback(),
        };
        match self.condition.build() {
            Ok(condition) => Ok(Transform { condition, fallback }),
            Err(e) => Err(BuildError::ConditionFailed(e)),
        }
    }
}

impl ComponentWithOutputs for Config {
    /// The default output and the fallback output.
    open spec fn declares(&self, output: Seq<char>) -> bool {
        output == default_word() || output == self.fallback_name()
    }

    fn has_output(&self, output: &NamedOutput) -> (r: bool) {
        output.is_default_name() || self.is_fallback(output)
    }
}

/// A compiled filter.
pub struct Transform {
    pub condition: Condition,
    pub fallback: NamedOutput,
}

impl Transform {
    pub fn flavor(&self) -> (r: &'static str)
        ensures
            r@ == "filter"@,
    {
        "filter"
    }

    /// The output of the event: the default one when the condition holds, else the fallback.
    pub fn route(&self, event: &Event) -> (r: Dispatch)
        ensures
            r@ == if holds(self.condition.view(), event@) {
                DispatchView::Output(default_word())
            } else {
                DispatchView::Output(self.fallback@)
            },
    {
        if self.condition.evaluate(event) {
            Dispatch::Output(NamedOutput::Default)
        } else {
            Dispatch::Output(self.fallback.clone())
        }
    }
}

} // verus!
