//! Sends a copy of every event to every connected output.

use vstd::prelude::*;

use crate::output::{ComponentWithOutputs, NamedOutput};
use crate::transforms::{Dispatch, DispatchView};

verus! {

/// A broadcast takes no settings.
pub struct Config {}

impl Config {
    pub fn build(self) -> (r: Transform) {
        Transform {}
    }
}

impl ComponentWithOutputs for Config {
    /// Every output: consumers may name any output of a broadcast.
    open spec fn declares(&self, output: Seq<char>) -> bool {
        true
    }

    fn has_output(&self, output: &NamedOutput) -> (r: bool) {
        true
    }
}

/// Sends every event to every output.
pub struct Transform {}

impl Transform {
    pub fn flavor(&self) -> (r: &'static str)
        ensures
            r@ == "broadcast"@,
    {
        "broadcast"
    }

    pub fn route(&self) -> (r: Dispatch)
        ensures
            r@ == DispatchView::All,
    {
        Dispatch::All
    }
}

} // verus!
