//! The fan-out primitive: routes an output name to the endpoint connected to it.

use vstd::prelude::*;

use crate::ordered::{entry_value, insert_entry};
use crate::output::{default_word, NamedOutput};
use crate::text::str_eq;

verus! {

/// Maps the outputs of one component to the endpoints (`S`) of their consumers.
pub struct Collector<S> {
    pub default: Option<S>,
    pub others: Vec<(String, S)>,
}

impl<S> Collector<S> {
    /// The named outputs by name, in order of registration.
    pub open spec fn others_view(&self) -> Seq<(Seq<char>, S)> {
        self.others@.map_values(|p: (String, S)| (p.0@, p.1))
    }

    /// The endpoint connected to the output called `output`, if any.
    pub open spec fn target(&self, output: Seq<char>) -> Option<S> {
        if output == default_word() {
            self.default
        } else {
            entry_value(self.others_view(), output)
        }
    }

    /// Every connected endpoint: the default one first, then the named ones in order.
    pub open spec fn targets(&self) -> Seq<S> {
        let d = match self.default {
            Some(s) => seq![s],
            None => Seq::empty(),
        };
        d + self.others_view().map_values(|p: (Seq<char>, S)| p.1)
    }

    pub fn new() -> (r: Self)
        ensures
            r.default is None,
            r.others_view() == Seq::<(Seq<char>, S)>::empty(),
    {
        Collector { default: None, others: Vec::new() }
    }

    /// Connects `output` to `sender`, replacing what it was connected to.
    pub fn add_output(&mut self, output: NamedOutput, sender: S)
        ensures
            output@ == default_word() ==> final(self).default == Some(sender) && final(self).others_view()
                == old(self).others_view(),
            output@ != default_word() ==> final(self).default == old(self).default
                && final(self).others_view() == insert_entry(old(self).others_view(), output@, sender),
    {
        let ghost out_view = output@;
        if output.is_default_name() {
            self.default = Some(sender);
            return;
        }
        match output {
            NamedOutput::Default => {
                self.default = Some(sender);
            },
            NamedOutput::Named(name) => {
                let ghost before = self.others@;
                let ghost v = self.others_view();
                let mut i: usize = 0;
                while i < self.others.len()
                    invariant
                        self.others@ == before,
                        v == old(self).others_view(),
                        before == old(self).others@,
                        self.default == old(self).default,
                        name@ == out_view,
                        out_view == output@,
                        out_view != default_word(),
                        i <= before.len(),
                        forall|j: int| 0 <= j < i ==> before[j].0@ != name@,
                    decreases before.len() - i,
                {
                    if str_eq(self.others[i].0.as_str(), name.as_str()) {
                        proof {
                            assert(v[i as int].0 == name@);
                            assert(crate::ordered::is_first_key(v, name@, i as int));
                            let k = choose|k: int| crate::ordered::is_first_key(v, name@, k);
                            if k < i {
                                assert(v[k].0 == before[k].0@);
                            }
                        }
                        let ghost nv = name@;
                        self.others.set(i, (name, sender));
                        assert(self.others_view() =~= v.update(i as int, (nv, sender)));
                        return;
                    }
                    i = i + 1;
                }
                proof {
                    assert forall|k: int| 0 <= k < v.len() implies v[k].0 != name@ by {
                        assert(v[k].0 == before[k].0@);
                    }
                }
                let ghost nv = name@;
                self.others.push((name, sender));
                assert(self.others_view() =~= v.push((nv, sender)));
            },
        }
    }

    /// The endpoint that an event sent to `output` goes to; none when the output is not
    /// connected.
    pub fn route(&self, output: &NamedOutput) -> (r: Option<&S>)
        ensures
            r is Some <==> self.target(output@) is Some,
            r matches Some(s) ==> self.target(output@) == Some(*s),
    {
        if output.is_default_name() {
            match &self.default {
                Some(s) => Some(s),
                None => None,
            }
        } else {
            let ghost v = self.others_view();
            let name = output.as_str();
            let mut i: usize = 0;
            while i < self.others.len()
                invariant
                    v == self.others_view(),
                    name@ == output@,
                    output@ != default_word(),
                    i <= self.others@.len(),
                    forall|j: int| 0 <= j < i ==> v[j].0 != output@,
                decreases self.others@.len() - i,
            {
                if str_eq(self.others[i].0.as_str(), name) {
                    proof {
                        assert(crate::ordered::is_first_key(v, output@, i as int));
                        let k = choose|k: int| crate::ordered::is_first_key(v, output@, k);
                    }
                    return Some(&self.others[i].1);
                }
                i = i + 1;
            }
            None
        }
    }

    /// Every connected endpoint: the default one first, then the named ones in order.
    pub fn senders(&self) -> (r: Vec<&S>)
        ensures
            r@.len() == self.targets().len(),
            forall|i: int| 0 <= i < r@.len() ==> *r@[i] == self.targets()[i],
    {
        let ghost t = self.targets();
        let mut r: Vec<&S> = Vec::new();
        let mut off: usize = 0;
        match &self.default {
            Some(s) => {
                r.push(s);
                off = 1;
            },
            None => {},
        }
        let mut i: usize = 0;
        while i < self.others.len()
            invariant
                t == self.targets(),
                off as int == (if self.default is Some { 1int } else { 0int }),
                i <= self.others@.len(),
                r@.len() == off + i,
                forall|j: int| 0 <= j < r@.len() ==> *r@[j] == t[j],
            decreases self.others@.len() - i,
        {
            r.push(&self.others[i].1);
            i = i + 1;
        }
        r
    }
}

} // verus!
