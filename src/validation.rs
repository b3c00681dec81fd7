//! Static validation of the declared graph. Every problem is collected before the
//! result is returned.

use vstd::prelude::*;

use crate::graph::{edge, is_walk, lemma_short_closed_walk, lemma_walk_is_reached, lemma_join_walks, lemma_leads_to_has_walk, lemma_reached_has_walk, lemma_leads_to_len, lemma_reached_len, leads_to, reach_backward, reach_forward, reached, successors, table_wf, view_table};
use crate::name::ComponentName;
use crate::output::{ComponentOutput, ComponentWithOutputs, NamedOutput};
use crate::text::str_eq;
use crate::topology::{refs_view, Config};

verus! {

/// A problem found in a configuration.
#[derive(Debug, PartialEq, Eq)]
pub enum ValidationError {
    /// The same output is consumed by several nodes, listed in `targets`.
    MultipleUseOfInput { input: ComponentOutput, targets: Vec<ComponentName> },
    /// A reference names no component.
    InputNotFound { input: ComponentOutput },
    /// A reference names an output that its component does not declare.
    OutputNotFound { name: ComponentName, output: NamedOutput },
    /// A transform or a sink consumes nothing.
    NoInput { name: ComponentName },
    /// A second component carries the name of an earlier one.
    DuplicateName { name: ComponentName },
    /// `name` lies on a cycle; `path` lists the nodes of the cycles through it.
    CircularDependency { path: Vec<ComponentName>, name: ComponentName },
    /// The node lies on no path from a source to a sink.
    OrphanComponent { name: ComponentName },
}

/// The mathematical content of a [`ValidationError`].
pub enum Issue {
    MultipleUseOfInput((Seq<char>, Seq<char>), Seq<Seq<char>>),
    InputNotFound((Seq<char>, Seq<char>)),
    OutputNotFound(Seq<char>, Seq<char>),
    NoInput(Seq<char>),
    CircularDependency(Seq<Seq<char>>, Seq<char>),
    OrphanComponent(Seq<char>),
    DuplicateName(Seq<char>),
}

pub open spec fn names_view(v: Seq<ComponentName>) -> Seq<Seq<char>> {
    v.map_values(|n: ComponentName| n@)
}

impl View for ValidationError {
    type V = Issue;

    open spec fn view(&self) -> Issue {
        match self {
            ValidationError::MultipleUseOfInput { input, targets } => Issue::MultipleUseOfInput(input@, names_view(targets@)),
            ValidationError::InputNotFound { input } => Issue::InputNotFound(input@),
            ValidationError::OutputNotFound { name, output } => Issue::OutputNotFound(name@, output@),
            ValidationError::NoInput { name } => Issue::NoInput(name@),
            ValidationError::CircularDependency { path, name } => Issue::CircularDependency(names_view(path@), name@),
            ValidationError::OrphanComponent { name } => Issue::OrphanComponent(name@),
            ValidationError::DuplicateName { name } => Issue::DuplicateName(name@),
        }
    }
}

pub open spec fn issues_view(v: Seq<ValidationError>) -> Seq<Issue> {
    v.map_values(|e: ValidationError| e@)
}

/// Marks the nodes for which `p` holds.
pub open spec fn marks(n: int, p: spec_fn(int) -> bool) -> Seq<bool> {
    Seq::new(n as nat, |i: int| p(i))
}

impl<S: ComponentWithOutputs, T: ComponentWithOutputs, K> Config<S, T, K> {
    /// All references made by the nodes below `b`, in node order.
    pub open spec fn refs_upto(&self, b: int) -> Seq<(Seq<char>, Seq<char>)>
        decreases b,
    {
        if b <= 0 {
            Seq::empty()
        } else {
            self.refs_upto(b - 1) + self.inputs_at(b - 1)
        }
    }

    pub open spec fn refs(&self) -> Seq<(Seq<char>, Seq<char>)> {
        self.refs_upto(self.node_count())
    }

    /// The names of the nodes below `b` that consume `x`, in node order.
    pub open spec fn consumers_upto(&self, x: (Seq<char>, Seq<char>), b: int) -> Seq<Seq<char>>
        decreases b,
    {
        if b <= 0 {
            Seq::empty()
        } else if self.inputs_at(b - 1).contains(x) {
            self.consumers_upto(x, b - 1).push(self.name_at(b - 1))
        } else {
            self.consumers_upto(x, b - 1)
        }
    }

    pub open spec fn consumers(&self, x: (Seq<char>, Seq<char>)) -> Seq<Seq<char>> {
        self.consumers_upto(x, self.node_count())
    }

    /// Outputs consumed by several nodes, reported at their first reference among the
    /// first `i` references.
    pub open spec fn multi_use_issues(&self, i: int) -> Seq<Issue>
        decreases i,
    {
        if i <= 0 {
            Seq::empty()
        } else {
            let x = self.refs()[i - 1];
            if !self.refs().take(i - 1).contains(x) && self.consumers(x).len() >= 2 {
                self.multi_use_issues(i - 1).push(Issue::MultipleUseOfInput(x, self.consumers(x)))
            } else {
                self.multi_use_issues(i - 1)
            }
        }
    }

    /// The problem with reference `x`, if any: no such component, or no such output on it.
    pub open spec fn reference_issue(&self, x: (Seq<char>, Seq<char>)) -> Seq<Issue> {
        match self.lookup(x.0) {
            None => seq![Issue::InputNotFound(x)],
            Some(a) => if self.declares_at(a, x.1) {
                Seq::empty()
            } else {
                seq![Issue::OutputNotFound(x.0, x.1)]
            },
        }
    }

    /// Unresolved references among the first `i`.
    pub open spec fn reference_issues(&self, i: int) -> Seq<Issue>
        decreases i,
    {
        if i <= 0 {
            Seq::empty()
        } else {
            self.reference_issues(i - 1) + self.reference_issue(self.refs()[i - 1])
        }
    }

    /// Transforms and sinks below `b` that consume nothing.
    pub open spec fn no_input_issues(&self, b: int) -> Seq<Issue>
        decreases b,
    {
        if b <= 0 {
            Seq::empty()
        } else if !self.is_source(b - 1) && self.inputs_at(b - 1).len() == 0 {
            self.no_input_issues(b - 1).push(Issue::NoInput(self.name_at(b - 1)))
        } else {
            self.no_input_issues(b - 1)
        }
    }

    /// The nodes reached from node `s` by walks of one or more edges.
    pub open spec fn after(&self, s: int) -> Seq<bool> {
        let t = self.table();
        reached(t, marks(self.node_count(), |b: int| edge(t, s, b)), self.node_count())
    }

    /// Node `s` lies on a cycle.
    pub open spec fn on_cycle(&self, s: int) -> bool {
        self.after(s)[s]
    }

    /// The names of the nodes below `m` that lie on a cycle through `s`, in node order.
    pub open spec fn cycle_path(&self, s: int, m: int) -> Seq<Seq<char>>
        decreases m,
    {
        if m <= 0 {
            Seq::empty()
        } else if self.after(s)[m - 1] && self.after(m - 1)[s] {
            self.cycle_path(s, m - 1).push(self.name_at(m - 1))
        } else {
            self.cycle_path(s, m - 1)
        }
    }

    /// Nodes below `b` that lie on a cycle.
    pub open spec fn cycle_issues(&self, b: int) -> Seq<Issue>
        decreases b,
    {
        if b <= 0 {
            Seq::empty()
        } else if self.on_cycle(b - 1) {
            self.cycle_issues(b - 1).push(
                Issue::CircularDependency(self.cycle_path(b - 1, self.node_count()), self.name_at(b - 1)),
            )
        } else {
            self.cycle_issues(b - 1)
        }
    }

    /// The nodes reached from some source.
    pub open spec fn fed(&self) -> Seq<bool> {
        reached(self.table(), marks(self.node_count(), |i: int| self.is_source(i)), self.node_count())
    }

    /// The nodes from which some sink is reached.
    pub open spec fn drained(&self) -> Seq<bool> {
        leads_to(self.table(), marks(self.node_count(), |i: int| self.is_sink(i)), self.node_count())
    }

    /// Node `i` lies on a walk from a source to a sink.
    pub open spec fn on_route(&self, i: int) -> bool {
        self.fed()[i] && self.drained()[i]
    }

    /// Some walk through the edges of the graph starts at a source, ends at a sink and
    /// passes through node `i`.
    pub open spec fn on_walk_from_source_to_sink(&self, i: int) -> bool {
        exists|w: Seq<int>|
            is_walk(self.table(), w) && self.is_source(w[0]) && self.is_sink(w.last()) && #[trigger] w.contains(i)
    }

    /// Nodes below `b` that lie on no walk from a source to a sink.
    pub open spec fn orphan_issues(&self, b: int) -> Seq<Issue>
        decreases b,
    {
        if b <= 0 {
            Seq::empty()
        } else if !self.on_route(b - 1) {
            self.orphan_issues(b - 1).push(Issue::OrphanComponent(self.name_at(b - 1)))
        } else {
            self.orphan_issues(b - 1)
        }
    }

    /// Nodes below `b` whose name an earlier node already carries.
    pub open spec fn duplicate_issues(&self, b: int) -> Seq<Issue>
        decreases b,
    {
        if b <= 0 {
            Seq::empty()
        } else if exists|j: int| 0 <= j < b - 1 && #[trigger] self.name_at(j) == self.name_at(b - 1) {
            self.duplicate_issues(b - 1).push(Issue::DuplicateName(self.name_at(b - 1)))
        } else {
            self.duplicate_issues(b - 1)
        }
    }

    /// Every problem of the configuration, in the order they are reported.
    pub open spec fn issues(&self) -> Seq<Issue> {
        self.duplicate_issues(self.node_count()) + self.multi_use_issues(self.refs().len() as int) + self.reference_issues(self.refs().len() as int)
            + self.no_input_issues(self.node_count()) + self.cycle_issues(self.node_count())
            + self.orphan_issues(self.node_count())
    }
}

/// Whether `x` is among the first `upto` references of `v`.
fn refs_contain(v: &Vec<ComponentOutput>, upto: usize, x: &ComponentOutput) -> (r: bool)
    requires
        upto <= v@.len(),
    ensures
        r == refs_view(v@).take(upto as int).contains(x@),
{
    let ghost s = refs_view(v@).take(upto as int);
    let mut j: usize = 0;
    while j < upto
        invariant
            upto <= v@.len(),
            s == refs_view(v@).take(upto as int),
            j <= upto,
            forall|jj: int| 0 <= jj < j ==> s[jj] != x@,
        decreases upto - j,
    {
        if v[j].same_as(x) {
            assert(s[j as int] == x@);
            return true;
        }
        j = j + 1;
    }
    false
}

impl<S: ComponentWithOutputs, T: ComponentWithOutputs, K> Config<S, T, K> {
    /// All references, in node order.
    fn collect_refs(&self) -> (r: Vec<ComponentOutput>)
        requires
            self.fits(),
        ensures
            refs_view(r@) == self.refs(),
    {
        let n = self.node_count_exec();
        let mut r: Vec<ComponentOutput> = Vec::new();
        let mut b: usize = 0;
        while b < n
            invariant
                self.fits(),
                n == self.node_count(),
                b <= n,
                refs_view(r@) == self.refs_upto(b as int),
            decreases n - b,
        {
            match self.inputs_at_exec(b) {
                None => {
                    assert(self.refs_upto(b + 1) =~= self.refs_upto(b as int));
                },
                Some(v) => {
                    let mut j: usize = 0;
                    while j < v.len()
                        invariant
                            b < n,
                            refs_view(v@) == self.inputs_at(b as int),
                            j <= v@.len(),
                            refs_view(r@) == self.refs_upto(b as int) + self.inputs_at(b as int).take(j as int),
                        decreases v@.len() - j,
                    {
                        let x = v[j].clone();
                        let ghost before = r@;
                        assert(self.inputs_at(b as int)[j as int] == x@);
                        r.push(x);
                        assert(refs_view(r@) =~= refs_view(before).push(x@));
                        assert(refs_view(r@) =~= self.refs_upto(b as int) + self.inputs_at(b as int).take(j + 1));
                        j = j + 1;
                    }
                    assert(self.inputs_at(b as int).take(j as int) =~= self.inputs_at(b as int));
                },
            }
            b = b + 1;
        }
        r
    }

    /// The nodes that consume `x`, in node order.
    fn consumers_exec(&self, x: &ComponentOutput) -> (r: Vec<ComponentName>)
        requires
            self.fits(),
        ensures
            names_view(r@) == self.consumers(x@),
    {
        let n = self.node_count_exec();
        let mut r: Vec<ComponentName> = Vec::new();
        let mut b: usize = 0;
        while b < n
            invariant
                self.fits(),
                n == self.node_count(),
                b <= n,
                names_view(r@) == self.consumers_upto(x@, b as int),
            decreases n - b,
        {
            let consumes = match self.inputs_at_exec(b) {
                None => false,
                Some(v) => {
                    let c = refs_contain(v, v.len(), x);
                    assert(refs_view(v@).take(v@.len() as int) =~= refs_view(v@));
                    c
                },
            };
            if consumes {
                let name = self.name_at_exec(b).clone();
                r.push(name);
            }
            assert(names_view(r@) =~= self.consumers_upto(x@, b + 1));
            b = b + 1;
        }
        r
    }
}

impl<S: ComponentWithOutputs, T: ComponentWithOutputs, K> Config<S, T, K> {
    /// Reports every node that carries the name of an earlier one.
    fn check_duplicate_names(&self, errors: &mut Vec<ValidationError>)
        requires
            self.fits(),
        ensures
            issues_view(final(errors)@) == issues_view(old(errors)@) + self.duplicate_issues(self.node_count()),
    {
        let ghost start = issues_view(errors@);
        let n = self.node_count_exec();
        let mut b: usize = 0;
        while b < n
            invariant
                self.fits(),
                n == self.node_count(),
                b <= n,
                issues_view(errors@) == start + self.duplicate_issues(b as int),
            decreases n - b,
        {
            let name = self.name_at_exec(b);
            let mut seen = false;
            let mut j: usize = 0;
            while j < b
                invariant
                    self.fits(),
                    n == self.node_count(),
                    b < n,
                    j <= b,
                    name@ == self.name_at(b as int),
                    seen == exists|k: int| 0 <= k < j && #[trigger] self.name_at(k) == self.name_at(b as int),
                decreases b - j,
            {
                if str_eq(self.name_at_exec(j).as_str(), name.as_str()) {
                    seen = true;
                }
                j = j + 1;
            }
            let ghost before = errors@;
            if seen {
                errors.push(ValidationError::DuplicateName { name: name.clone() });
                assert(issues_view(errors@) =~= issues_view(before).push(errors@.last()@));
            }
            assert(issues_view(errors@) =~= start + self.duplicate_issues(b + 1));
            b = b + 1;
        }
    }

    /// Reports every output that several nodes consume.
    fn check_multiple_use_of_input(&self, refs: &Vec<ComponentOutput>, errors: &mut Vec<ValidationError>)
        requires
            self.fits(),
            refs_view(refs@) == self.refs(),
        ensures
            issues_view(final(errors)@) == issues_view(old(errors)@) + self.multi_use_issues(refs@.len() as int),
    {
        let ghost start = issues_view(errors@);
        let mut i: usize = 0;
        while i < refs.len()
            invariant
                self.fits(),
                refs_view(refs@) == self.refs(),
                i <= refs@.len(),
                issues_view(errors@) == start + self.multi_use_issues(i as int),
            decreases refs@.len() - i,
        {
            let x = &refs[i];
            assert(self.refs()[i as int] == x@);
            let seen = refs_contain(refs, i, x);
            if !seen {
                let targets = self.consumers_exec(x);
                if targets.len() >= 2 {
                    let ghost before = errors@;
                    errors.push(ValidationError::MultipleUseOfInput { input: x.clone(), targets });
                    assert(issues_view(errors@) =~= issues_view(before).push(errors@.last()@));
                }
            }
            assert(issues_view(errors@) =~= start + self.multi_use_issues(i + 1));
            i = i + 1;
        }
    }

    /// Reports every reference to a missing component or to an undeclared output.
    fn check_references(&self, refs: &Vec<ComponentOutput>, errors: &mut Vec<ValidationError>)
        requires
            self.fits(),
            refs_view(refs@) == self.refs(),
        ensures
            issues_view(final(errors)@) == issues_view(old(errors)@) + self.reference_issues(refs@.len() as int),
    {
        let ghost start = issues_view(errors@);
        let mut i: usize = 0;
        while i < refs.len()
            invariant
                self.fits(),
                refs_view(refs@) == self.refs(),
                i <= refs@.len(),
                issues_view(errors@) == start + self.reference_issues(i as int),
            decreases refs@.len() - i,
        {
            let x = &refs[i];
            assert(self.refs()[i as int] == x@);
            let ghost before = errors@;
            match self.lookup_exec(&x.name) {
                None => {
                    errors.push(ValidationError::InputNotFound { input: x.clone() });
                    assert(issues_view(errors@) =~= issues_view(before) + self.reference_issue(x@));
                },
                Some(a) => {
                    if !self.declares_at_exec(a, &x.output) {
                        errors.push(ValidationError::OutputNotFound { name: x.to_owned_name(), output: x.to_owned_output() });
                        assert(issues_view(errors@) =~= issues_view(before) + self.reference_issue(x@));
                    } else {
                        assert(issues_view(errors@) =~= issues_view(before) + self.reference_issue(x@));
                    }
                },
            }
            assert(issues_view(errors@) =~= start + self.reference_issues(i + 1));
            i = i + 1;
        }
    }

    /// Reports every transform and sink without inputs.
    fn check_no_input(&self, errors: &mut Vec<ValidationError>)
        requires
            self.fits(),
        ensures
            issues_view(final(errors)@) == issues_view(old(errors)@) + self.no_input_issues(self.node_count()),
    {
        let ghost start = issues_view(errors@);
        let n = self.node_count_exec();
        let mut b: usize = 0;
        while b < n
            invariant
                self.fits(),
                n == self.node_count(),
                b <= n,
                issues_view(errors@) == start + self.no_input_issues(b as int),
            decreases n - b,
        {
            let ghost before = errors@;
            if let Some(v) = self.inputs_at_exec(b) {
                if v.len() == 0 {
                    errors.push(ValidationError::NoInput { name: self.name_at_exec(b).clone() });
                    assert(issues_view(errors@) =~= issues_view(before).push(errors@.last()@));
                }
            }
            assert(issues_view(errors@) =~= start + self.no_input_issues(b + 1));
            b = b + 1;
        }
    }
}

impl<S: ComponentWithOutputs, T: ComponentWithOutputs, K> Config<S, T, K> {
    /// For every node, the nodes reached from it by one or more edges.
    fn all_after(&self, pt: &Vec<Vec<Option<usize>>>) -> (r: Vec<Vec<bool>>)
        requires
            self.fits(),
            view_table(pt) == self.table(),
            table_wf(view_table(pt)),
        ensures
            r@.len() == self.node_count(),
            forall|s: int| 0 <= s < r@.len() ==> #[trigger] r@[s]@ == self.after(s),
    {
        let n = self.node_count_exec();
        let mut r: Vec<Vec<bool>> = Vec::new();
        let mut s: usize = 0;
        while s < n
            invariant
                self.fits(),
                n == self.node_count(),
                view_table(pt) == self.table(),
                table_wf(view_table(pt)),
                s <= n,
                r@.len() == s,
                forall|ss: int| 0 <= ss < s ==> #[trigger] r@[ss]@ == self.after(ss),
            decreases n - s,
        {
            let init = successors(pt, s);
            let ghost t = self.table();
            assert(pt@.len() == view_table(pt).len());
            assert(init@ =~= marks(self.node_count(), |b: int| edge(t, s as int, b)));
            let after = reach_forward(pt, init, n);
            r.push(after);
            s = s + 1;
        }
        r
    }

    /// Reports every node that lies on a cycle.
    fn check_cycles(&self, after: &Vec<Vec<bool>>, errors: &mut Vec<ValidationError>)
        requires
            self.fits(),
            after@.len() == self.node_count(),
            forall|s: int| 0 <= s < after@.len() ==> #[trigger] after@[s]@ == self.after(s),
        ensures
            issues_view(final(errors)@) == issues_view(old(errors)@) + self.cycle_issues(self.node_count()),
    {
        let ghost start = issues_view(errors@);
        let n = self.node_count_exec();
        let mut s: usize = 0;
        while s < n
            invariant
                self.fits(),
                n == self.node_count(),
                after@.len() == n,
                forall|ss: int| 0 <= ss < after@.len() ==> #[trigger] after@[ss]@ == self.after(ss),
                s <= n,
                issues_view(errors@) == start + self.cycle_issues(s as int),
            decreases n - s,
        {
            let ghost before = errors@;
            assert(after@[s as int]@ == self.after(s as int));
            proof {
                let t = self.table();
                lemma_reached_len(t, marks(self.node_count(), |b: int| edge(t, s as int, b)), self.node_count());
            }
            if after[s][s] {
                let mut path: Vec<ComponentName> = Vec::new();
                let mut m: usize = 0;
                while m < n
                    invariant
                        self.fits(),
                        n == self.node_count(),
                        after@.len() == n,
                        forall|ss: int| 0 <= ss < after@.len() ==> #[trigger] after@[ss]@ == self.after(ss),
                        s < n,
                        after@[s as int]@.len() == n,
                        m <= n,
                        names_view(path@) == self.cycle_path(s as int, m as int),
                    decreases n - m,
                {
                    assert(after@[m as int]@ == self.after(m as int));
                    proof {
                        let t = self.table();
                        lemma_reached_len(t, marks(self.node_count(), |b: int| edge(t, m as int, b)), self.node_count());
                    }
                    if after[s][m] && after[m][s] {
                        path.push(self.name_at_exec(m).clone());
                    }
                    assert(names_view(path@) =~= self.cycle_path(s as int, m + 1));
                    m = m + 1;
                }
                errors.push(ValidationError::CircularDependency { path, name: self.name_at_exec(s).clone() });
                assert(issues_view(errors@) =~= issues_view(before).push(errors@.last()@));
            }
            assert(issues_view(errors@) =~= start + self.cycle_issues(s + 1));
            s = s + 1;
        }
    }

    /// Reports every node that lies on no walk from a source to a sink.
    fn check_orphans(&self, pt: &Vec<Vec<Option<usize>>>, errors: &mut Vec<ValidationError>)
        requires
            self.fits(),
            view_table(pt) == self.table(),
            table_wf(view_table(pt)),
        ensures
            issues_view(final(errors)@) == issues_view(old(errors)@) + self.orphan_issues(self.node_count()),
    {
        let ghost start = issues_view(errors@);
        let n = self.node_count_exec();
        let ns = self.sources.len();
        let nst = ns + self.transforms.len();
        let mut from: Vec<bool> = Vec::new();
        let mut to: Vec<bool> = Vec::new();
        let mut i: usize = 0;
        while i < n
            invariant
                n == self.node_count(),
                ns == self.n_sources(),
                nst == self.n_sources() + self.n_transforms(),
                i <= n,
                from@.len() == i,
                to@.len() == i,
                forall|j: int| 0 <= j < i ==> #[trigger] from@[j] == self.is_source(j),
                forall|j: int| 0 <= j < i ==> #[trigger] to@[j] == self.is_sink(j),
            decreases n - i,
        {
            from.push(i < ns);
            to.push(i >= nst);
            i = i + 1;
        }
        assert(from@ =~= marks(self.node_count(), |j: int| self.is_source(j)));
        assert(to@ =~= marks(self.node_count(), |j: int| self.is_sink(j)));
        assert(pt@.len() == view_table(pt).len());
        proof {
            lemma_reached_len(self.table(), from@, self.node_count());
            lemma_leads_to_len(self.table(), to@, self.node_count());
        }
        let fed = reach_forward(pt, from, n);
        let drained = reach_backward(pt, to, n);
        let mut b: usize = 0;
        while b < n
            invariant
                self.fits(),
                n == self.node_count(),
                fed@ == self.fed(),
                drained@ == self.drained(),
                fed@.len() == n,
                drained@.len() == n,
                b <= n,
                issues_view(errors@) == start + self.orphan_issues(b as int),
            decreases n - b,
        {
            let ghost before = errors@;
            if !(fed[b] && drained[b]) {
                errors.push(ValidationError::OrphanComponent { name: self.name_at_exec(b).clone() });
                assert(issues_view(errors@) =~= issues_view(before).push(errors@.last()@));
            }
            assert(issues_view(errors@) =~= start + self.orphan_issues(b + 1));
            b = b + 1;
        }
    }

    /// Checks the whole configuration and returns it unchanged when it holds no problem,
    /// else every problem found.
    pub fn validate(self) -> (r: Result<Self, Vec<ValidationError>>)
        requires
            self.fits(),
        ensures
            r is Ok <==> self.issues().len() == 0,
            r matches Ok(c) ==> c == self,
            r matches Err(e) ==> issues_view(e@) == self.issues(),
    {
        let mut errors: Vec<ValidationError> = Vec::new();
        let refs = self.collect_refs();
        let pt = self.producer_table();
        assert(issues_view(errors@) =~= Seq::<Issue>::empty());
        self.check_duplicate_names(&mut errors);
        self.check_multiple_use_of_input(&refs, &mut errors);
        self.check_references(&refs, &mut errors);
        self.check_no_input(&mut errors);
        let after = self.all_after(&pt);
        self.check_cycles(&after, &mut errors);
        self.check_orphans(&pt, &mut errors);
        assert(issues_view(errors@) =~= self.issues());
        if errors.len() == 0 {
            Ok(self)
        } else {
            Err(errors)
        }
    }
}

proof fn lemma_multi_use_grows<S: ComponentWithOutputs, T: ComponentWithOutputs, K>(c: &Config<S, T, K>, i: int, j: int)
    requires
        i <= j,
    ensures
        c.multi_use_issues(i).len() <= c.multi_use_issues(j).len(),
    decreases j - i,
{
    if i < j {
        lemma_multi_use_grows(c, i, j - 1);
    }
}

proof fn lemma_first_occurrence(s: Seq<(Seq<char>, Seq<char>)>, i: int)
    requires
        0 <= i < s.len(),
    ensures
        exists|k: int| 0 <= k <= i && s[k] == s[i] && !s.take(k).contains(s[i]),
    decreases i,
{
    if s.take(i).contains(s[i]) {
        let j = choose|j: int| 0 <= j < s.take(i).len() && s.take(i)[j] == s[i];
        lemma_first_occurrence(s, j);
    } else {
        assert(0 <= i <= i && s[i] == s[i] && !s.take(i).contains(s[i]));
    }
}

proof fn lemma_referenced_has_consumer<S: ComponentWithOutputs, T: ComponentWithOutputs, K>(
    c: &Config<S, T, K>,
    x: (Seq<char>, Seq<char>),
    b: int,
)
    requires
        c.refs_upto(b).contains(x),
    ensures
        c.consumers_upto(x, b).len() >= 1,
    decreases b,
{
    if b > 0 {
        if c.inputs_at(b - 1).contains(x) {
        } else {
            let k = choose|k: int| 0 <= k < c.refs_upto(b).len() && c.refs_upto(b)[k] == x;
            if k >= c.refs_upto(b - 1).len() {
                assert(c.inputs_at(b - 1)[k - c.refs_upto(b - 1).len()] == x);
            }
            assert(c.refs_upto(b - 1)[k] == x);
            lemma_referenced_has_consumer(c, x, b - 1);
        }
    }
}

/// In a configuration without problems every referenced output is consumed by exactly
/// one node.
pub proof fn lemma_single_use<S: ComponentWithOutputs, T: ComponentWithOutputs, K>(c: &Config<S, T, K>)
    requires
        c.issues().len() == 0,
    ensures
        forall|x: (Seq<char>, Seq<char>)| c.refs().contains(x) ==> #[trigger] c.consumers(x).len() == 1,
{
    let r = c.refs();
    assert(c.multi_use_issues(r.len() as int).len() == 0);
    assert forall|x: (Seq<char>, Seq<char>)| r.contains(x) implies #[trigger] c.consumers(x).len() == 1 by {
        let i = choose|i: int| 0 <= i < r.len() && r[i] == x;
        lemma_first_occurrence(r, i);
        let k = choose|k: int| 0 <= k <= i && r[k] == r[i] && !r.take(k).contains(r[i]);
        lemma_multi_use_grows(c, k + 1, r.len() as int);
        lemma_referenced_has_consumer(c, x, c.node_count());
    }
}

proof fn lemma_no_orphans<S: ComponentWithOutputs, T: ComponentWithOutputs, K>(c: &Config<S, T, K>, b: int)
    requires
        c.orphan_issues(b).len() == 0,
    ensures
        forall|i: int| 0 <= i < b ==> c.on_route(i),
    decreases b,
{
    if b > 0 {
        lemma_no_orphans(c, b - 1);
    }
}

proof fn lemma_on_route_has_walk<S: ComponentWithOutputs, T: ComponentWithOutputs, K>(c: &Config<S, T, K>, i: int)
    requires
        0 <= i < c.node_count(),
        c.on_route(i),
    ensures
        c.on_walk_from_source_to_sink(i),
{
    let n = c.node_count();
    let t = c.table();
    let from = marks(n, |j: int| c.is_source(j));
    let to = marks(n, |j: int| c.is_sink(j));
    assert(c.fed()[i]);
    assert(c.drained()[i]);
    lemma_reached_has_walk(t, from, n, i);
    lemma_leads_to_has_walk(t, to, n, i);
    let w1 = choose|w: Seq<int>| is_walk(t, w) && 0 <= w[0] < from.len() && from[w[0]] && w.last() == i;
    let w2 = choose|w: Seq<int>| is_walk(t, w) && w[0] == i && 0 <= w.last() < to.len() && to[w.last()];
    lemma_join_walks(t, w1, w2);
    let w = w1 + w2.skip(1);
    assert(c.is_source(w[0]));
    assert(c.is_sink(w.last()));
    assert(is_walk(t, w) && c.is_source(w[0]) && c.is_sink(w.last()) && w.contains(i));
}

/// In a configuration without problems every node lies on a walk that starts at a
/// source and ends at a sink.
pub proof fn lemma_every_node_on_route<S: ComponentWithOutputs, T: ComponentWithOutputs, K>(c: &Config<S, T, K>)
    requires
        c.issues().len() == 0,
    ensures
        forall|i: int| 0 <= i < c.node_count() ==> #[trigger] c.on_walk_from_source_to_sink(i),
{
    let n = c.node_count();
    assert(c.orphan_issues(n).len() == 0);
    lemma_no_orphans(c, n);
    assert forall|i: int| 0 <= i < n implies #[trigger] c.on_walk_from_source_to_sink(i) by {
        lemma_on_route_has_walk(c, i);
    }
}

proof fn lemma_no_cycles<S: ComponentWithOutputs, T: ComponentWithOutputs, K>(c: &Config<S, T, K>, b: int)
    requires
        c.cycle_issues(b).len() == 0,
    ensures
        forall|i: int| 0 <= i < b ==> !c.on_cycle(i),
    decreases b,
{
    if b > 0 {
        lemma_no_cycles(c, b - 1);
    }
}

/// A closed walk of one or more edges passes through a node on a cycle.
proof fn lemma_closed_walk_on_cycle<S: ComponentWithOutputs, T: ComponentWithOutputs, K>(c: &Config<S, T, K>, w: Seq<int>)
    requires
        is_walk(c.table(), w),
        w.len() >= 2,
        w[0] == w.last(),
    ensures
        0 <= w[0] < c.node_count(),
        c.on_cycle(w[0]),
{
    let n = c.node_count();
    let t = c.table();
    lemma_short_closed_walk(t, w);
    let v = choose|v: Seq<int>| is_walk(t, v) && 2 <= v.len() <= t.len() + 1 && v[0] == w[0] && v.last() == w[0];
    let s = v[0];
    assert(edge(t, v[0], v[1]));
    let init = marks(n, |b: int| edge(t, s, b));
    let u = v.skip(1);
    assert forall|i: int| 0 <= i < u.len() - 1 implies edge(t, #[trigger] u[i], u[i + 1]) by {
        assert(u[i] == v[i + 1] && u[i + 1] == v[i + 2]);
    }
    assert(init[u[0]]);
    lemma_walk_is_reached(t, init, u, n);
    assert(u.last() == s);
    assert(c.after(s)[s]);
}

/// In a configuration without problems no walk of one or more edges returns to the
/// node it started from: the producer-to-consumer relation is acyclic.
pub proof fn lemma_acyclic<S: ComponentWithOutputs, T: ComponentWithOutputs, K>(c: &Config<S, T, K>)
    requires
        c.issues().len() == 0,
    ensures
        forall|w: Seq<int>| #[trigger] is_walk(c.table(), w) && w.len() >= 2 ==> w[0] != w.last(),
{
    let n = c.node_count();
    assert(c.cycle_issues(n).len() == 0);
    lemma_no_cycles(c, n);
    assert forall|w: Seq<int>| #[trigger] is_walk(c.table(), w) && w.len() >= 2 implies w[0] != w.last() by {
        if w[0] == w.last() {
            lemma_closed_walk_on_cycle(c, w);
        }
    }
}

proof fn lemma_multi_use_kept<S: ComponentWithOutputs, T: ComponentWithOutputs, K>(c: &Config<S, T, K>, x: Issue, i: int, j: int)
    requires
        i <= j,
        c.multi_use_issues(i).contains(x),
    ensures
        c.multi_use_issues(j).contains(x),
    decreases j - i,
{
    if i < j {
        lemma_multi_use_kept(c, x, i, j - 1);
        let prev = c.multi_use_issues(j - 1);
        let k = choose|k: int| 0 <= k < prev.len() && prev[k] == x;
        assert(c.multi_use_issues(j)[k] == x);
    }
}

proof fn lemma_cycle_reported<S: ComponentWithOutputs, T: ComponentWithOutputs, K>(c: &Config<S, T, K>, i: int, b: int)
    requires
        0 <= i < b,
        c.on_cycle(i),
    ensures
        c.cycle_issues(b).contains(Issue::CircularDependency(c.cycle_path(i, c.node_count()), c.name_at(i))),
    decreases b,
{
    let x = Issue::CircularDependency(c.cycle_path(i, c.node_count()), c.name_at(i));
    if i == b - 1 {
        assert(c.cycle_issues(b).last() == x);
    } else {
        lemma_cycle_reported(c, i, b - 1);
        let prev = c.cycle_issues(b - 1);
        let k = choose|k: int| 0 <= k < prev.len() && prev[k] == x;
        assert(c.cycle_issues(b)[k] == x);
    }
}

proof fn lemma_orphan_reported<S: ComponentWithOutputs, T: ComponentWithOutputs, K>(c: &Config<S, T, K>, i: int, b: int)
    requires
        0 <= i < b,
        !c.on_route(i),
    ensures
        c.orphan_issues(b).contains(Issue::OrphanComponent(c.name_at(i))),
    decreases b,
{
    let x = Issue::OrphanComponent(c.name_at(i));
    if i == b - 1 {
        assert(c.orphan_issues(b).last() == x);
    } else {
        lemma_orphan_reported(c, i, b - 1);
        let prev = c.orphan_issues(b - 1);
        let k = choose|k: int| 0 <= k < prev.len() && prev[k] == x;
        assert(c.orphan_issues(b)[k] == x);
    }
}

/// An output that two or more nodes consume is reported, with all its consumers.
pub proof fn lemma_multiple_use_reported<S: ComponentWithOutputs, T: ComponentWithOutputs, K>(c: &Config<S, T, K>, x: (Seq<char>, Seq<char>))
    requires
        c.refs().contains(x),
        c.consumers(x).len() >= 2,
    ensures
        c.issues().contains(Issue::MultipleUseOfInput(x, c.consumers(x))),
{
    let r = c.refs();
    let e = Issue::MultipleUseOfInput(x, c.consumers(x));
    let i = choose|i: int| 0 <= i < r.len() && r[i] == x;
    lemma_first_occurrence(r, i);
    let k = choose|k: int| 0 <= k <= i && r[k] == r[i] && !r.take(k).contains(r[i]);
    assert(c.multi_use_issues(k + 1).last() == e);
    assert(c.multi_use_issues(k + 1).contains(e));
    lemma_multi_use_kept(c, e, k + 1, r.len() as int);
    let d = c.duplicate_issues(c.node_count());
    let m = c.multi_use_issues(r.len() as int);
    let j = choose|j: int| 0 <= j < m.len() && m[j] == e;
    assert(c.issues()[d.len() + j] == e);
}

/// A node that lies on no walk from a source to a sink is reported as an orphan.
pub proof fn lemma_orphan_reported_in_issues<S: ComponentWithOutputs, T: ComponentWithOutputs, K>(c: &Config<S, T, K>, i: int)
    requires
        0 <= i < c.node_count(),
        !c.on_walk_from_source_to_sink(i),
    ensures
        c.issues().contains(Issue::OrphanComponent(c.name_at(i))),
{
    if c.on_route(i) {
        lemma_on_route_has_walk(c, i);
    }
    lemma_orphan_reported(c, i, c.node_count());
    let e = Issue::OrphanComponent(c.name_at(i));
    let o = c.orphan_issues(c.node_count());
    let j = choose|j: int| 0 <= j < o.len() && o[j] == e;
    let before = c.issues().len() - o.len();
    assert(c.issues()[before + j] == e);
}

/// The first node of a closed walk of one or more edges is reported as lying on a cycle.
pub proof fn lemma_cycle_reported_in_issues<S: ComponentWithOutputs, T: ComponentWithOutputs, K>(c: &Config<S, T, K>, w: Seq<int>)
    requires
        is_walk(c.table(), w),
        w.len() >= 2,
        w[0] == w.last(),
    ensures
        c.issues().contains(Issue::CircularDependency(c.cycle_path(w[0], c.node_count()), c.name_at(w[0]))),
{
    lemma_closed_walk_on_cycle(c, w);
    lemma_cycle_reported(c, w[0], c.node_count());
    let e = Issue::CircularDependency(c.cycle_path(w[0], c.node_count()), c.name_at(w[0]));
    let cy = c.cycle_issues(c.node_count());
    let j = choose|j: int| 0 <= j < cy.len() && cy[j] == e;
    let before = c.issues().len() - cy.len() - c.orphan_issues(c.node_count()).len();
    assert(c.issues()[before + j] == e);
}

} // verus!
