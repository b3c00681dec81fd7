//! The declared graph: sources, transforms and sinks with the inputs they consume.

use vstd::prelude::*;

use crate::collector::Collector;
use crate::graph::{table_wf, view_table};
use crate::ordered::{entry_value, insert_entry, is_first_key, lemma_insert_other, lemma_insert_then_get};
use crate::name::{valid_name, ComponentName};
use crate::output::{default_word, ComponentOutput, ComponentWithOutputs, NamedOutput};
use crate::text::str_eq;
use crate::transforms;
use crate::validation::{issues_view, lemma_single_use, ValidationError};

verus! {

/// A node configuration together with the outputs it consumes.
pub struct WithInputs<Inner> {
    pub inner: Inner,
    pub inputs: Vec<ComponentOutput>,
}

/// The views of a list of references.
pub open spec fn refs_view(v: Seq<ComponentOutput>) -> Seq<(Seq<char>, Seq<char>)> {
    v.map_values(|x: ComponentOutput| x@)
}

/// Adds `x` to a set of references kept as a list without repetition.
pub open spec fn insert_ref(s: Seq<(Seq<char>, Seq<char>)>, x: (Seq<char>, Seq<char>)) -> Seq<(Seq<char>, Seq<char>)> {
    if s.contains(x) {
        s
    } else {
        s.push(x)
    }
}

impl<Inner> WithInputs<Inner> {
    pub fn new(inner: Inner) -> (r: Self)
        ensures
            r.inner == inner,
            r.inputs@.len() == 0,
    {
        WithInputs { inner, inputs: Vec::new() }
    }

    fn insert_input(&mut self, input: ComponentOutput)
        ensures
            final(self).inner == old(self).inner,
            refs_view(final(self).inputs@) == insert_ref(refs_view(old(self).inputs@), input@),
    {
        let mut i: usize = 0;
        while i < self.inputs.len()
            invariant
                i <= self.inputs@.len(),
                forall|j: int| 0 <= j < i ==> self.inputs@[j]@ != input@,
            decreases self.inputs@.len() - i,
        {
            if self.inputs[i].same_as(&input) {
                assert(refs_view(self.inputs@)[i as int] == input@);
                return;
            }
            i = i + 1;
        }
        proof {
            assert(!refs_view(self.inputs@).contains(input@));
        }
        self.inputs.push(input);
        assert(refs_view(self.inputs@) =~= insert_ref(refs_view(old(self).inputs@), input@));
    }

    /// Adds the default output of `name` to the inputs.
    pub fn with_default_input(self, name: &str) -> (r: Self)
        requires
            valid_name(name@),
        ensures
            r.inner == self.inner,
            refs_view(r.inputs@) == insert_ref(refs_view(self.inputs@), (name@, default_word())),
    {
        let mut r = self;
        r.insert_input(ComponentOutput { name: ComponentName::new(name), output: NamedOutput::Default });
        r
    }

    /// Adds the output `output` of `name` to the inputs.
    pub fn with_named_input(self, name: &str, output: &str) -> (r: Self)
        requires
            valid_name(name@),
            valid_name(output@),
            output@ != default_word(),
        ensures
            r.inner == self.inner,
            refs_view(r.inputs@) == insert_ref(refs_view(self.inputs@), (name@, output@)),
    {
        let mut r = self;
        r.insert_input(ComponentOutput { name: ComponentName::new(name), output: NamedOutput::named(output) });
        r
    }
}

/// The declared graph. Nodes are numbered sources first, then transforms, then sinks.
pub struct Config<S, T, K> {
    pub sources: Vec<(ComponentName, S)>,
    pub transforms: Vec<(ComponentName, WithInputs<T>)>,
    pub sinks: Vec<(ComponentName, WithInputs<K>)>,
}

impl<S: ComponentWithOutputs, T: ComponentWithOutputs, K> Config<S, T, K> {
    pub fn new() -> (r: Self)
        ensures
            r.sources@.len() == 0,
            r.transforms@.len() == 0,
            r.sinks@.len() == 0,
    {
        Config { sources: Vec::new(), transforms: Vec::new(), sinks: Vec::new() }
    }

    pub fn add_source(&mut self, name: ComponentName, source: S)
        ensures
            final(self).sources@ == old(self).sources@.push((name, source)),
            final(self).transforms@ == old(self).transforms@,
            final(self).sinks@ == old(self).sinks@,
    {
        self.sources.push((name, source));
    }

    pub fn add_transform(&mut self, name: ComponentName, transform: WithInputs<T>)
        ensures
            final(self).transforms@ == old(self).transforms@.push((name, transform)),
            final(self).sources@ == old(self).sources@,
            final(self).sinks@ == old(self).sinks@,
    {
        self.transforms.push((name, transform));
    }

    pub fn add_sink(&mut self, name: ComponentName, sink: WithInputs<K>)
        ensures
            final(self).sinks@ == old(self).sinks@.push((name, sink)),
            final(self).sources@ == old(self).sources@,
            final(self).transforms@ == old(self).transforms@,
    {
        self.sinks.push((name, sink));
    }

    pub open spec fn n_sources(&self) -> int {
        self.sources@.len() as int
    }

    pub open spec fn n_transforms(&self) -> int {
        self.transforms@.len() as int
    }

    pub open spec fn node_count(&self) -> int {
        (self.sources@.len() + self.transforms@.len() + self.sinks@.len()) as int
    }

    /// The node numbers fit in a machine word.
    pub open spec fn fits(&self) -> bool {
        self.node_count() <= usize::MAX
    }

    pub open spec fn is_source(&self, i: int) -> bool {
        0 <= i < self.n_sources()
    }

    pub open spec fn is_sink(&self, i: int) -> bool {
        self.n_sources() + self.n_transforms() <= i < self.node_count()
    }

    pub open spec fn name_at(&self, i: int) -> Seq<char> {
        if i < self.n_sources() {
            self.sources@[i].0@
        } else if i < self.n_sources() + self.n_transforms() {
            self.transforms@[i - self.n_sources()].0@
        } else {
            self.sinks@[i - self.n_sources() - self.n_transforms()].0@
        }
    }

    /// The references that node `i` consumes; none for a source.
    pub open spec fn inputs_at(&self, i: int) -> Seq<(Seq<char>, Seq<char>)> {
        if i < self.n_sources() {
            Seq::empty()
        } else if i < self.n_sources() + self.n_transforms() {
            refs_view(self.transforms@[i - self.n_sources()].1.inputs@)
        } else {
            refs_view(self.sinks@[i - self.n_sources() - self.n_transforms()].1.inputs@)
        }
    }

    /// Whether node `i` declares the output `o`; a sink declares none.
    pub open spec fn declares_at(&self, i: int, o: Seq<char>) -> bool {
        if i < self.n_sources() {
            self.sources@[i].1.declares(o)
        } else if i < self.n_sources() + self.n_transforms() {
            self.transforms@[i - self.n_sources()].1.inner.declares(o)
        } else {
            false
        }
    }

    /// `i` is the first node called `name`.
    pub open spec fn is_first_named(&self, name: Seq<char>, i: int) -> bool {
        0 <= i < self.node_count() && self.name_at(i) == name && forall|j: int|
            0 <= j < i ==> self.name_at(j) != name
    }

    /// The node that a reference to `name` designates: the first node of that name.
    pub open spec fn lookup(&self, name: Seq<char>) -> Option<int> {
        if exists|i: int| self.is_first_named(name, i) {
            Some(choose|i: int| self.is_first_named(name, i))
        } else {
            None
        }
    }

    /// For each node and each of its inputs, the node that produces it.
    pub open spec fn table(&self) -> Seq<Seq<Option<usize>>> {
        Seq::new(
            self.node_count() as nat,
            |b: int|
                Seq::new(
                    self.inputs_at(b).len(),
                    |j: int|
                        match self.lookup(self.inputs_at(b)[j].0) {
                            Some(a) => Some(a as usize),
                            None => None,
                        },
                ),
        )
    }

    pub(crate) proof fn lemma_first_named_unique(&self, name: Seq<char>, a: int, b: int)
        requires
            self.is_first_named(name, a),
            self.is_first_named(name, b),
        ensures
            a == b,
    {
    }

    pub(crate) fn node_count_exec(&self) -> (r: usize)
        requires
            self.fits(),
        ensures
            r == self.node_count(),
    {
        self.sources.len() + self.transforms.len() + self.sinks.len()
    }

    pub(crate) fn name_at_exec(&self, i: usize) -> (r: &ComponentName)
        requires
            self.fits(),
            i < self.node_count(),
        ensures
            r@ == self.name_at(i as int),
    {
        if i < self.sources.len() {
            &self.sources[i].0
        } else if i < self.sources.len() + self.transforms.len() {
            &self.transforms[i - self.sources.len()].0
        } else {
            &self.sinks[i - self.sources.len() - self.transforms.len()].0
        }
    }

    pub(crate) fn inputs_at_exec(&self, i: usize) -> (r: Option<&Vec<ComponentOutput>>)
        requires
            self.fits(),
            i < self.node_count(),
        ensures
            r is None <==> self.is_source(i as int),
            r matches Some(v) ==> refs_view(v@) == self.inputs_at(i as int),
    {
        if i < self.sources.len() {
            None
        } else if i < self.sources.len() + self.transforms.len() {
            Some(&self.transforms[i - self.sources.len()].1.inputs)
        } else {
            Some(&self.sinks[i - self.sources.len() - self.transforms.len()].1.inputs)
        }
    }

    pub(crate) fn declares_at_exec(&self, i: usize, o: &NamedOutput) -> (r: bool)
        requires
            self.fits(),
            i < self.node_count(),
        ensures
            r == self.declares_at(i as int, o@),
    {
        if i < self.sources.len() {
            self.sources[i].1.has_output(o)
        } else if i < self.sources.len() + self.transforms.len() {
            self.transforms[i - self.sources.len()].1.inner.has_output(o)
        } else {
            false
        }
    }

    pub(crate) fn lookup_exec(&self, name: &ComponentName) -> (r: Option<usize>)
        requires
            self.fits(),
        ensures
            r matches Some(i) ==> self.lookup(name@) == Some(i as int),
            r is None ==> self.lookup(name@) is None,
    {
        let n = self.node_count_exec();
        let mut i: usize = 0;
        while i < n
            invariant
                self.fits(),
                n == self.node_count(),
                i <= n,
                forall|j: int| 0 <= j < i ==> self.name_at(j) != name@,
            decreases n - i,
        {
            if str_eq(self.name_at_exec(i).as_str(), name.as_str()) {
                proof {
                    assert(self.is_first_named(name@, i as int));
                    let k = choose|k: int| self.is_first_named(name@, k);
                    self.lemma_first_named_unique(name@, i as int, k);
                }
                return Some(i);
            }
            i = i + 1;
        }
        None
    }

    /// Builds the producer table of the graph.
    pub(crate) fn producer_table(&self) -> (r: Vec<Vec<Option<usize>>>)
        requires
            self.fits(),
        ensures
            view_table(&r) == self.table(),
            table_wf(view_table(&r)),
    {
        let n = self.node_count_exec();
        let mut r: Vec<Vec<Option<usize>>> = Vec::new();
        let mut b: usize = 0;
        while b < n
            invariant
                self.fits(),
                n == self.node_count(),
                b <= n,
                r@.len() == b,
                forall|bb: int| 0 <= bb < b ==> #[trigger] r@[bb]@ == self.table()[bb],
            decreases n - b,
        {
            let mut row: Vec<Option<usize>> = Vec::new();
            match self.inputs_at_exec(b) {
                None => {},
                Some(inputs) => {
                    let mut j: usize = 0;
                    while j < inputs.len()
                        invariant
                            self.fits(),
                            n == self.node_count(),
                            b < n,
                            refs_view(inputs@) == self.inputs_at(b as int),
                            j <= inputs@.len(),
                            row@.len() == j,
                            forall|jj: int| 0 <= jj < j ==> #[trigger] row@[jj] == self.table()[b as int][jj],
                        decreases inputs@.len() - j,
                    {
                        let p = self.lookup_exec(&inputs[j].name);
                        proof {
                            assert(self.inputs_at(b as int)[j as int] == inputs@[j as int]@);
                        }
                        row.push(p);
                        j = j + 1;
                    }
                },
            }
            assert(row@ =~= self.table()[b as int]);
            r.push(row);
            b = b + 1;
        }
        let ghost t = view_table(&r);
        assert(t =~= self.table());
        assert forall|bb: int, j: int|
            0 <= bb < t.len() && 0 <= j < t[bb].len() && #[trigger] t[bb][j] is Some implies t[bb][j]->0 < t.len() by {
            let name = self.inputs_at(bb)[j].0;
            assert(self.lookup(name) is Some);
            let k = choose|k: int| self.is_first_named(name, k);
        }
        r
    }
}

/// A configuration that failed to build.
#[derive(Debug)]
pub enum BuildError {
    Transform(transforms::BuildError),
    Validation(Vec<ValidationError>),
}

/// A validated graph whose transforms are compiled.
pub struct Topology<S, K> {
    pub sources: Vec<(ComponentName, S)>,
    pub transforms: Vec<(ComponentName, WithInputs<transforms::Transform>)>,
    pub sinks: Vec<(ComponentName, WithInputs<K>)>,
}

impl<S: ComponentWithOutputs, K> Config<S, transforms::Config, K> {
    /// Transform `i` was compiled into `t`, keeping its name and inputs.
    pub open spec fn compiled_at(&self, i: int, t: (ComponentName, WithInputs<transforms::Transform>)) -> bool {
        &&& t.0@ == self.transforms@[i].0@
        &&& refs_view(t.1.inputs@) == refs_view(self.transforms@[i].1.inputs@)
        &&& self.transforms@[i].1.inner.built(t.1.inner)
    }

    /// Every transform configuration builds.
    pub open spec fn all_build(&self) -> bool {
        forall|i: int| 0 <= i < self.transforms@.len() ==> (#[trigger] self.transforms@[i]).1.inner.builds()
    }

    fn compile(self) -> (r: Result<Topology<S, K>, transforms::BuildError>)
        ensures
            r is Ok <==> self.all_build(),
            r matches Ok(t) ==> t.sources == self.sources && t.sinks == self.sinks && t.transforms@.len()
                == self.transforms@.len() && forall|i: int|
                0 <= i < t.transforms@.len() ==> self.compiled_at(i, #[trigger] t.transforms@[i]),
    {
        let ghost orig = self;
        let Config { sources, transforms: mut pending, sinks } = self;
        let mut built: Vec<(ComponentName, WithInputs<transforms::Transform>)> = Vec::new();
        let n = pending.len();
        let mut k: usize = 0;
        while k < n
            invariant
                orig == self,
                n == orig.transforms@.len(),
                k <= n,
                pending@ == orig.transforms@.skip(k as int),
                built@.len() == k,
                forall|j: int| 0 <= j < k ==> #[trigger] orig.transforms@[j].1.inner.builds(),
                forall|j: int| 0 <= j < k ==> orig.compiled_at(j, #[trigger] built@[j]),
            decreases n - k,
        {
            let (name, item) = pending.remove(0);
            assert(orig.transforms@[k as int] == (name, item));
            let WithInputs { inner, inputs } = item;
            match inner.build() {
                Ok(t) => {
                    built.push((name, WithInputs { inner: t, inputs }));
                },
                Err(e) => {
                    assert(!orig.transforms@[k as int].1.inner.builds());
                    assert(!self.all_build());
                    return Err(e);
                },
            }
            assert(pending@ =~= orig.transforms@.skip(k + 1));
            k = k + 1;
        }
        Ok(Topology { sources, transforms: built, sinks })
    }

    /// Validates the configuration and compiles its transforms.
    pub fn build(self) -> (r: Result<Topology<S, K>, BuildError>)
        requires
            self.fits(),
        ensures
            self.issues().len() > 0 ==> (r matches Err(BuildError::Validation(e)) && issues_view(e@) == self.issues()),
            self.issues().len() == 0 ==> (r is Ok <==> self.all_build()),
            r matches Ok(t) ==> t.sources == self.sources && t.sinks == self.sinks && t.transforms@.len()
                == self.transforms@.len() && forall|i: int|
                0 <= i < t.transforms@.len() ==> self.compiled_at(i, #[trigger] t.transforms@[i]),
    {
        match self.validate() {
            Ok(c) => match c.compile() {
                Ok(t) => Ok(t),
                Err(e) => Err(BuildError::Transform(e)),
            },
            Err(e) => Err(BuildError::Validation(e)),
        }
    }
}

/// No entry has key `k`.
pub open spec fn key_index_none(e: Seq<(Seq<char>, Collector<usize>)>, k: Seq<char>) -> bool {
    crate::ordered::key_index(e, k) is None
}

/// The channels of the consumers and the collectors of the producers.
pub struct Wiring {
    /// The consumer that reads each channel, by channel number.
    pub receivers: Vec<ComponentName>,
    /// For each producing component, its outputs mapped to channel numbers.
    pub collectors: Vec<(ComponentName, Collector<usize>)>,
}

pub open spec fn collectors_view(cs: Seq<(ComponentName, Collector<usize>)>) -> Seq<(Seq<char>, Collector<usize>)> {
    cs.map_values(|p: (ComponentName, Collector<usize>)| (p.0@, p.1))
}

/// The channel that the collectors send the output `x.1` of component `x.0` to.
pub open spec fn wired_target(cs: Seq<(ComponentName, Collector<usize>)>, x: (Seq<char>, Seq<char>)) -> Option<usize> {
    match entry_value(collectors_view(cs), x.0) {
        Some(c) => c.target(x.1),
        None => None,
    }
}

/// The channel of the last pair that names the reference `x`.
pub open spec fn last_channel(s: Seq<((Seq<char>, Seq<char>), usize)>, x: (Seq<char>, Seq<char>)) -> Option<usize>
    decreases s.len(),
{
    if s.len() == 0 {
        None
    } else if s.last().0 == x {
        Some(s.last().1)
    } else {
        last_channel(s.drop_last(), x)
    }
}

/// The names of the producers that have a collector, in order.
pub open spec fn producer_names(cs: Seq<(ComponentName, Collector<usize>)>) -> Seq<Seq<char>> {
    cs.map_values(|p: (ComponentName, Collector<usize>)| p.0@)
}

/// Some pair of `s` names a reference to the component `n`.
pub open spec fn references_component(s: Seq<((Seq<char>, Seq<char>), usize)>, n: Seq<char>) -> bool {
    exists|k: int| 0 <= k < s.len() && s[k].0.0 == n
}

/// Connects the output `x` to channel `c`.
fn wire(cs: &mut Vec<(ComponentName, Collector<usize>)>, x: &ComponentOutput, c: usize)
    ensures
        producer_names(old(cs)@).no_duplicates() ==> producer_names(final(cs)@).no_duplicates(),
        forall|n: Seq<char>| #[trigger] producer_names(final(cs)@).contains(n) <==> (producer_names(
            old(cs)@,
        ).contains(n) || n == x.name@),
        forall|y: (Seq<char>, Seq<char>)| #[trigger] wired_target(final(cs)@, y) == if y == x@ {
            Some(c)
        } else {
            wired_target(old(cs)@, y)
        },
{
    let ghost v = collectors_view(cs@);
    let mut i: usize = 0;
    while i < cs.len()
        invariant
            v == collectors_view(cs@),
            cs@ == old(cs)@,
            i <= cs@.len(),
            forall|j: int| 0 <= j < i ==> v[j].0 != x.name@,
        ensures
            v == collectors_view(cs@),
            cs@ == old(cs)@,
            i <= cs@.len(),
            forall|j: int| 0 <= j < i ==> v[j].0 != x.name@,
            i < cs@.len() ==> v[i as int].0 == x.name@,
        decreases cs@.len() - i,
    {
        if str_eq(cs[i].0.as_str(), x.name.as_str()) {
            break;
        }
        i = i + 1;
    }
    let ghost found = i < cs@.len();
    if i == cs.len() {
        cs.push((x.name.clone(), Collector::new()));
        proof {
            assert(collectors_view(cs@) =~= v.push((x.name@, cs@.last().1)));
        }
    }
    proof {
        assert(is_first_key(collectors_view(cs@), x.name@, i as int));
    }
    let (name, mut col) = cs.remove(i);
    let ghost old_col = col;
    col.add_output(x.output.clone(), c);
    cs.insert(i, (name, col));
    proof {
        let v2 = collectors_view(cs@);
        let k = x.name@;
        let names0 = producer_names(old(cs)@);
        if found {
            assert(producer_names(cs@) =~= names0);
            assert(names0[i as int] == v[i as int].0);
        } else {
            assert(producer_names(cs@) =~= names0.push(k));
            assert forall|j: int| 0 <= j < names0.len() implies names0[j] != k by {
                assert(names0[j] == v[j].0);
            }
            assert forall|n: Seq<char>| #[trigger] producer_names(cs@).contains(n) implies names0.contains(n) || n == k by {
                let j = choose|j: int| 0 <= j < producer_names(cs@).len() && producer_names(cs@)[j] == n;
                if j < names0.len() {
                    assert(names0[j] == n);
                }
            }
            assert forall|n: Seq<char>| names0.contains(n) || n == k implies #[trigger] producer_names(cs@).contains(n) by {
                if n == k {
                    assert(producer_names(cs@)[names0.len() as int] == k);
                } else {
                    let j = choose|j: int| 0 <= j < names0.len() && names0[j] == n;
                    assert(producer_names(cs@)[j] == n);
                }
            }
        }
        if found {
            assert(is_first_key(v, k, i as int));
            let kk = choose|j: int| is_first_key(v, k, j);
            assert(kk == i);
            assert(v2 =~= v.update(i as int, (k, col)));
            assert(v2 == insert_entry(v, k, col));
            assert(entry_value(v, k) == Some(old_col));
        } else {
            assert(v2 =~= v.push((k, col)));
            assert forall|j: int| 0 <= j < v.len() implies v[j].0 != k by {}
            assert(key_index_none(v, k));
            assert(v2 == insert_entry(v, k, col));
        }
        lemma_insert_then_get(v, k, col);
        assert forall|y: (Seq<char>, Seq<char>)| #[trigger] wired_target(cs@, y) == if y == x@ {
            Some(c)
        } else {
            wired_target(old(cs)@, y)
        } by {
            if y.0 != k {
                lemma_insert_other(v, k, col, y.0);
            } else if y.1 != x.output@ {
                if y.1 != crate::output::default_word() && x.output@ != crate::output::default_word() {
                    lemma_insert_other(old_col.others_view(), x.output@, c, y.1);
                }
            } else {
                if y.1 != crate::output::default_word() {
                    lemma_insert_then_get(old_col.others_view(), x.output@, c);
                }
            }
        }
    }
}

/// Tags each reference with channel `c`.
pub open spec fn on_channel(inputs: Seq<(Seq<char>, Seq<char>)>, c: int) -> Seq<((Seq<char>, Seq<char>), usize)> {
    inputs.map_values(|x: (Seq<char>, Seq<char>)| (x, c as usize))
}

impl<S, K> Topology<S, K> {
    /// The consumers, sinks first then transforms; consumer `c` reads channel `c`.
    pub open spec fn consumer_count(&self) -> int {
        (self.sinks@.len() + self.transforms@.len()) as int
    }

    pub open spec fn consumer_name(&self, c: int) -> Seq<char> {
        if c < self.sinks@.len() {
            self.sinks@[c].0@
        } else {
            self.transforms@[c - self.sinks@.len()].0@
        }
    }

    pub open spec fn consumer_inputs(&self, c: int) -> Seq<(Seq<char>, Seq<char>)> {
        if c < self.sinks@.len() {
            refs_view(self.sinks@[c].1.inputs@)
        } else {
            refs_view(self.transforms@[c - self.sinks@.len()].1.inputs@)
        }
    }

    /// Every reference of the consumers below `c`, with the channel of its consumer.
    pub open spec fn wiring_upto(&self, c: int) -> Seq<((Seq<char>, Seq<char>), usize)>
        decreases c,
    {
        if c <= 0 {
            Seq::empty()
        } else {
            self.wiring_upto(c - 1) + on_channel(self.consumer_inputs(c - 1), c - 1)
        }
    }

    pub open spec fn wiring(&self) -> Seq<((Seq<char>, Seq<char>), usize)> {
        self.wiring_upto(self.consumer_count())
    }

    /// Allocates one channel per sink and transform and connects every referenced output
    /// to the channel of the node that consumes it.
    pub fn prepare_wiring(&self) -> (r: Wiring)
        requires
            self.consumer_count() <= usize::MAX,
        ensures
            r.receivers@.len() == self.consumer_count(),
            forall|c: int| 0 <= c < self.consumer_count() ==> #[trigger] r.receivers@[c]@ == self.consumer_name(c),
            forall|x: (Seq<char>, Seq<char>)| #[trigger] wired_target(r.collectors@, x) == last_channel(self.wiring(), x),
            producer_names(r.collectors@).no_duplicates(),
            forall|n: Seq<char>| #[trigger] producer_names(r.collectors@).contains(n) <==> references_component(
                self.wiring(),
                n,
            ),
    {
        let mut receivers: Vec<ComponentName> = Vec::new();
        let mut collectors: Vec<(ComponentName, Collector<usize>)> = Vec::new();
        let nk = self.sinks.len();
        let n = nk + self.transforms.len();
        let mut c: usize = 0;
        while c < n
            invariant
                nk == self.sinks@.len(),
                n == self.consumer_count(),
                c <= n,
                receivers@.len() == c,
                forall|d: int| 0 <= d < c ==> #[trigger] receivers@[d]@ == self.consumer_name(d),
                forall|x: (Seq<char>, Seq<char>)| #[trigger] wired_target(collectors@, x) == last_channel(self.wiring_upto(c as int), x),
                producer_names(collectors@).no_duplicates(),
                forall|m: Seq<char>| #[trigger] producer_names(collectors@).contains(m) <==> references_component(
                    self.wiring_upto(c as int),
                    m,
                ),
            decreases n - c,
        {
            let (name, inputs) = if c < nk {
                (&self.sinks[c].0, &self.sinks[c].1.inputs)
            } else {
                (&self.transforms[c - nk].0, &self.transforms[c - nk].1.inputs)
            };
            receivers.push(name.clone());
            let ghost base = self.wiring_upto(c as int);
            let mut j: usize = 0;
            while j < inputs.len()
                invariant
                    c < n,
                    refs_view(inputs@) == self.consumer_inputs(c as int),
                    base == self.wiring_upto(c as int),
                    j <= inputs@.len(),
                    forall|x: (Seq<char>, Seq<char>)| #[trigger] wired_target(collectors@, x) == last_channel(
                        base + on_channel(refs_view(inputs@).take(j as int), c as int), x),
                    producer_names(collectors@).no_duplicates(),
                    forall|m: Seq<char>| #[trigger] producer_names(collectors@).contains(m) <==> references_component(
                        base + on_channel(refs_view(inputs@).take(j as int), c as int),
                        m,
                    ),
                decreases inputs@.len() - j,
            {
                let ghost prev = base + on_channel(refs_view(inputs@).take(j as int), c as int);
                let ghost next = base + on_channel(refs_view(inputs@).take(j + 1), c as int);
                proof {
                    assert(next.drop_last() =~= prev);
                    assert(next.last() == (inputs@[j as int]@, c));
                }
                wire(&mut collectors, &inputs[j], c);
                proof {
                    assert forall|m: Seq<char>| references_component(next, m) <==> (references_component(prev, m)
                        || m == inputs@[j as int].name@) by {
                        if references_component(next, m) {
                            let k = choose|k: int| 0 <= k < next.len() && next[k].0.0 == m;
                            if k < prev.len() {
                                assert(prev[k] == next[k]);
                            }
                        }
                        if references_component(prev, m) {
                            let k = choose|k: int| 0 <= k < prev.len() && prev[k].0.0 == m;
                            assert(prev[k] == next[k]);
                        }
                        if m == inputs@[j as int].name@ {
                            assert(next[prev.len() as int].0.0 == m);
                        }
                    }
                }
                j = j + 1;
            }
            proof {
                assert(refs_view(inputs@).take(j as int) =~= refs_view(inputs@));
            }
            c = c + 1;
        }
        Wiring { receivers, collectors }
    }
}

proof fn lemma_last_channel_concat(s: Seq<((Seq<char>, Seq<char>), usize)>, t: Seq<((Seq<char>, Seq<char>), usize)>, x: (Seq<char>, Seq<char>))
    ensures
        last_channel(s + t, x) == match last_channel(t, x) {
            Some(c) => Some(c),
            None => last_channel(s, x),
        },
    decreases t.len(),
{
    if t.len() == 0 {
        assert(s + t =~= s);
    } else {
        assert((s + t).drop_last() =~= s + t.drop_last());
        assert((s + t).last() == t.last());
        lemma_last_channel_concat(s, t.drop_last(), x);
    }
}

proof fn lemma_last_channel_tagged(inputs: Seq<(Seq<char>, Seq<char>)>, c: int, x: (Seq<char>, Seq<char>))
    ensures
        last_channel(on_channel(inputs, c), x) == if inputs.contains(x) {
            Some(c as usize)
        } else {
            None
        },
    decreases inputs.len(),
{
    if inputs.len() > 0 {
        let t = on_channel(inputs, c);
        assert(t.drop_last() =~= on_channel(inputs.drop_last(), c));
        lemma_last_channel_tagged(inputs.drop_last(), c, x);
        if inputs.drop_last().contains(x) {
            let k = choose|k: int| 0 <= k < inputs.drop_last().len() && inputs.drop_last()[k] == x;
            assert(inputs[k] == x);
        }
        if inputs.contains(x) && inputs.last() != x {
            let k = choose|k: int| 0 <= k < inputs.len() && inputs[k] == x;
            assert(inputs.drop_last()[k] == x);
        }
    }
}

proof fn lemma_wired_upto<S, K>(t: &Topology<S, K>, x: (Seq<char>, Seq<char>), c: int, m: int)
    requires
        0 <= c < m <= t.consumer_count(),
        t.consumer_inputs(c).contains(x),
        forall|d: int| c < d < m ==> !#[trigger] t.consumer_inputs(d).contains(x),
    ensures
        last_channel(t.wiring_upto(m), x) == Some(c as usize),
    decreases m,
{
    lemma_last_channel_concat(t.wiring_upto(m - 1), on_channel(t.consumer_inputs(m - 1), m - 1), x);
    lemma_last_channel_tagged(t.consumer_inputs(m - 1), m - 1, x);
    if m - 1 > c {
        lemma_wired_upto(t, x, c, m - 1);
    }
}

proof fn lemma_unwired_upto<S, K>(t: &Topology<S, K>, x: (Seq<char>, Seq<char>), m: int)
    requires
        0 <= m <= t.consumer_count(),
        forall|d: int| 0 <= d < m ==> !#[trigger] t.consumer_inputs(d).contains(x),
    ensures
        last_channel(t.wiring_upto(m), x) is None,
    decreases m,
{
    if m > 0 {
        lemma_last_channel_concat(t.wiring_upto(m - 1), on_channel(t.consumer_inputs(m - 1), m - 1), x);
        lemma_last_channel_tagged(t.consumer_inputs(m - 1), m - 1, x);
        lemma_unwired_upto(t, x, m - 1);
    }
}

/// An output that exactly one consumer references is connected to that consumer's
/// channel, and an output that no consumer references is connected to none.
pub proof fn lemma_wiring_delivers<S, K>(t: &Topology<S, K>, x: (Seq<char>, Seq<char>))
    ensures
        forall|c: int|
            0 <= c < t.consumer_count() && #[trigger] t.consumer_inputs(c).contains(x) && (forall|d: int|
                0 <= d < t.consumer_count() && d != c ==> !#[trigger] t.consumer_inputs(d).contains(x))
                ==> last_channel(t.wiring(), x) == Some(c as usize),
        (forall|d: int| 0 <= d < t.consumer_count() ==> !#[trigger] t.consumer_inputs(d).contains(x))
            ==> last_channel(t.wiring(), x) is None,
{
    assert forall|c: int|
        0 <= c < t.consumer_count() && #[trigger] t.consumer_inputs(c).contains(x) && (forall|d: int|
            0 <= d < t.consumer_count() && d != c ==> !#[trigger] t.consumer_inputs(d).contains(x))
            implies last_channel(t.wiring(), x) == Some(c as usize) by {
        lemma_wired_upto(t, x, c, t.consumer_count());
    }
    if forall|d: int| 0 <= d < t.consumer_count() ==> !#[trigger] t.consumer_inputs(d).contains(x) {
        lemma_unwired_upto(t, x, t.consumer_count());
    }
}

proof fn lemma_no_consumer<S: ComponentWithOutputs, T: ComponentWithOutputs, K>(c: &Config<S, T, K>, x: (Seq<char>, Seq<char>), m: int)
    requires
        c.consumers_upto(x, m).len() == 0,
    ensures
        forall|b: int| 0 <= b < m ==> !#[trigger] c.inputs_at(b).contains(x),
    decreases m,
{
    if m > 0 {
        lemma_no_consumer(c, x, m - 1);
    }
}

#[verifier::rlimit(40)]
proof fn lemma_one_consumer<S: ComponentWithOutputs, T: ComponentWithOutputs, K>(c: &Config<S, T, K>, x: (Seq<char>, Seq<char>), m: int)
    requires
        c.consumers_upto(x, m).len() == 1,
    ensures
        exists|b: int|
            0 <= b < m && c.inputs_at(b).contains(x) && forall|d: int|
                0 <= d < m && d != b ==> !#[trigger] c.inputs_at(d).contains(x),
    decreases m,
{
    if m > 0 {
        if c.inputs_at(m - 1).contains(x) {
            lemma_no_consumer(c, x, m - 1);
            assert(0 <= m - 1 < m && c.inputs_at(m - 1).contains(x));
        } else {
            lemma_one_consumer(c, x, m - 1);
            let b = choose|b: int|
                0 <= b < m - 1 && c.inputs_at(b).contains(x) && forall|d: int|
                    0 <= d < m - 1 && d != b ==> !#[trigger] c.inputs_at(d).contains(x);
            assert(0 <= b < m && c.inputs_at(b).contains(x));
        }
    }
}

/// In a configuration without problems, once built and wired, every referenced output is
/// connected to the channel of the one node that consumes it.
pub proof fn lemma_valid_wiring_delivers<S: ComponentWithOutputs, K>(c: &Config<S, transforms::Config, K>, t: &Topology<S, K>)
    requires
        c.issues().len() == 0,
        t.sinks == c.sinks,
        t.transforms@.len() == c.transforms@.len(),
        forall|i: int| 0 <= i < t.transforms@.len() ==> c.compiled_at(i, #[trigger] t.transforms@[i]),
    ensures
        forall|x: (Seq<char>, Seq<char>)| #[trigger] c.refs().contains(x) ==> exists|k: int|
            0 <= k < t.consumer_count() && t.consumer_inputs(k).contains(x) && (forall|d: int|
                0 <= d < t.consumer_count() && d != k ==> !#[trigger] t.consumer_inputs(d).contains(x))
                && last_channel(t.wiring(), x) == Some(k as usize),
{
    lemma_single_use(c);
    let ns = c.n_sources();
    let nt = c.n_transforms();
    let nk = t.sinks@.len() as int;
    assert forall|x: (Seq<char>, Seq<char>)| #[trigger] c.refs().contains(x) implies exists|k: int|
        0 <= k < t.consumer_count() && t.consumer_inputs(k).contains(x) && (forall|d: int|
            0 <= d < t.consumer_count() && d != k ==> !#[trigger] t.consumer_inputs(d).contains(x))
            && last_channel(t.wiring(), x) == Some(k as usize) by {
        assert(c.consumers(x).len() == 1);
        lemma_one_consumer(c, x, c.node_count());
        let b = choose|b: int|
            0 <= b < c.node_count() && c.inputs_at(b).contains(x) && forall|d: int|
                0 <= d < c.node_count() && d != b ==> !#[trigger] c.inputs_at(d).contains(x);
        assert(b >= ns);
        let k = if b >= ns + nt { b - ns - nt } else { nk + (b - ns) };
        assert forall|d: int| 0 <= d < t.consumer_count() implies #[trigger] t.consumer_inputs(d) == c.inputs_at(
            if d < nk { ns + nt + d } else { ns + (d - nk) },
        ) by {
            if d >= nk {
                assert(c.compiled_at(d - nk, t.transforms@[d - nk]));
            }
        }
        assert(t.consumer_inputs(k) == c.inputs_at(b));
        assert forall|d: int| 0 <= d < t.consumer_count() && d != k implies !#[trigger] t.consumer_inputs(d).contains(x) by {
            let bd = if d < nk { ns + nt + d } else { ns + (d - nk) };
            assert(t.consumer_inputs(d) == c.inputs_at(bd));
            assert(bd != b);
        }
        lemma_wiring_delivers(t, x);
    }
}

} // verus!
