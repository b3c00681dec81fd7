//! Output selectors of components and the references that consumers make to them.

use vstd::prelude::*;
use vstd::string::StrSliceExecFns;
use vstd::string::StringExecFns;

use crate::name::{validate_name, valid_name, is_name_char, ComponentName};
use crate::text::{find_char, str_eq};

verus! {

/// The characters of the word `default`, which names the default output.
pub open spec fn default_word() -> Seq<char> {
    seq!['d', 'e', 'f', 'a', 'u', 'l', 't']
}

/// A component that declares a set of outputs that consumers may reference.
pub trait ComponentWithOutputs {
    /// Whether the output named `output` is declared.
    spec fn declares(&self, output: Seq<char>) -> bool;

    fn has_output(&self, output: &NamedOutput) -> (r: bool)
        ensures
            r == self.declares(output@),
    ;
}

/// One of a component's emission ports.
#[derive(Debug, PartialEq, Eq, Hash)]
pub enum NamedOutput {
    Default,
    Named(String),
}

impl View for NamedOutput {
    type V = Seq<char>;

    /// The output's name as written in a configuration.
    open spec fn view(&self) -> Seq<char> {
        match self {
            NamedOutput::Default => default_word(),
            NamedOutput::Named(n) => n@,
        }
    }
}

impl Clone for NamedOutput {
    fn clone(&self) -> (r: Self)
        ensures
            r == *self || (r@ == self@ && (r is Named) == (self is Named)),
    {
        match self {
            NamedOutput::Default => NamedOutput::Default,
            NamedOutput::Named(n) => NamedOutput::Named(n.clone()),
        }
    }
}

impl Default for NamedOutput {
    fn default() -> (r: Self)
        ensures
            r is Default,
    {
        NamedOutput::Default
    }
}

impl NamedOutput {
    /// A named output carries a valid name other than `default`.
    pub open spec fn wf(&self) -> bool {
        match self {
            NamedOutput::Default => true,
            NamedOutput::Named(n) => valid_name(n@) && n@ != default_word(),
        }
    }

    pub fn is_default(&self) -> (r: bool)
        ensures
            r == (self is Default),
    {
        matches!(self, NamedOutput::Default)
    }

    /// Whether the output is called `default`.
    pub fn is_default_name(&self) -> (r: bool)
        ensures
            r == (self@ == default_word()),
    {
        proof {
            reveal_strlit("default");
            assert("default"@ =~= default_word());
        }
        str_eq(self.as_str(), "default")
    }

    /// The named output `name`.
    pub fn named(name: &str) -> (r: Self)
        requires
            valid_name(name@),
            name@ != default_word(),
        ensures
            r is Named,
            r@ == name@,
            r.wf(),
    {
        NamedOutput::Named(name.to_owned())
    }

    /// Reads an output name; the word `default` gives the default output.
    pub fn parse(value: &str) -> (r: Result<Self, &'static str>)
        ensures
            r is Ok <==> valid_name(value@),
            r matches Ok(o) ==> o@ == value@ && o.wf(),
    {
        if validate_name(value) {
            proof {
                reveal_strlit("default");
                assert("default"@ =~= default_word());
            }
            if str_eq(value, "default") {
                Ok(NamedOutput::Default)
            } else {
                Ok(NamedOutput::Named(value.to_owned()))
            }
        } else {
            Err("invalid output name format")
        }
    }

    pub fn as_str(&self) -> (r: &str)
        ensures
            r@ == self@,
    {
        match self {
            NamedOutput::Default => {
                proof {
                    reveal_strlit("default");
                }
                "default"
            },
            NamedOutput::Named(n) => n.as_str(),
        }
    }

    /// Whether two outputs have the same name.
    pub fn same_as(&self, other: &NamedOutput) -> (r: bool)
        ensures
            r == (self@ == other@),
    {
        str_eq(self.as_str(), other.as_str())
    }
}

/// The pair (component, output) that identifies one edge source in the graph.
#[derive(Debug, PartialEq, Eq, Hash)]
pub struct ComponentOutput {
    pub name: ComponentName,
    pub output: NamedOutput,
}

impl View for ComponentOutput {
    type V = (Seq<char>, Seq<char>);

    open spec fn view(&self) -> (Seq<char>, Seq<char>) {
        (self.name@, self.output@)
    }
}

impl Clone for ComponentOutput {
    fn clone(&self) -> (r: Self)
        ensures
            r@ == self@,
    {
        ComponentOutput { name: self.name.clone(), output: self.output.clone() }
    }
}

/// `k` is the position of the first `#` in `s`.
pub open spec fn is_first_hash(s: Seq<char>, k: int) -> bool {
    0 <= k < s.len() && s[k] == '#' && forall|j: int| 0 <= j < k ==> s[j] != '#'
}

/// The (component, output) pair that the string form `s` denotes, if it is well formed:
/// `component` alone selects the default output, `component#output` a named one.
pub open spec fn reference_of(s: Seq<char>) -> Option<(Seq<char>, Seq<char>)> {
    if exists|k: int| is_first_hash(s, k) {
        let k = choose|k: int| is_first_hash(s, k);
        if valid_name(s.take(k)) && valid_name(s.skip(k + 1)) {
            Some((s.take(k), s.skip(k + 1)))
        } else {
            None
        }
    } else if valid_name(s) {
        Some((s, default_word()))
    } else {
        None
    }
}

/// The string form of a reference: the component alone for the default output,
/// else `component#output`.
pub open spec fn format_reference(c: (Seq<char>, Seq<char>)) -> Seq<char> {
    if c.1 == default_word() {
        c.0
    } else {
        c.0 + seq!['#'] + c.1
    }
}

proof fn lemma_first_hash_unique(s: Seq<char>, a: int, b: int)
    requires
        is_first_hash(s, a),
        is_first_hash(s, b),
    ensures
        a == b,
{
    if a < b {
        assert(s[a] != '#');
    } else if b < a {
        assert(s[b] != '#');
    }
}

/// Formatting a reference with valid names and reading it back gives the same reference.
pub proof fn lemma_reference_round_trip(c: (Seq<char>, Seq<char>))
    requires
        valid_name(c.0),
        valid_name(c.1),
    ensures
        reference_of(format_reference(c)) == Some(c),
{
    let s = format_reference(c);
    assert forall|j: int| 0 <= j < c.0.len() implies c.0[j] != '#' by {
        if j > 0 {
            assert(is_name_char(c.0[j]));
        }
    }
    if c.1 == default_word() {
        assert(!exists|k: int| is_first_hash(s, k));
    } else {
        let k = c.0.len() as int;
        assert(s[k] == '#');
        assert forall|j: int| 0 <= j < k implies s[j] != '#' by {
            assert(s[j] == c.0[j]);
        }
        assert(is_first_hash(s, k));
        let k2 = choose|k2: int| is_first_hash(s, k2);
        lemma_first_hash_unique(s, k, k2);
        assert(s.take(k) =~= c.0);
        assert(s.skip(k + 1) =~= c.1);
    }
}

impl ComponentOutput {
    pub open spec fn wf(&self) -> bool {
        self.name.wf() && self.output.wf()
    }

    /// A copy that owns its parts.
    pub fn to_owned(&self) -> (r: ComponentOutput)
        ensures
            r@ == self@,
    {
        self.clone()
    }

    /// A copy used as a lookup key.
    pub fn to_borrowed(&self) -> (r: ComponentOutput)
        ensures
            r@ == self@,
    {
        self.clone()
    }

    pub fn to_owned_name(&self) -> (r: ComponentName)
        ensures
            r@ == self.name@,
    {
        self.name.clone()
    }

    pub fn to_owned_output(&self) -> (r: NamedOutput)
        ensures
            r@ == self.output@,
    {
        self.output.clone()
    }

    /// Whether two references select the same output of the same component.
    pub fn same_as(&self, other: &ComponentOutput) -> (r: bool)
        ensures
            r == (self@ == other@),
    {
        str_eq(self.name.as_str(), other.name.as_str()) && self.output.same_as(&other.output)
    }

    /// Reads the string form of a reference.
    pub fn parse(s: &str) -> (r: Result<ComponentOutput, &'static str>)
        ensures
            r is Ok <==> reference_of(s@) is Some,
            r matches Ok(c) ==> reference_of(s@) == Some(c@) && c.wf(),
    {
        match find_char(s, '#') {
            Some(k) => {
                let n = s.unicode_len();
                let left = s.substring_char(0, k);
                let right = s.substring_char(k + 1, n);
                proof {
                    assert(is_first_hash(s@, k as int));
                    let k2 = choose|k2: int| is_first_hash(s@, k2);
                    lemma_first_hash_unique(s@, k as int, k2);
                    assert(left@ =~= s@.take(k as int));
                    assert(right@ =~= s@.skip(k + 1));
                }
                let name = ComponentName::parse(left)?;
                let output = NamedOutput::parse(right)?;
                Ok(ComponentOutput { name, output })
            },
            None => {
                let name = ComponentName::parse(s)?;
                Ok(ComponentOutput { name, output: NamedOutput::Default })
            },
        }
    }

    /// Builds a reference from its object form, whose output defaults to `default`.
    pub fn from_parts(component: &str, output: Option<&str>) -> (r: Result<ComponentOutput, &'static str>)
        ensures
            r is Ok <==> valid_name(component@) && (output matches Some(o) ==> valid_name(o@)),
            r matches Ok(c) ==> c.wf() && c.name@ == component@ && c.output@ == match output {
                Some(o) => o@,
                None => default_word(),
            },
    {
        let name = ComponentName::parse(component)?;
        let output = match output {
            Some(o) => NamedOutput::parse(o)?,
            None => NamedOutput::Default,
        };
        Ok(ComponentOutput { name, output })
    }

    /// The string form: the component alone for the default output, else `component#output`.
    pub fn to_string(&self) -> (r: String)
        ensures
            r@ == format_reference(self@),
    {
        let name = String::from_str(self.name.as_str());
        proof {
            reveal_strlit("default");
            reveal_strlit("#");
            assert("default"@ =~= default_word());
            assert("#"@ =~= seq!['#']);
        }
        if str_eq(self.output.as_str(), "default") {
            name
        } else {
            let with_hash = name.concat("#");
            with_hash.concat(self.output.as_str())
        }
    }
}

} // verus!
