//! Component identifiers and the character-level rules that govern them.

use vstd::prelude::*;
use vstd::string::StrSliceExecFns;

verus! {

/// An ASCII letter.
pub open spec fn is_alpha(c: char) -> bool {
    (('a' as u32) <= (c as u32) && (c as u32) <= ('z' as u32)) || (('A' as u32) <= (c as u32)
        && (c as u32) <= ('Z' as u32))
}

/// A character allowed after the first one of a name: letter, digit, `-` or `_`.
pub open spec fn is_name_char(c: char) -> bool {
    is_alpha(c) || (('0' as u32) <= (c as u32) && (c as u32) <= ('9' as u32)) || c == '-' || c
        == '_'
}

/// A name: a letter followed by letters, digits, dashes and underscores.
pub open spec fn valid_name(s: Seq<char>) -> bool {
    &&& s.len() > 0
    &&& is_alpha(s[0])
    &&& forall|i: int| 1 <= i < s.len() ==> is_name_char(#[trigger] s[i])
}

fn char_is_alpha(c: char) -> (r: bool)
    ensures
        r == is_alpha(c),
{
    ('a' <= c && c <= 'z') || ('A' <= c && c <= 'Z')
}

fn char_is_name_char(c: char) -> (r: bool)
    ensures
        r == is_name_char(c),
{
    char_is_alpha(c) || ('0' <= c && c <= '9') || c == '-' || c == '_'
}

/// Whether `input` is a valid component or output name.
pub fn validate_name(input: &str) -> (r: bool)
    ensures
        r == valid_name(input@),
{
    let n = input.unicode_len();
    if n == 0 {
        return false;
    }
    if !char_is_alpha(input.get_char(0)) {
        return false;
    }
    let mut i: usize = 1;
    while i < n
        invariant
            n == input@.len(),
            1 <= i <= n,
            is_alpha(input@[0]),
            forall|j: int| 1 <= j < i ==> is_name_char(#[trigger] input@[j]),
        decreases n - i,
    {
        if !char_is_name_char(input.get_char(i)) {
            return false;
        }
        i = i + 1;
    }
    true
}

} // verus!

verus! {

/// The identifier of a component of the graph: a valid name.
#[derive(Debug, PartialEq, Eq, Hash)]
pub struct ComponentName(String);

impl View for ComponentName {
    type V = Seq<char>;

    closed spec fn view(&self) -> Seq<char> {
        self.0@
    }
}

impl Clone for ComponentName {
    fn clone(&self) -> (r: Self)
        ensures
            r@ == self@,
    {
        ComponentName(self.0.clone())
    }
}

impl ComponentName {
    /// Whether the name obeys the naming rule.
    pub open spec fn wf(&self) -> bool {
        valid_name(self@)
    }

    /// Wraps a string already known to be a valid name.
    pub fn new(value: &str) -> (r: Self)
        requires
            valid_name(value@),
        ensures
            r@ == value@,
            r.wf(),
    {
        ComponentName(value.to_owned())
    }

    /// Checks `value` against the naming rule and wraps it.
    pub fn parse(value: &str) -> (r: Result<Self, &'static str>)
        ensures
            r is Ok <==> valid_name(value@),
            r matches Ok(n) ==> n@ == value@,
    {
        if validate_name(value) {
            Ok(ComponentName(value.to_owned()))
        } else {
            Err("invalid component format")
        }
    }

    pub fn as_str(&self) -> (r: &str)
        ensures
            r@ == self@,
    {
        self.0.as_str()
    }

    pub fn into_string(self) -> (r: String)
        ensures
            r@ == self@,
    {
        self.0
    }
}

} // verus!
