//! Configuration values that may come from the process environment.

use vstd::prelude::*;

verus! {

/// A literal string, or the name of an environment variable with an optional fallback.
pub enum StringOrEnv {
    String(String),
    EnvironmentVariable { key: String, default_value: Option<String> },
}

impl StringOrEnv {
    /// The value, given what the environment holds under the variable's key (`found`).
    pub open spec fn resolved(&self, found: Option<Seq<char>>) -> Option<Seq<char>> {
        match self {
            StringOrEnv::String(s) => Some(s@),
            StringOrEnv::EnvironmentVariable { default_value, .. } => match found {
                Some(v) => Some(v),
                None => match default_value {
                    Some(d) => Some(d@),
                    None => None,
                },
            },
        }
    }

    /// The environment variable to read, if any.
    pub fn key(&self) -> (r: Option<&str>)
        ensures
            r is Some <==> self is EnvironmentVariable,
            r matches Some(k) ==> k@ == self->key@,
    {
        match self {
            StringOrEnv::String(_) => None,
            StringOrEnv::EnvironmentVariable { key, .. } => Some(key.as_str()),
        }
    }

    /// Resolves the value from what the environment holds under its key.
    pub fn resolve(&self, found: Option<String>) -> (r: Option<String>)
        ensures
            (match r {
                Some(s) => Some(s@),
                None => None,
            }) == self.resolved(match found {
                Some(s) => Some(s@),
                None => None,
            }),
    {
        match self {
            StringOrEnv::String(s) => Some(s.clone()),
            StringOrEnv::EnvironmentVariable { default_value, .. } => match found {
                Some(v) => Some(v),
                None => match default_value {
                    Some(d) => Some(d.clone()),
                    None => None,
                },
            },
        }
    }
}

} // verus!
