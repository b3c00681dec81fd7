//! Extracts the named groups of a regular expression from log messages.

use vstd::prelude::*;

use crate::event::{AttrView, Event, EventLog, EventLogAttribute, EventView};
use crate::ordered::{attributes_insert, insert_entry};
use crate::pattern::{opt_texts_view, regex_captures, regex_compiles, regex_group_names, regex_is_match, Pattern};
use crate::text::str_eq;

verus! {

/// The characters of the word `message`, the group that replaces a log's message.
pub open spec fn message_word() -> Seq<char> {
    seq!['m', 'e', 's', 's', 'a', 'g', 'e']
}

/// A log with the first `i` groups applied: a group named `message` replaces the
/// message, any other named group that took part in the match becomes a text attribute.
pub open spec fn apply_groups(
    log: (Seq<(Seq<char>, AttrView)>, Seq<char>),
    names: Seq<Option<Seq<char>>>,
    groups: Seq<Option<Seq<char>>>,
    i: int,
) -> (Seq<(Seq<char>, AttrView)>, Seq<char>)
    decreases i,
{
    if i <= 0 {
        log
    } else {
        let prev = apply_groups(log, names, groups, i - 1);
        let j = i - 1;
        if j < names.len() && j < groups.len() && names[j] is Some && groups[j] is Some {
            if names[j]->0 == message_word() {
                (prev.0, groups[j]->0)
            } else {
                (insert_entry(prev.0, names[j]->0, AttrView::Text(groups[j]->0)), prev.1)
            }
        } else {
            prev
        }
    }
}

/// The log after parsing with `pattern`: unchanged when the pattern does not match its
/// message.
pub open spec fn parsed_log(pattern: Seq<char>, log: (Seq<(Seq<char>, AttrView)>, Seq<char>)) -> (Seq<(Seq<char>, AttrView)>, Seq<char>) {
    if regex_is_match(pattern, log.1) {
        let names = regex_group_names(pattern);
        apply_groups(log, names, regex_captures(pattern, log.1), names.len() as int)
    } else {
        log
    }
}

/// The event after parsing: logs are parsed, metrics pass unchanged.
pub open spec fn parsed_event(pattern: Seq<char>, e: EventView) -> EventView {
    match e {
        EventView::Log { attributes, message } => {
            let l = parsed_log(pattern, (attributes, message));
            EventView::Log { attributes: l.0, message: l.1 }
        },
        _ => e,
    }
}

/// Applies the groups of a match to a log: `names` and `groups` are, by group index, the
/// group names of the expression and the text each group captured.
pub fn apply_captures(log: EventLog, names: &Vec<Option<String>>, groups: &Vec<Option<String>>) -> (r: EventLog)
    ensures
        r@ == apply_groups(log@, opt_texts_view(names@), opt_texts_view(groups@), names@.len() as int),
{
    let ghost nv = opt_texts_view(names@);
    let ghost gv = opt_texts_view(groups@);
    let ghost start = log@;
    let EventLog { mut attributes, message } = log;
    let mut new_message: Option<String> = None;
    let mut i: usize = 0;
    while i < names.len()
        invariant
            nv == opt_texts_view(names@),
            gv == opt_texts_view(groups@),
            i <= names@.len(),
            start.1 == message@,
            (crate::ordered::attribute_entries(attributes), match new_message {
                Some(m) => m@,
                None => message@,
            }) == apply_groups(start, nv, gv, i as int),
        decreases names@.len() - i,
    {
        if i < groups.len() {
            match (&names[i], &groups[i]) {
                (Some(name), Some(value)) => {
                    proof {
                        reveal_strlit("message");
                        assert("message"@ =~= message_word());
                    }
                    if str_eq(name.as_str(), "message") {
                        new_message = Some(value.clone());
                    } else {
                        attributes_insert(&mut attributes, name.clone(), EventLogAttribute::Text(value.clone()));
                    }
                },
                _ => {},
            }
        }
        i = i + 1;
    }
    let message = match new_message {
        Some(m) => m,
        None => message,
    };
    EventLog { attributes, message }
}

/// The expression to parse messages with.
pub struct Config {
    pub pattern: String,
}

/// A parser that failed to build.
#[derive(Debug)]
pub enum BuildError {
    UnableToCompileRegex(regex::Error),
}

impl Config {
    pub fn build(self) -> (r: Result<Transform, BuildError>)
        ensures
            r is Ok <==> regex_compiles(self.pattern@),
            r matches Ok(t) ==> t.pattern() == self.pattern@,
    {
        match Pattern::new(self.pattern.as_str()) {
            Ok(pattern) => Ok(Transform { pattern }),
            Err(e) => Err(BuildError::UnableToCompileRegex(e)),
        }
    }
}

/// Parses log messages with a compiled expression.
pub struct Transform {
    pattern: Pattern,
}

impl Transform {
    /// The source of the expression.
    pub closed spec fn pattern(&self) -> Seq<char> {
        self.pattern.source()
    }

    pub fn flavor(&self) -> (r: &'static str)
        ensures
            r@ == "regex_parser"@,
    {
        "regex_parser"
    }

    pub fn handle_log(&self, log: EventLog) -> (r: EventLog)
        ensures
            r@ == parsed_log(self.pattern(), log@),
    {
        match self.pattern.captures(log.message.as_str()) {
            Some(groups) => {
                let names = self.pattern.group_names();
                apply_captures(log, &names, &groups)
            },
            None => log,
        }
    }

    pub fn handle(&self, event: Event) -> (r: Event)
        ensures
            r@ == parsed_event(self.pattern(), event@),
    {
        match event {
            Event::Log(inner) => Event::Log(self.handle_log(inner)),
            Event::Metric(inner) => Event::Metric(inner),
        }
    }
}

/// An expression that does not match a log's message leaves the event unchanged.
pub proof fn lemma_no_match_is_identity(pattern: Seq<char>, e: EventView)
    requires
        e matches EventView::Log { message, .. } ==> !regex_is_match(pattern, message),
    ensures
        parsed_event(pattern, e) == e,
{
}

} // verus!
