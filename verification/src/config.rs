//! Configuration of the correlator and the rules that decide when a group of
//! lines is released or finished.
//!
//! A rule names fields and gives each a matcher; it matches a document when
//! any one of its fields is present and accepted by its matcher. A rule set
//! matches when any of its rules does.

use crate::clock::duration_millis;
use crate::json::as_int;
use crate::json::as_text;
use crate::json::json_fields;
use crate::json::json_scalar;
use crate::json::member;
use crate::json::JsonField;
use crate::json::JsonFields;
use crate::pattern::compile;
use crate::pattern::is_match;
use crate::pattern::pattern_language;
use crate::pattern::regex_language;
use crate::text::ascii_case_eq;
use regex::Regex;
use serde_json::Value;
use std::time::Duration;
use vstd::prelude::*;

verus! {

/// A predicate over the value of one field.
#[derive(Debug)]
pub enum FieldMatcher {
    /// A string equal to this one, ignoring ASCII case.
    StrVal(String),
    /// An integer equal to this one.
    IntVal(i64),
    /// A string equal to one of these, ignoring ASCII case.
    StrOneOf(Vec<String>),
    /// An integer that is one of these.
    IntOneOf(Vec<i64>),
    /// A string in which this case-insensitive expression matches.
    Regex { regex: Regex },
}

/// The mathematical content of a [`FieldMatcher`].
pub enum MatcherView {
    /// The expected text.
    StrVal(Seq<char>),
    /// The expected number.
    IntVal(i64),
    /// The accepted texts.
    StrOneOf(Seq<Seq<char>>),
    /// The accepted numbers.
    IntOneOf(Seq<i64>),
    /// A regular expression, as the set of texts in which it matches.
    Regex(Set<Seq<char>>),
}

/// A rule as a sequence of field names, each with its matcher.
pub type RuleView = Seq<(Seq<char>, MatcherView)>;

/// A rule: field names, each with the matcher that its value is held to. A
/// field may be named more than once; every pair is tried.
pub type Trigger = Vec<(String, FieldMatcher)>;

/// A pattern that the regular expression compiler rejected.
#[derive(Debug)]
pub struct InvalidPattern {
    pub pattern: String,
}

/// The texts of a sequence of strings.
pub open spec fn texts(strings: Seq<String>) -> Seq<Seq<char>> {
    strings.map_values(|s: String| s@)
}

impl View for FieldMatcher {
    type V = MatcherView;

    open spec fn view(&self) -> MatcherView {
        match self {
            FieldMatcher::StrVal(expected) => MatcherView::StrVal(expected@),
            FieldMatcher::IntVal(expected) => MatcherView::IntVal(*expected),
            FieldMatcher::StrOneOf(expected) => MatcherView::StrOneOf(texts(expected@)),
            FieldMatcher::IntOneOf(expected) => MatcherView::IntOneOf(expected@),
            FieldMatcher::Regex { regex } => MatcherView::Regex(regex_language(*regex)),
        }
    }
}

/// Whether `text` equals one of `options`, ignoring ASCII case.
pub open spec fn ascii_case_among(text: Seq<char>, options: Seq<Seq<char>>) -> bool {
    exists|i: int| 0 <= i < options.len() && ascii_case_eq(text, #[trigger] options[i])
}

impl MatcherView {
    /// Whether a field holding the string `text` is accepted.
    pub open spec fn accepts_text(self, text: Seq<char>) -> bool {
        match self {
            MatcherView::StrVal(expected) => ascii_case_eq(text, expected),
            MatcherView::StrOneOf(expected) => ascii_case_among(text, expected),
            MatcherView::Regex(language) => language.contains(text),
            _ => false,
        }
    }

    /// Whether a field holding the integer `number` is accepted.
    pub open spec fn accepts_int(self, number: i64) -> bool {
        match self {
            MatcherView::IntVal(expected) => number == expected,
            MatcherView::IntOneOf(expected) => expected.contains(number),
            _ => false,
        }
    }

    /// Whether a field holding `value` is accepted. A value that is neither a
    /// string nor an integer is accepted by no matcher.
    pub open spec fn accepts(self, value: JsonField) -> bool {
        match value {
            JsonField::Text(text) => self.accepts_text(text),
            JsonField::Int(number) => self.accepts_int(number),
            JsonField::Other => false,
        }
    }
}

/// Whether `doc` has a member `field` that `matcher` accepts.
pub open spec fn pair_matches(field: Seq<char>, matcher: MatcherView, doc: JsonFields) -> bool {
    doc.contains_key(field) && matcher.accepts(doc[field])
}

/// Whether any field of `rule` matches in `doc`.
pub open spec fn rule_matches(rule: RuleView, doc: JsonFields) -> bool {
    exists|j: int| 0 <= j < rule.len() && #[trigger] pair_matches(rule[j].0, rule[j].1, doc)
}

/// Whether any rule of `rules` matches `doc`.
pub open spec fn rules_match(rules: Seq<RuleView>, doc: JsonFields) -> bool {
    exists|i: int| 0 <= i < rules.len() && #[trigger] rule_matches(rules[i], doc)
}

/// The mathematical content of a rule.
pub open spec fn trigger_view(trigger: Trigger) -> RuleView {
    trigger@.map_values(|pair: (String, FieldMatcher)| (pair.0@, pair.1@))
}

/// The mathematical content of a rule set.
pub open spec fn rules_view(triggers: Seq<Trigger>) -> Seq<RuleView> {
    triggers.map_values(|trigger: Trigger| trigger_view(trigger))
}

impl FieldMatcher {
    /// Compiles `pattern` into a case-insensitive expression matcher, or
    /// reports the pattern where the compiler rejects it.
    pub fn regex(pattern: &str) -> (r: Result<FieldMatcher, InvalidPattern>)
        ensures
            r is Ok <==> pattern_language(pattern@, true) is Some,
            r matches Ok(matcher) ==> matcher@ == MatcherView::Regex(
                pattern_language(pattern@, true)->Some_0,
            ),
            r matches Err(e) ==> e.pattern@ == pattern@,
    {
        match compile(pattern, true) {
            Ok(regex) => Ok(FieldMatcher::Regex { regex }),
            Err(_) => Err(InvalidPattern { pattern: pattern.to_owned() }),
        }
    }

    /// Decides whether a field holding the string `text` is accepted.
    pub fn matches_str(&self, text: &str) -> (r: bool)
        ensures
            r == self@.accepts_text(text@),
    {
        match self {
            FieldMatcher::StrVal(expected) => text.eq_ignore_ascii_case(expected.as_str()),
            FieldMatcher::StrOneOf(expected) => {
                let mut i: usize = 0;
                while i < expected.len()
                    invariant
                        i <= expected.len(),
                        self@ == MatcherView::StrOneOf(texts(expected@)),
                        forall|k: int| 0 <= k < i ==> !ascii_case_eq(text@, (#[trigger] expected[k])@),
                    decreases expected.len() - i,
                {
                    if text.eq_ignore_ascii_case(expected[i].as_str()) {
                        proof {
                            let options = texts(expected@);
                            assert(0 <= i < options.len());
                            assert(ascii_case_eq(text@, options[i as int]));
                        }
                        return true;
                    }
                    i += 1;
                }
                false
            },
            FieldMatcher::Regex { regex } => is_match(regex, text),
            _ => false,
        }
    }

    /// Decides whether a field holding the integer `number` is accepted.
    pub fn matches_int(&self, number: i64) -> (r: bool)
        ensures
            r == self@.accepts_int(number),
    {
        match self {
            FieldMatcher::IntVal(expected) => number == *expected,
            FieldMatcher::IntOneOf(expected) => {
                let mut i: usize = 0;
                while i < expected.len()
                    invariant
                        i <= expected.len(),
                        self@ == MatcherView::IntOneOf(expected@),
                        forall|k: int| 0 <= k < i ==> expected[k] != number,
                    decreases expected.len() - i,
                {
                    if expected[i] == number {
                        assert(expected@[i as int] == number);
                        return true;
                    }
                    i += 1;
                }
                false
            },
            _ => false,
        }
    }

    /// Decides whether a field holding `value` is accepted.
    pub fn matches(&self, value: &Value) -> (r: bool)
        ensures
            r == self@.accepts(json_scalar(*value)),
    {
        match self {
            FieldMatcher::IntVal(_) | FieldMatcher::IntOneOf(_) => match as_int(value) {
                Some(number) => self.matches_int(number),
                None => false,
            },
            _ => match as_text(value) {
                Some(text) => self.matches_str(text),
                None => false,
            },
        }
    }
}

/// Decides whether any field of `trigger` matches in `line`.
fn trigger_matches(line: &Value, trigger: &Trigger) -> (r: bool)
    ensures
        r == rule_matches(trigger_view(*trigger), json_fields(*line)),
{
    let ghost rule = trigger_view(*trigger);
    let mut j: usize = 0;
    while j < trigger.len()
        invariant
            j <= trigger.len(),
            rule == trigger_view(*trigger),
            rule.len() == trigger.len(),
            forall|k: int|
                0 <= k < j ==> !#[trigger] pair_matches(rule[k].0, rule[k].1, json_fields(*line)),
        decreases trigger.len() - j,
    {
        let field = &trigger[j].0;
        let matcher = &trigger[j].1;
        assert(rule[j as int] == (field@, matcher@));
        if let Some(value) = member(line, field.as_str()) {
            if matcher.matches(value) {
                assert(pair_matches(rule[j as int].0, rule[j as int].1, json_fields(*line)));
                return true;
            }
        }
        j += 1;
    }
    false
}

/// Decides whether any rule of `triggers` matches `line`.
pub fn matches(line: &Value, triggers: &Vec<Trigger>) -> (r: bool)
    ensures
        r == rules_match(rules_view(triggers@), json_fields(*line)),
{
    let ghost rules = rules_view(triggers@);
    let mut i: usize = 0;
    while i < triggers.len()
        invariant
            i <= triggers.len(),
            rules == rules_view(triggers@),
            rules.len() == triggers.len(),
            forall|k: int| 0 <= k < i ==> !#[trigger] rule_matches(rules[k], json_fields(*line)),
        decreases triggers.len() - i,
    {
        assert(rules[i as int] == trigger_view(triggers[i as int]));
        if trigger_matches(line, &triggers[i]) {
            return true;
        }
        i += 1;
    }
    false
}

/// Settings as a configuration file gives them: what it leaves out is `None`.
pub struct Config {
    pub id_field: Option<String>,
    /// Milliseconds.
    pub cleanup_interval: Option<u64>,
    /// Milliseconds since the last line of a transaction.
    pub timeout: Option<u64>,
    pub flush_triggers: Vec<Trigger>,
    pub completion_triggers: Option<Vec<Trigger>>,
}

/// The settings that the correlator runs with.
pub struct TrxConfig {
    pub id_field: String,
    pub cleanup_interval: Duration,
    /// Milliseconds since the last line of a transaction.
    pub timeout: u64,
    pub flush_triggers: Vec<Trigger>,
    pub completion_triggers: Vec<Trigger>,
}

/// The flush rules in force where none are configured: a `level` of `error`,
/// `fatal` or `critical`.
pub open spec fn default_flush_rules() -> Seq<RuleView> {
    seq![seq![("level"@, MatcherView::StrOneOf(seq!["error"@, "fatal"@, "critical"@]))]]
}

impl TrxConfig {
    /// The rules that release a transaction.
    pub open spec fn flush_rules(&self) -> Seq<RuleView> {
        rules_view(self.flush_triggers@)
    }

    /// The rules that finish a transaction.
    pub open spec fn completion_rules(&self) -> Seq<RuleView> {
        rules_view(self.completion_triggers@)
    }

    /// Whether `doc` matches a flush rule.
    pub open spec fn flushes(&self, doc: JsonFields) -> bool {
        rules_match(self.flush_rules(), doc)
    }

    /// Whether `doc` matches a completion rule.
    pub open spec fn completes(&self, doc: JsonFields) -> bool {
        rules_match(self.completion_rules(), doc)
    }

    /// The settings in force where nothing is configured.
    pub fn default() -> (r: Self)
        ensures
            r.id_field@ == "trace_id"@,
            duration_millis(r.cleanup_interval) == 1000,
            r.timeout == 5000,
            r.flush_rules() == default_flush_rules(),
            r.completion_rules() == Seq::<RuleView>::empty(),
    {
        let mut levels: Vec<String> = Vec::new();
        levels.push("error".to_owned());
        levels.push("fatal".to_owned());
        levels.push("critical".to_owned());
        let mut trigger: Trigger = Vec::new();
        trigger.push(("level".to_owned(), FieldMatcher::StrOneOf(levels)));
        let mut flush_triggers: Vec<Trigger> = Vec::new();
        flush_triggers.push(trigger);
        let r = Self {
            id_field: "trace_id".to_owned(),
            cleanup_interval: Duration::from_millis(1000),
            timeout: 5000,
            flush_triggers,
            completion_triggers: Vec::new(),
        };
        proof {
            assert(texts(levels@) =~= seq!["error"@, "fatal"@, "critical"@]);
            assert(trigger_view(trigger) =~= default_flush_rules()[0]);
            assert(r.flush_rules() =~= default_flush_rules());
            assert(r.completion_rules() =~= Seq::<RuleView>::empty());
        }
        r
    }

    /// Completes configured settings with the defaults for what they leave
    /// out.
    pub fn from(conf: Config) -> (r: Self)
        ensures
            r.id_field@ == (match conf.id_field {
                Some(name) => name@,
                None => "trace_id"@,
            }),
            duration_millis(r.cleanup_interval) == (match conf.cleanup_interval {
                Some(millis) => millis,
                None => 1000,
            }),
            r.timeout == (match conf.timeout {
                Some(millis) => millis,
                None => 5000,
            }),
            r.flush_rules() == rules_view(conf.flush_triggers@),
            r.completion_rules() == (match conf.completion_triggers {
                Some(triggers) => rules_view(triggers@),
                None => Seq::<RuleView>::empty(),
            }),
    {
        let id_field = match conf.id_field {
            Some(name) => name,
            None => "trace_id".to_owned(),
        };
        let cleanup_interval = match conf.cleanup_interval {
            Some(millis) => millis,
            None => 1000,
        };
        let timeout = match conf.timeout {
            Some(millis) => millis,
            None => 5000,
        };
        let completion_triggers = match conf.completion_triggers {
            Some(triggers) => triggers,
            None => Vec::new(),
        };
        let r = Self {
            id_field,
            cleanup_interval: Duration::from_millis(cleanup_interval),
            timeout,
            flush_triggers: conf.flush_triggers,
            completion_triggers,
        };
        assert(conf.completion_triggers is None ==> r.completion_rules() =~= Seq::<RuleView>::empty());
        r
    }

    /// Evaluates `line` against both rule sets: whether it releases its
    /// transaction, and whether it finishes it. The two answers are
    /// independent of each other.
    pub fn matches(&self, line: &Value) -> (r: (bool, bool))
        ensures
            r.0 == self.flushes(json_fields(*line)),
            r.1 == self.completes(json_fields(*line)),
    {
        let flushes = matches(line, &self.flush_triggers);
        let completes = matches(line, &self.completion_triggers);
        (flushes, completes)
    }
}

} // verus!
