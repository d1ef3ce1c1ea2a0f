//! Templates with `{name}` placeholders, and the regular expressions that
//! find the placeholders and take task files apart.
//!
//! Matching itself is the work of the `regex` crate. What a match yields is
//! named here by spec functions without a body, each a function of the
//! pattern and the text; everything that is done with a match is verified
//! against those names.
use crate::text::{chars_of, owned, push_str, string_from_chars};
use crate::values::Values;
use regex::Regex;
use vstd::prelude::*;

verus! {

#[verifier::external_type_specification]
#[verifier::external_body]
pub struct ExRegex(regex::Regex);

#[verifier::external_type_specification]
#[verifier::external_body]
pub struct ExRegexError(regex::Error);

/// The pattern of one placeholder: a name of word characters in braces.
pub const BRACED_NAME_PATTERN: &'static str = r"\{(?<name>\w+)\}";

/// The name of the group that holds a placeholder's name.
pub const NAME_GROUP: &'static str = "name";

/// Whether `Regex::new` accepts `pattern`.
pub uninterp spec fn compiles(pattern: Seq<char>) -> bool;

/// Whether `Regex::is_match` finds a match of the expression compiled
/// from `pattern` anywhere in `haystack`.
pub uninterp spec fn has_match(pattern: Seq<char>, haystack: Seq<char>) -> bool;

/// What `Regex::captures` finds for the expression compiled from
/// `pattern`: nothing where it matches nowhere in `haystack`; else, for the
/// first match and each of `names` in turn, the text of the group of that
/// name, or nothing where the expression has no such group or the group
/// took no part in the match.
pub uninterp spec fn captures_of(pattern: Seq<char>, haystack: Seq<char>, names: Seq<Seq<char>>) -> Option<
    Seq<Option<Seq<char>>>,
>;

/// What `Regex::captures_iter` finds for the expression compiled from
/// `pattern`: for each of its successive matches in `haystack` that do not
/// overlap, the text of the group `group`, or nothing where there is no
/// such group or it took no part in that match.
pub uninterp spec fn captures_iter_of(pattern: Seq<char>, haystack: Seq<char>, group: Seq<char>) -> Seq<
    Option<Seq<char>>,
>;

/// What `Regex::split` yields for the expression compiled from `pattern`:
/// the parts of `haystack` that lie between its successive matches.
pub uninterp spec fn split_of(pattern: Seq<char>, haystack: Seq<char>) -> Seq<Seq<char>>;

/// A regular expression, with the pattern that it was compiled from.
///
/// The only way to a value of this type is `Pattern::new`, which compiles
/// the pattern with `Regex::new`.
#[derive(Debug)]
pub struct Pattern {
    source: String,
    compiled: Regex,
}

/// Calls `Regex::new`. It succeeds on the patterns that compile.
#[verifier::external_body]
fn regex_new(pattern: &str) -> (r: Result<Regex, regex::Error>)
    ensures
        r is Ok == compiles(pattern@),
{
    Regex::new(pattern)
}

/// Calls `Regex::is_match` on the compiled expression.
#[verifier::external_body]
pub(crate) fn regex_is_match(pattern: &Pattern, haystack: &str) -> (r: bool)
    ensures
        r == has_match(pattern.source(), haystack@),
{
    pattern.compiled.is_match(haystack)
}

/// Calls `Regex::captures` on the compiled expression and, on a match,
/// `Captures::name` for each of `names`, copying each group's text.
#[verifier::external_body]
pub(crate) fn regex_captures(pattern: &Pattern, haystack: &str, names: &Vec<String>) -> (r: Option<
    Vec<Option<String>>,
>)
    ensures
        r.deep_view() == captures_of(pattern.source(), haystack@, names.deep_view()),
{
    let caps = pattern.compiled.captures(haystack)?;
    Some(names.iter().map(|n| caps.name(n).map(|m| m.as_str().to_string())).collect())
}

/// Calls `Regex::captures_iter` on the compiled expression and
/// `Captures::name` with `group` for each match, copying the group's text.
#[verifier::external_body]
pub(crate) fn regex_captures_iter(pattern: &Pattern, haystack: &str, group: &str) -> (r: Vec<
    Option<String>,
>)
    ensures
        r.deep_view() == captures_iter_of(pattern.source(), haystack@, group@),
{
    let found = pattern.compiled.captures_iter(haystack);
    found.map(|c| c.name(group).map(|m| m.as_str().to_string())).collect()
}

/// Calls `Regex::split` on the compiled expression, copying each part.
#[verifier::external_body]
pub(crate) fn regex_split(pattern: &Pattern, haystack: &str) -> (r: Vec<String>)
    ensures
        r.deep_view() == split_of(pattern.source(), haystack@),
{
    pattern.compiled.split(haystack).map(|part| part.to_string()).collect()
}

/// Why a pattern is no regular expression.
#[derive(Clone, Copy, Debug, PartialEq, Eq, Structural)]
pub enum PatternError {
    /// `regex` refuses the pattern: it is malformed or too large.
    Refused,
}

impl Pattern {
    /// The pattern that the expression was compiled from.
    pub closed spec fn source(&self) -> Seq<char> {
        self.source@
    }

    /// Compiles `pattern`.
    pub fn new(pattern: &str) -> (r: Result<Pattern, PatternError>)
        ensures
            r is Ok == compiles(pattern@),
            r matches Ok(made) ==> made.source() == pattern@,
    {
        match regex_new(pattern) {
            Ok(compiled) => Ok(Pattern { source: owned(pattern), compiled }),
            Err(_) => Err(PatternError::Refused),
        }
    }

    /// The pattern that the expression was compiled from.
    pub fn as_str(&self) -> (text: &str)
        ensures
            text@ == self.source(),
    {
        self.source.as_str()
    }
}

/// Compiles the pattern of a placeholder.
pub fn braced_name_regex() -> (r: Result<Pattern, PatternError>)
    ensures
        r is Ok == compiles(BRACED_NAME_PATTERN@),
        r matches Ok(made) ==> made.source() == BRACED_NAME_PATTERN@,
{
    Pattern::new(BRACED_NAME_PATTERN)
}

/// The names of the placeholders of `template`, in their order; a
/// placeholder that `braced` found without a name is left out.
pub open spec fn placeholder_names(found: Seq<Option<Seq<char>>>) -> Seq<Seq<char>>
    decreases found.len(),
{
    if found.len() == 0 {
        Seq::empty()
    } else {
        match found.last() {
            Some(name) => placeholder_names(found.drop_last()).push(name),
            None => placeholder_names(found.drop_last()),
        }
    }
}

/// The names that `template` asks for: where `braced` is the expression of
/// a placeholder, the names of its placeholders in their order.
pub fn template_names(braced: &Pattern, template: &str) -> (names: Vec<String>)
    ensures
        names.deep_view() == placeholder_names(
            captures_iter_of(braced.source(), template@, NAME_GROUP@),
        ),
{
    let found = regex_captures_iter(braced, template, NAME_GROUP);
    let ghost all = found.deep_view();
    let mut names: Vec<String> = Vec::new();
    assert(names.deep_view() =~= placeholder_names(all.take(0)));
    for entry in it: found
        invariant
            it.seq() == found@,
            all == found.deep_view(),
            names.deep_view() == placeholder_names(all.take(it.index() as int)),
    {
        let ghost at = it.index() as int;
        let ghost before = names.deep_view();
        assert(all.take(at + 1).drop_last() =~= all.take(at));
        assert(all.take(at + 1).last() == entry.deep_view());
        match entry {
            Some(name) => {
                names.push(name);
                assert(names.deep_view() =~= before.push(name@));
            },
            None => {},
        }
    }
    assert(all.take(all.len() as int) =~= all);
    names
}

/// The first position in `names` that has no value: the placeholder has no
/// name, or `values` does not know the name. `names.len()` where every
/// position has a value.
pub open spec fn first_missing(names: Seq<Option<Seq<char>>>, values: Map<Seq<char>, Seq<char>>) -> int
    decreases names.len(),
{
    if names.len() == 0 {
        0
    } else if names[0] is None || !values.contains_key(names[0]->Some_0) {
        0
    } else {
        1 + first_missing(names.drop_first(), values)
    }
}

/// `literals[0]`, then for each of the first `k` names its value and the
/// literal that follows it.
pub open spec fn joined(
    literals: Seq<Seq<char>>,
    names: Seq<Option<Seq<char>>>,
    values: Map<Seq<char>, Seq<char>>,
    k: int,
) -> Seq<char>
    decreases k,
{
    if k <= 0 {
        literals[0]
    } else {
        joined(literals, names, values, k - 1) + values[names[k - 1]->Some_0] + literals[k]
    }
}

/// The text of the error for a placeholder without a value.
pub open spec fn missing_value_text(name: Option<Seq<char>>) -> Seq<char> {
    match name {
        Some(name) => "no value associated with "@ + name + " could be found"@,
        None => "placeholder without a name"@,
    }
}

/// The text of the error for a template whose parts do not line up: there
/// must be one literal part more than there are placeholders.
pub open spec fn ragged_template_text() -> Seq<char> {
    "template parts and placeholders do not line up"@
}

/// A template with its placeholders replaced. `literals` are the parts
/// between the placeholders, `names` the placeholders' names.
pub open spec fn filled(
    literals: Seq<Seq<char>>,
    names: Seq<Option<Seq<char>>>,
    values: Map<Seq<char>, Seq<char>>,
) -> Result<Seq<char>, Seq<char>> {
    if first_missing(names, values) < names.len() {
        Err(missing_value_text(names[first_missing(names, values)]))
    } else if literals.len() != names.len() + 1 {
        Err(ragged_template_text())
    } else {
        Ok(joined(literals, names, values, names.len() as int))
    }
}

/// The first position without a value stands within the names or at
/// their end, behind positions that all have a value.
pub proof fn lemma_first_missing(names: Seq<Option<Seq<char>>>, values: Map<Seq<char>, Seq<char>>)
    ensures
        0 <= first_missing(names, values) <= names.len(),
        forall|j: int|
            0 <= j < first_missing(names, values) ==> (#[trigger] names[j]) is Some
                && values.contains_key(names[j]->Some_0),
        first_missing(names, values) < names.len() ==> names[first_missing(names, values)] is None
            || !values.contains_key(names[first_missing(names, values)]->Some_0),
    decreases names.len(),
{
    if names.len() > 0 && !(names[0] is None || !values.contains_key(names[0]->Some_0)) {
        let rest = names.drop_first();
        lemma_first_missing(rest, values);
        assert forall|j: int| 0 <= j < first_missing(names, values) implies (#[trigger] names[j]) is Some
            && values.contains_key(names[j]->Some_0) by {
            if j > 0 {
                assert(rest[j - 1] == names[j]);
            }
        }
    }
}

/// The first position without a value is `first_missing`.
pub proof fn lemma_first_missing_is(
    names: Seq<Option<Seq<char>>>,
    values: Map<Seq<char>, Seq<char>>,
    at: int,
)
    requires
        0 <= at <= names.len(),
        forall|j: int|
            0 <= j < at ==> (#[trigger] names[j]) is Some && values.contains_key(names[j]->Some_0),
        at < names.len() ==> names[at] is None || !values.contains_key(names[at]->Some_0),
    ensures
        first_missing(names, values) == at,
{
    lemma_first_missing(names, values);
    let f = first_missing(names, values);
    if f < at {
        assert(names[f] is Some && values.contains_key(names[f]->Some_0));
    } else if at < f {
        assert(names[at] is Some && values.contains_key(names[at]->Some_0));
    }
}

/// Replaces the placeholders of a template that has been taken apart into
/// its literal parts and the names of its placeholders.
///
/// Every placeholder must have a value, else the first one without is
/// reported; and the parts must line up.
pub fn fill_template(literals: &Vec<String>, names: &Vec<Option<String>>, values: &Values) -> (r:
    Result<String, String>)
    requires
        values.wf(),
    ensures
        match filled(literals.deep_view(), names.deep_view(), values@) {
            Ok(text) => r is Ok && r->Ok_0@ == text,
            Err(text) => r is Err && r->Err_0@ == text,
        },
{
    let ghost parts = literals.deep_view();
    let ghost asked = names.deep_view();
    let mut i: usize = 0;
    while i < names.len()
        invariant
            0 <= i <= names.len(),
            values.wf(),
            asked == names.deep_view(),
            forall|j: int|
                0 <= j < i ==> (#[trigger] asked[j]) is Some && values@.contains_key(
                    asked[j]->Some_0,
                ),
        decreases names.len() - i,
    {
        assert(asked[i as int] == names@[i as int].deep_view());
        match &names[i] {
            None => {
                proof {
                    lemma_first_missing_is(asked, values@, i as int);
                }
                let mut out: Vec<char> = Vec::new();
                push_str(&mut out, "placeholder without a name");
                return Err(string_from_chars(&out));
            },
            Some(name) => {
                if !values.contains_key(name.as_str()) {
                    proof {
                        lemma_first_missing_is(asked, values@, i as int);
                    }
                    let mut out: Vec<char> = Vec::new();
                    push_str(&mut out, "no value associated with ");
                    push_str(&mut out, name.as_str());
                    push_str(&mut out, " could be found");
                    return Err(string_from_chars(&out));
                }
            },
        }
        i += 1;
    }
    proof {
        lemma_first_missing_is(asked, values@, names.len() as int);
    }
    if literals.len() == 0 || literals.len() - 1 != names.len() {
        let mut out: Vec<char> = Vec::new();
        push_str(&mut out, "template parts and placeholders do not line up");
        return Err(string_from_chars(&out));
    }
    let mut out: Vec<char> = Vec::new();
    push_str(&mut out, literals[0].as_str());
    assert(parts[0] == literals@[0].deep_view());
    let mut k: usize = 0;
    while k < names.len()
        invariant
            0 <= k <= names.len(),
            literals.len() == names.len() + 1,
            values.wf(),
            parts == literals.deep_view(),
            asked == names.deep_view(),
            forall|j: int|
                0 <= j < names.len() ==> (#[trigger] asked[j]) is Some && values@.contains_key(
                    asked[j]->Some_0,
                ),
            out@ == joined(parts, asked, values@, k as int),
        decreases names.len() - k,
    {
        assert(asked[k as int] == names@[k as int].deep_view());
        assert(parts[k + 1] == literals@[k + 1].deep_view());
        match &names[k] {
            None => {
                assert(false);
            },
            Some(name) => {
                match values.get(name.as_str()) {
                    None => {
                        assert(false);
                    },
                    Some(value) => {
                        push_str(&mut out, value.as_str());
                    },
                }
            },
        }
        push_str(&mut out, literals[k + 1].as_str());
        k += 1;
    }
    Ok(string_from_chars(&out))
}

/// Writes a line from `format`: each `{name}` that `braced` finds is
/// replaced by the value that `values` has for the name.
///
/// Whatever `braced` finds, the line is `fill_template` of the parts between
/// the matches and of the matches' names.
pub fn format_line(braced: &Pattern, format: &str, values: &Values) -> (r: Result<String, String>)
    requires
        values.wf(),
    ensures
        match filled(
            split_of(braced.source(), format@),
            captures_iter_of(braced.source(), format@, NAME_GROUP@),
            values@,
        ) {
            Ok(text) => r is Ok && r->Ok_0@ == text,
            Err(text) => r is Err && r->Err_0@ == text,
        },
{
    let names = regex_captures_iter(braced, format, NAME_GROUP);
    let literals = regex_split(braced, format);
    fill_template(&literals, &names, values)
}

/// The pattern of one placeholder in a template that `regex::escape` has
/// gone over: the braces carry backslashes.
pub const ESCAPED_BRACED_NAME_PATTERN: &'static str = r"\\\{(?<name>\w+)\\\}";

/// Whether a character has a meaning of its own in a regular expression.
pub open spec fn is_meta_character(c: char) -> bool {
    c == '\\' || c == '.' || c == '+' || c == '*' || c == '?' || c == '(' || c == ')' || c == '|'
        || c == '[' || c == ']' || c == '{' || c == '}' || c == '^' || c == '$' || c == '#'
        || c == '&' || c == '-' || c == '~'
}

/// `text` with a backslash before each character that has a meaning of its
/// own in a regular expression.
pub open spec fn escape_text(text: Seq<char>) -> Seq<char>
    decreases text.len(),
{
    if text.len() == 0 {
        Seq::empty()
    } else if is_meta_character(text.last()) {
        escape_text(text.drop_last()).push('\\').push(text.last())
    } else {
        escape_text(text.drop_last()).push(text.last())
    }
}

/// `text` as a pattern that matches exactly that text: every character
/// that has a meaning of its own in a regular expression gets a backslash.
pub fn escape(text: &str) -> (r: String)
    ensures
        r@ == escape_text(text@),
{
    let v = chars_of(text);
    let mut out: Vec<char> = Vec::new();
    let mut i: usize = 0;
    assert(v@.take(0) =~= Seq::<char>::empty());
    while i < v.len()
        invariant
            0 <= i <= v.len(),
            out@ == escape_text(v@.take(i as int)),
        decreases v.len() - i,
    {
        assert(v@.take(i + 1).drop_last() =~= v@.take(i as int));
        let c: char = v[i];
        if c == '\\' || c == '.' || c == '+' || c == '*' || c == '?' || c == '(' || c == ')'
            || c == '|' || c == '[' || c == ']' || c == '{' || c == '}' || c == '^' || c == '$'
            || c == '#' || c == '&' || c == '-' || c == '~' {
            out.push('\\');
        }
        out.push(c);
        i += 1;
    }
    assert(v@.take(v@.len() as int) =~= v@);
    string_from_chars(&out)
}

/// The two expressions that find placeholders: in a template as written,
/// and in a template that has been escaped.
#[derive(Debug)]
pub struct Patterns {
    pub braced: Pattern,
    pub escaped: Pattern,
}

impl Patterns {
    /// Each expression was compiled from its pattern.
    pub open spec fn wf(&self) -> bool {
        &&& self.braced.source() == BRACED_NAME_PATTERN@
        &&& self.escaped.source() == ESCAPED_BRACED_NAME_PATTERN@
    }

    /// Compiles both expressions.
    pub fn new() -> (r: Result<Patterns, PatternError>)
        ensures
            r is Ok == (compiles(BRACED_NAME_PATTERN@) && compiles(ESCAPED_BRACED_NAME_PATTERN@)),
            r matches Ok(patterns) ==> patterns.wf(),
    {
        let braced = match Pattern::new(BRACED_NAME_PATTERN) {
            Ok(re) => re,
            Err(e) => {
                return Err(e);
            },
        };
        match Pattern::new(ESCAPED_BRACED_NAME_PATTERN) {
            Ok(escaped) => Ok(Patterns { braced, escaped }),
            Err(e) => Err(e),
        }
    }
}

} // verus!
