//! The lexical patterns of the analysis and the searches that apply them.
//!
//! Matching itself is the work of the `regex` crate. The searches below are
//! believed, not proved: each equates what it returns with a named function
//! of the pattern and the text: the same two strings give the same result.

use regex::Regex;
use vstd::prelude::*;
use vstd::string::*;

verus! {

/// The first capture group of the leftmost match of `pattern` in `text`.
/// `None` where the pattern does not compile, nothing matches, or the group
/// takes no part in the match.
pub uninterp spec fn first_group(pattern: Seq<char>, text: Seq<char>) -> Option<Seq<char>>;

/// The first capture group of each successive non-overlapping match of
/// `pattern` in `text`, from left to right; an entry is `None` where the group
/// takes no part in that match. `None` as a whole where the pattern does not
/// compile.
pub uninterp spec fn all_groups(pattern: Seq<char>, text: Seq<char>) -> Option<
    Seq<Option<Seq<char>>>,
>;

/// The view of an optional string.
pub open spec fn view_of(s: Option<String>) -> Option<Seq<char>> {
    match s {
        Some(s) => Some(s@),
        None => None,
    }
}

/// The views of a list of optional strings.
pub open spec fn views_of(v: Seq<Option<String>>) -> Seq<Option<Seq<char>>> {
    Seq::new(v.len(), |i: int| view_of(v[i]))
}

/// `Regex::new` followed by `Regex::captures` and `Captures::get(1)`: compiles
/// `pattern`, searches `text` for its leftmost match and copies out what the
/// first capture group matched. Claimed: the outcome depends on the two
/// strings alone, and what the group matched is a part of `text`.
#[verifier::external_body]
pub(crate) fn first_capture(pattern: &str, text: &str) -> (group: Option<String>)
    ensures
        view_of(group) == first_group(pattern@, text@),
        group matches Some(found) ==> crate::text::contains_text(text@, found@),
{
    let compiled = Regex::new(pattern).ok()?;
    let captures = compiled.captures(text)?;
    captures.get(1).map(|m| m.as_str().to_string())
}

/// `Regex::new` followed by `Regex::captures_iter` and `Captures::get(1)`:
/// compiles `pattern`, walks the successive matches in `text` and copies out
/// what the first capture group matched in each. Claimed: the outcome depends
/// on the two strings alone, and what a group matched is a part of `text`.
#[verifier::external_body]
pub(crate) fn all_captures(pattern: &str, text: &str) -> (groups: Option<Vec<Option<String>>>)
    ensures
        match groups {
            Some(found) => all_groups(pattern@, text@) == Some(views_of(found@)),
            None => all_groups(pattern@, text@) is None,
        },
        groups matches Some(found) ==> forall|i: int|
            0 <= i < found@.len() && (#[trigger] found@[i]) is Some ==> crate::text::contains_text(
                text@,
                found@[i].unwrap()@,
            ),
{
    let compiled = Regex::new(pattern).ok()?;
    Some(compiled.captures_iter(text).map(|c| c.get(1).map(|m| m.as_str().to_string())).collect())
}

/// The pattern of a hazard: the word that follows `Hazard::`.
pub open spec fn hazard_pattern() -> Seq<char> {
    "Hazard::(\\w+)"@
}

/// The pattern of an argument list: the shortest text between an opening
/// parenthesis and the next closing one, line breaks included.
pub open spec fn args_pattern() -> Seq<char> {
    "\\((?s)(.*?)\\)"@
}

/// The pattern of a call of `expression` that is followed, after an optional
/// question mark, by a dot: its first group is the argument text.
pub open spec fn method_pattern(expression: Seq<char>) -> Seq<char> {
    "(?s)"@ + expression + "\\((.*?)\\)\\s*\\??\\s*\\."@
}

/// Builds the pattern of a call of `expression`.
pub fn method_re(expression: &str) -> (pattern: String)
    ensures
        pattern@ == method_pattern(expression@),
{
    let mut pattern = String::from_str("(?s)");
    pattern.append(expression);
    pattern.append("\\((.*?)\\)\\s*\\??\\s*\\.");
    pattern
}

/// The argument text of the first call of `method_name` in `device_instance`
/// that is followed by a dot. It is a part of `device_instance`.
pub fn get_method_call(device_instance: &str, method_name: &str) -> (arguments: Option<String>)
    ensures
        view_of(arguments) == first_group(method_pattern(method_name@), device_instance@),
        arguments matches Some(found) ==> crate::text::contains_text(device_instance@, found@),
{
    let pattern = method_re(method_name);
    first_capture(pattern.as_str(), device_instance)
}

} // verus!
