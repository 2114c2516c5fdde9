//! Matching a file against the two condition kinds that look at its name:
//! the file-type test on the extension and the name pattern with its `*`
//! wildcard.

use vstd::prelude::*;
use vstd::std_specs::iter::IteratorSpec;
use vstd::string::StringExecFns;
use crate::text::{
    contains_char, contains_text, is_substring, lowercase, lowercase_of, push_char, same_text,
};

verus! {

/// The characters that carry a meaning in a regular expression.
pub open spec fn is_regex_meta(c: char) -> bool {
    c == '\\' || c == '.' || c == '+' || c == '*' || c == '?' || c == '(' || c == ')' || c == '|'
        || c == '[' || c == ']' || c == '{' || c == '}' || c == '^' || c == '$' || c == '#' || c
        == '&' || c == '-' || c == '~'
}

/// One character as a regular expression that matches exactly it.
pub open spec fn escaped_char(c: char) -> Seq<char> {
    if is_regex_meta(c) {
        seq!['\\', c]
    } else {
        seq![c]
    }
}

/// A text as a regular expression that matches exactly it: every character
/// with a meaning of its own is preceded by a backslash.
pub open spec fn regex_escaped(text: Seq<char>) -> Seq<char>
    decreases text.len(),
{
    if text.len() == 0 {
        Seq::empty()
    } else {
        regex_escaped(text.drop_last()) + escaped_char(text.last())
    }
}

/// Escapes a literal with `regex::escape`, which walks the text and puts a
/// backslash before each character that `regex_syntax::is_meta_character`
/// accepts; `is_regex_meta` lists the same eighteen characters.
#[verifier::external_body]
pub(crate) fn regex_escape(text: &str) -> (escaped: String)
    ensures
        escaped@ == regex_escaped(text@),
{
    regex::escape(text)
}

/// What the `regex` crate answers for an expression and a text: `None` where
/// `Regex::new` refuses the expression, otherwise whether `Regex::is_match`
/// finds a match in the text.
pub uninterp spec fn regex_search(expression: Seq<char>, text: Seq<char>) -> Option<bool>;

/// Compiles `expression` with `regex::Regex::new` and searches `text` with
/// `Regex::is_match`. Both depend on their arguments alone, so the answer is
/// given a name; nothing is claimed about which texts an expression matches.
#[verifier::external_body]
pub(crate) fn regex_is_match(expression: &str, text: &str) -> (answer: Option<bool>)
    ensures
        answer == regex_search(expression@, text@),
{
    match regex::Regex::new(expression) {
        Ok(compiled) => Some(compiled.is_match(text)),
        Err(_) => None,
    }
}

/// The expression that stands for `*` in a name pattern: any run of
/// characters, line breaks included.
pub open spec fn any_run() -> Seq<char> {
    seq!['(', '?', 's', ':', '.', '*', ')']
}

/// One pattern character as a piece of a regular expression.
pub open spec fn wildcard_piece(c: char) -> Seq<char> {
    if c == '*' {
        any_run()
    } else {
        escaped_char(c)
    }
}

/// A name pattern as the inside of a regular expression, piece by piece.
pub open spec fn wildcard_body(pattern: Seq<char>) -> Seq<char>
    decreases pattern.len(),
{
    if pattern.len() == 0 {
        Seq::empty()
    } else {
        wildcard_body(pattern.drop_last()) + wildcard_piece(pattern.last())
    }
}

/// A name pattern as an anchored regular expression: it matches a whole file
/// name, `*` stands for any run of characters, every other character for
/// itself.
pub open spec fn wildcard_regex(pattern: Seq<char>) -> Seq<char> {
    seq!['^'] + wildcard_body(pattern) + seq!['$']
}

/// Builds the anchored regular expression of a name pattern.
pub fn wildcard_expression(pattern: &str) -> (expression: String)
    ensures
        expression@ == wildcard_regex(pattern@),
{
    let mut out = String::from_str("^");
    let mut literal = String::new();
    proof {
        reveal_strlit("^");
        assert(out@ + regex_escaped(literal@) =~= seq!['^'] + wildcard_body(
            pattern@.subrange(0, 0),
        ));
    }
    for c in it: pattern.chars()
        invariant
            it.seq() == pattern@,
            out@ + regex_escaped(literal@) == seq!['^'] + wildcard_body(
                pattern@.subrange(0, it.index() as int),
            ),
    {
        let ghost before = pattern@.subrange(0, it.index() as int);
        let ghost after = pattern@.subrange(0, it.index() + 1);
        proof {
            assert(after.drop_last() =~= before);
            assert(after.last() == c);
        }
        if c == '*' {
            let piece = regex_escape(literal.as_str());
            out.append(piece.as_str());
            out.append("(?s:.*)");
            literal = String::new();
            proof {
                reveal_strlit("(?s:.*)");
                assert("(?s:.*)"@ =~= any_run());
                assert(out@ + regex_escaped(literal@) =~= seq!['^'] + wildcard_body(after));
            }
        } else {
            let ghost run = literal@;
            push_char(&mut literal, c);
            proof {
                assert(literal@.drop_last() =~= run);
                assert(regex_escaped(literal@) == regex_escaped(run) + escaped_char(c));
                assert(wildcard_body(after) == wildcard_body(before) + escaped_char(c));
                assert(out@ + (regex_escaped(run) + escaped_char(c)) =~= (out@ + regex_escaped(
                    run,
                )) + escaped_char(c));
                assert(seq!['^'] + (wildcard_body(before) + escaped_char(c)) =~= (seq!['^']
                    + wildcard_body(before)) + escaped_char(c));
            }
        }
    }
    let piece = regex_escape(literal.as_str());
    out.append(piece.as_str());
    out.append("$");
    proof {
        reveal_strlit("$");
        assert(pattern@.subrange(0, pattern@.len() as int) =~= pattern@);
        assert(out@ =~= wildcard_regex(pattern@));
    }
    out
}

/// Whether a file-type condition with this value accepts a file with this
/// extension: the two agree once lower-cased, or the value is `*`.
pub open spec fn file_type_matches(value: Seq<char>, extension: Seq<char>) -> bool {
    lowercase_of(value) == lowercase_of(extension) || value == seq!['*']
}

/// The file-type test, given both texts already lower-cased.
pub fn file_type_verdict(value: &str, lowered_value: &str, lowered_extension: &str) -> (matched:
    bool)
    ensures
        matched == (lowered_value@ == lowered_extension@ || value@ == seq!['*']),
{
    proof {
        reveal_strlit("*");
        assert("*"@ =~= seq!['*']);
    }
    same_text(lowered_value, lowered_extension) || same_text(value, "*")
}

/// The file-type test of a rule: case-insensitive equality of value and
/// extension, with `*` accepting every file.
pub fn file_type_accepts(value: &str, extension: &str) -> (matched: bool)
    ensures
        matched == file_type_matches(value@, extension@),
{
    let lowered_value = lowercase(value);
    let lowered_extension = lowercase(extension);
    file_type_verdict(value, lowered_value.as_str(), lowered_extension.as_str())
}

/// What a wildcard pattern decides once the regular expression has answered:
/// the answer itself, or substring containment where the expression was
/// refused.
pub open spec fn wildcard_outcome(answer: Option<bool>, pattern: Seq<char>, file_name: Seq<char>)
    -> bool {
    match answer {
        Some(found) => found,
        None => is_substring(pattern, file_name),
    }
}

/// Whether a name pattern accepts a file name. A pattern with `*` is matched
/// as a whole-name wildcard expression; one without is looked for as a
/// substring.
pub open spec fn name_matches(pattern: Seq<char>, file_name: Seq<char>) -> bool {
    if pattern.contains('*') {
        wildcard_outcome(regex_search(wildcard_regex(pattern), file_name), pattern, file_name)
    } else {
        is_substring(pattern, file_name)
    }
}

/// Decides a wildcard pattern from the regular expression's answer.
pub fn wildcard_verdict(answer: Option<bool>, pattern: &str, file_name: &str) -> (matched: bool)
    ensures
        matched == wildcard_outcome(answer, pattern@, file_name@),
{
    match answer {
        Some(found) => found,
        None => contains_text(file_name, pattern),
    }
}

/// The name test of a rule.
pub fn name_accepts(pattern: &str, file_name: &str) -> (matched: bool)
    ensures
        matched == name_matches(pattern@, file_name@),
{
    if contains_char(pattern, '*') {
        let expression = wildcard_expression(pattern);
        let answer = regex_is_match(expression.as_str(), file_name);
        wildcard_verdict(answer, pattern, file_name)
    } else {
        contains_text(file_name, pattern)
    }
}

} // verus!
