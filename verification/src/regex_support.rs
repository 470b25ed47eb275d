//! The `regex` calls the parsers make: first match, capture group 1, and
//! `regex::escape`.
use vstd::prelude::*;

verus! {

/// Group 1 of the leftmost-first match of `pattern` in `hay` under the `regex`
/// crate's syntax and semantics; `None` when the pattern does not compile, when
/// nothing matches, or when group 1 did not take part in the match.
pub uninterp spec fn regex_first_capture1(pattern: Seq<char>, hay: Seq<char>) -> Option<Seq<char>>;

/// `Regex::new(pattern)`, then `captures(hay)`, then group 1 as an owned string.
/// The contract names the outcome by [`regex_first_capture1`] and says nothing more.
#[verifier::external_body]
pub(crate) fn regex_capture1(pattern: &str, hay: &str) -> (r: Option<String>)
    ensures
        match regex_first_capture1(pattern@, hay@) {
            Some(s) => r matches Some(t) && t@ == s,
            None => r is None,
        },
{
    match regex::Regex::new(pattern) {
        Ok(re) => match re.captures(hay) {
            Some(caps) => match caps.get(1) {
                Some(m) => Some(m.as_str().to_string()),
                None => None,
            },
            None => None,
        },
        Err(_) => None,
    }
}

/// A regex meta character (`regex_syntax::is_meta_character`).
pub open spec fn is_regex_meta(c: char) -> bool {
    c == '\\' || c == '.' || c == '+' || c == '*' || c == '?' || c == '(' || c == ')' || c == '|' || c == '['
        || c == ']' || c == '{' || c == '}' || c == '^' || c == '$' || c == '#' || c == '&' || c == '-'
        || c == '~'
}

/// `text` with a backslash before every meta character.
pub open spec fn regex_escaped(text: Seq<char>) -> Seq<char>
    decreases text.len(),
{
    if text.len() == 0 {
        Seq::empty()
    } else {
        let last = text.last();
        regex_escaped(text.drop_last()) + (if is_regex_meta(last) { seq!['\\', last] } else { seq![last] })
    }
}

/// `regex::escape`: prefixes each meta character of `text` with `\`.
#[verifier::external_body]
pub(crate) fn regex_escape(text: &str) -> (r: String)
    ensures
        r@ == regex_escaped(text@),
{
    regex::escape(text)
}

} // verus!
