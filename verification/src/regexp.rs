//! Regular-expression matching through the `regex` crate: whether a pattern
//! matches, and the capture groups of its first match.

use vstd::prelude::*;

verus! {

/// The capture groups (group 0, the whole match, first) of the first match of
/// the regular expression `pattern` in `text`; none when the pattern does not
/// compile or does not match.
pub uninterp spec fn regex_captures_of(pattern: Seq<char>, text: Seq<char>) -> Option<Seq<Option<Seq<char>>>>;

/// Whether the regular expression `pattern` compiles and matches somewhere in `text`.
pub uninterp spec fn regex_matches(pattern: Seq<char>, text: Seq<char>) -> bool;

/// Capture group `n` of the first match (none without a match or where the
/// group took no part in it).
pub open spec fn regex_group(pattern: Seq<char>, text: Seq<char>, n: int) -> Option<Seq<char>> {
    match regex_captures_of(pattern, text) {
        Some(groups) => if 0 <= n < groups.len() {
            groups[n]
        } else {
            None
        },
        None => None,
    }
}

/// Models of optional texts.
pub open spec fn opt_texts(v: Seq<Option<String>>) -> Seq<Option<Seq<char>>> {
    v.map_values(|o: Option<String>| crate::pickle::opt_text(o))
}

/// `Regex::new(pattern)` then `Regex::captures(text)`, each group as an optional
/// text; none when the pattern does not compile or does not match. The contract
/// names the result.
#[verifier::external_body]
pub fn regex_captures(pattern: &str, text: &str) -> (r: Option<Vec<Option<String>>>)
    ensures
        match r {
            Some(v) => regex_captures_of(pattern@, text@) == Some(opt_texts(v@)),
            None => regex_captures_of(pattern@, text@) is None,
        },
{
    let re = regex::Regex::new(pattern).ok()?;
    re.captures(text).map(|c| c.iter().map(|m| m.map(|m| m.as_str().to_owned())).collect())
}

/// `Regex::new(pattern)` then `Regex::is_match(text)` (false when the pattern
/// does not compile). The contract names the result.
#[verifier::external_body]
pub fn regex_is_match(pattern: &str, text: &str) -> (r: bool)
    ensures
        r == regex_matches(pattern@, text@),
{
    match regex::Regex::new(pattern) {
        Ok(re) => re.is_match(text),
        Err(_) => false,
    }
}

/// Capture group `n` of the first match of `pattern` in `text`.
pub fn regex_capture(pattern: &str, text: &str, n: usize) -> (r: Option<String>)
    ensures
        crate::pickle::opt_text(r) == regex_group(pattern@, text@, n as int),
{
    match regex_captures(pattern, text) {
        Some(groups) => {
            if n < groups.len() {
                match &groups[n] {
                    Some(g) => Some(g.clone()),
                    None => None,
                }
            } else {
                None
            }
        },
        None => None,
    }
}

} // verus!
