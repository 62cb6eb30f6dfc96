//! The calls into the `regex` crate. Each wrapper compiles its pattern and
//! applies it; what a pattern matches takes the crate's documentation to
//! state, so each result is named over the pattern and the text.
use vstd::prelude::*;

verus! {

/// What `regex::Regex::new(pattern)` followed by `replace_all(text, replacement)`
/// returns; `None` when the pattern does not compile.
pub uninterp spec fn regex_replaced(
    pattern: Seq<char>,
    text: Seq<char>,
    replacement: Seq<char>,
) -> Option<Seq<char>>;

/// What `regex::Regex::new(pattern)` followed by `is_match(text)` returns;
/// `None` when the pattern does not compile.
pub uninterp spec fn regex_matches(pattern: Seq<char>, text: Seq<char>) -> Option<bool>;

/// The texts of the matches that `regex::Regex::new(pattern)` followed by
/// `find_iter(text)` yields, in order; `None` when the pattern does not compile.
pub uninterp spec fn regex_found(pattern: Seq<char>, text: Seq<char>) -> Option<Seq<Seq<char>>>;

/// The text of capture group 1 of the first match that
/// `regex::Regex::new(pattern)` followed by `captures(text)` finds: `Some(None)`
/// without a match or without that group; `None` when the pattern does not compile.
pub uninterp spec fn regex_first_group(pattern: Seq<char>, text: Seq<char>) -> Option<
    Option<Seq<char>>,
>;

/// `Regex::new` and `Regex::replace_all`: every match of `pattern` in `text`
/// replaced by `replacement` (which holds no `$`); the contract names the result.
#[verifier::external_body]
pub(crate) fn replace_all(pattern: &str, text: &str, replacement: &str) -> (res: Option<String>)
    ensures
        match res {
            Some(s) => regex_replaced(pattern@, text@, replacement@) == Some(s@),
            None => regex_replaced(pattern@, text@, replacement@) is None,
        },
{
    match regex::Regex::new(pattern) {
        Ok(re) => Some(re.replace_all(text, replacement).into_owned()),
        Err(_) => None,
    }
}

/// `Regex::new` and `Regex::is_match`; the contract names the result.
#[verifier::external_body]
pub(crate) fn is_match(pattern: &str, text: &str) -> (res: Option<bool>)
    ensures
        res == regex_matches(pattern@, text@),
{
    match regex::Regex::new(pattern) {
        Ok(re) => Some(re.is_match(text)),
        Err(_) => None,
    }
}

/// `Regex::new` and `Regex::find_iter`, each match taken by `as_str`; the
/// contract names the result.
#[verifier::external_body]
pub(crate) fn find_all(pattern: &str, text: &str) -> (res: Option<Vec<String>>)
    ensures
        match res {
            Some(v) => regex_found(pattern@, text@) == Some(v@.map_values(|s: String| s@)),
            None => regex_found(pattern@, text@) is None,
        },
{
    match regex::Regex::new(pattern) {
        Ok(re) => Some(re.find_iter(text).map(|m| m.as_str().to_string()).collect()),
        Err(_) => None,
    }
}

/// `Regex::new` and `Regex::captures`, group 1 taken by `as_str`; the
/// contract names the result.
#[verifier::external_body]
pub(crate) fn first_group(pattern: &str, text: &str) -> (res: Option<Option<String>>)
    ensures
        match res {
            Some(Some(s)) => regex_first_group(pattern@, text@) == Some(Some(s@)),
            Some(None) => regex_first_group(pattern@, text@) == Some(None::<Seq<char>>),
            None => regex_first_group(pattern@, text@) is None,
        },
{
    match regex::Regex::new(pattern) {
        Ok(re) => Some(re.captures(text).and_then(|c| c.get(1)).map(|m| m.as_str().to_string())),
        Err(_) => None,
    }
}

} // verus!
