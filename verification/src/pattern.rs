//! Calls into the `regex` crate. Every regular expression that the fingerprint
//! rules use goes through the functions here; what a match yields is named by
//! the spec functions below, as the `regex` crate computes it.
use vstd::prelude::*;

verus! {

/// Whether `regex::Regex::new(pattern)` returns `Ok`.
pub uninterp spec fn regex_compiles(pattern: Seq<char>) -> bool;

/// The text of group 0 of each item that `Regex::captures_iter` yields on
/// `text`, in order.
pub uninterp spec fn regex_match_texts(pattern: Seq<char>, text: Seq<char>) -> Seq<Seq<char>>;

/// The groups that `Regex::captures` finds on `text` (index 0 is the whole
/// match, `None` for a group that did not take part); `None` when nothing
/// matches.
pub uninterp spec fn regex_first_groups(pattern: Seq<char>, text: Seq<char>) -> Option<
    Seq<Option<Seq<char>>>,
>;

/// What `Regex::replace_all(text, rep)` returns.
pub uninterp spec fn regex_replaced(pattern: Seq<char>, text: Seq<char>, rep: Seq<char>) -> Seq<
    char,
>;

/// What `Regex::is_match(text)` returns.
pub uninterp spec fn regex_found(pattern: Seq<char>, text: Seq<char>) -> bool;

/// Calls `regex::Regex::new(pattern)` and tells whether it succeeded.
/// Claimed: the result is `regex_compiles(pattern)`.
#[verifier::external_body]
pub(crate) fn regex_is_valid(pattern: &str) -> (b: bool)
    ensures
        b == regex_compiles(pattern@),
{
    regex::Regex::new(pattern).is_ok()
}

/// Compiles `pattern` and calls `Regex::captures_iter(text)`, keeping the text
/// of each whole match. Claimed: the texts are `regex_match_texts(pattern, text)`.
#[verifier::external_body]
pub(crate) fn regex_all_match_texts(pattern: &str, text: &str) -> (r: Vec<String>)
    requires
        regex_compiles(pattern@),
    ensures
        r.deep_view() == regex_match_texts(pattern@, text@),
{
    let re = regex::Regex::new(pattern).unwrap();
    re.captures_iter(text).map(|c| c[0].to_string()).collect()
}

/// Compiles `pattern` and calls `Regex::captures(text)`, keeping the text of
/// every group. Claimed: the result is `regex_first_groups(pattern, text)`.
#[verifier::external_body]
pub(crate) fn regex_first_captures(pattern: &str, text: &str) -> (r: Option<Vec<Option<String>>>)
    requires
        regex_compiles(pattern@),
    ensures
        r.deep_view() == regex_first_groups(pattern@, text@),
{
    let re = regex::Regex::new(pattern).unwrap();
    re.captures(text).map(|c| c.iter().map(|g| g.map(|m| m.as_str().to_string())).collect())
}

/// Compiles `pattern` and calls `Regex::replace_all(text, rep)`.
/// Claimed: the result is `regex_replaced(pattern, text, rep)`.
#[verifier::external_body]
pub(crate) fn regex_replace_all(pattern: &str, text: &str, rep: &str) -> (r: String)
    requires
        regex_compiles(pattern@),
    ensures
        r@ == regex_replaced(pattern@, text@, rep@),
{
    let re = regex::Regex::new(pattern).unwrap();
    re.replace_all(text, rep).to_string()
}

/// Compiles `pattern` and calls `Regex::is_match(text)`.
/// Claimed: the result is `regex_found(pattern, text)`.
#[verifier::external_body]
pub(crate) fn regex_is_match(pattern: &str, text: &str) -> (b: bool)
    requires
        regex_compiles(pattern@),
    ensures
        b == regex_found(pattern@, text@),
{
    let re = regex::Regex::new(pattern).unwrap();
    re.is_match(text)
}

} // verus!
