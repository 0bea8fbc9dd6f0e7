//! The calls that matchers make into other crates and into `std`, each with
//! the contract that the rest of the library relies on.

use vstd::prelude::*;

verus! {

/// Whether two strings are equal under Unicode case folding, as `unicase`
/// decides it.
pub uninterp spec fn casefold_equal(a: Seq<char>, b: Seq<char>) -> bool;

/// What searching `text` for the regular expression `pattern` gives: `Err`
/// with `regex`'s message when the pattern does not compile, else whether it
/// matches somewhere in `text`.
pub uninterp spec fn regex_search(pattern: Seq<char>, text: Seq<char>) -> Result<bool, Seq<char>>;

/// What comparing two JSON documents gives: `Err` with `serde_json`'s message
/// when one of them does not parse (the first one is parsed first), else
/// whether they are the same JSON value.
pub uninterp spec fn json_compare(actual: Seq<char>, expected: Seq<char>) -> Result<bool, Seq<char>>;

/// The lowercase form of a string, as `str::to_lowercase` writes it.
pub uninterp spec fn str_lowercase(s: Seq<char>) -> Seq<char>;

/// Calls `unicase::eq`, which compares `UniCase::new(a)` with
/// `UniCase::new(b)`. The contract names the result, and states that a string
/// equals itself (`UniCase` implements `Eq`).
#[verifier::external_body]
pub(crate) fn casefold_eq(a: &str, b: &str) -> (r: bool)
    ensures
        r == casefold_equal(a@, b@),
        a@ == b@ ==> r,
{
    unicase::eq(a, b)
}

/// Calls `regex::Regex::new` on `pattern`, then `Regex::is_match` on `text`;
/// the error of `Regex::new` becomes its `Display` text. The contract names
/// the result.
#[verifier::external_body]
pub(crate) fn regex_is_match(pattern: &str, text: &str) -> (r: Result<bool, String>)
    ensures
        match (r, regex_search(pattern@, text@)) {
            (Result::Ok(b), Result::Ok(c)) => b == c,
            (Result::Err(e), Result::Err(d)) => e@ == d,
            _ => false,
        },
{
    match regex::Regex::new(pattern) {
        Ok(re) => Ok(re.is_match(text)),
        Err(error) => Err(error.to_string()),
    }
}

/// Calls `serde_json::from_str::<serde_json::Value>` on `actual`, then on
/// `expected`, and compares the two values with `==`; a parse error becomes
/// its `Display` text. The contract names the result.
#[verifier::external_body]
pub(crate) fn json_eq(actual: &str, expected: &str) -> (r: Result<bool, String>)
    ensures
        match (r, json_compare(actual@, expected@)) {
            (Result::Ok(b), Result::Ok(c)) => b == c,
            (Result::Err(e), Result::Err(d)) => e@ == d,
            _ => false,
        },
{
    let a = match serde_json::from_str::<serde_json::Value>(actual) {
        Ok(value) => value,
        Err(error) => return Err(error.to_string()),
    };
    match serde_json::from_str::<serde_json::Value>(expected) {
        Ok(e) => Ok(a == e),
        Err(error) => Err(error.to_string()),
    }
}

/// Calls `str::to_lowercase`. The contract names the result.
#[verifier::external_body]
pub(crate) fn lowercase(s: &str) -> (r: String)
    ensures
        r@ == str_lowercase(s@),
{
    s.to_lowercase()
}

} // verus!
