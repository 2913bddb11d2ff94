//! The outside engines that the catalog relies on: the regular-expression
//! engine of the `regex` crate, the fuzzy matcher of the `fuzzy-matcher` crate
//! and the case mappings of the standard library. What they compute is named
//! here and taken on trust; every contract that depends on it says so through
//! these names.

use vstd::prelude::*;
use crate::types::text_of;

verus! {

/// The longest text, in characters, that is handed to the fuzzy matcher.
pub const FUZZY_LIMIT: usize = 0x10_0000;

/// What the regular-expression engine captures: the text of capture group 1
/// in the leftmost match of the expression `pattern` in `text`. `None` where
/// `pattern` is no valid expression, where it matches nowhere in `text`, or
/// where group 1 took no part in the match.
pub uninterp spec fn first_capture(pattern: Seq<char>, text: Seq<char>) -> Option<Seq<char>>;

/// What the fuzzy matcher, as configured by default, gives for the candidate
/// `choice` and the query `pattern`: the score of the alignment that it
/// finds, or `None` where it finds no alignment of `pattern` with `choice`.
pub uninterp spec fn fuzzy_score(choice: Seq<char>, pattern: Seq<char>) -> Option<i64>;

/// The lower-case equivalent of `text` according to Unicode.
pub uninterp spec fn lowercase_of(text: Seq<char>) -> Seq<char>;

/// The upper-case equivalent of `text` according to Unicode.
pub uninterp spec fn uppercase_of(text: Seq<char>) -> Seq<char>;

/// Compiles `pattern` once with `regex::Regex::new`, searches each text of
/// `texts` with `Regex::captures` and hands back, text by text, the text of
/// capture group 1; nothing where there is no text to search. The contract
/// claims that each result is a function of the pattern and the text alone;
/// what the expression language means is not stated.
#[verifier::external_body]
pub(crate) fn capture_each(pattern: &str, texts: &Vec<Option<String>>) -> (found: Vec<
    Option<String>,
>)
    ensures
        found.len() == texts.len(),
        forall|i: int|
            0 <= i < texts.len() ==> text_of(#[trigger] found[i]) == match texts[i] {
                Some(text) => first_capture(pattern@, text@),
                None => None,
            },
{
    let expression = regex::Regex::new(pattern).ok();
    texts.iter().map(
        |text| {
            let groups = expression.as_ref()?.captures(text.as_ref()?)?;
            groups.get(1).map(|group| group.as_str().to_string())
        },
    ).collect()
}

/// Calls `FuzzyMatcher::fuzzy_match` on a fresh `SkimMatcherV2::default()`.
/// The contract claims that the score is a function of the two texts alone.
/// The matcher keeps its working scores in 32 bits and moves them by a small
/// step per character of `choice`: the bound keeps them far from the ends of
/// that range, where the matcher's arithmetic would overflow.
#[verifier::external_body]
pub(crate) fn fuzzy_match(choice: &str, pattern: &str) -> (score: Option<i64>)
    requires
        choice@.len() <= FUZZY_LIMIT,
        pattern@.len() <= FUZZY_LIMIT,
    ensures
        score == fuzzy_score(choice@, pattern@),
{
    let matcher = fuzzy_matcher::skim::SkimMatcherV2::default();
    fuzzy_matcher::FuzzyMatcher::fuzzy_match(&matcher, choice, pattern)
}

/// Calls `str::to_lowercase`. The contract names the result and claims no
/// more than that it is a function of the text.
#[verifier::external_body]
pub(crate) fn to_lowercase(text: &str) -> (lower: String)
    ensures
        lower@ == lowercase_of(text@),
{
    text.to_lowercase()
}

/// Calls `str::to_uppercase`. The contract names the result and claims no
/// more than that it is a function of the text.
#[verifier::external_body]
pub(crate) fn to_uppercase(text: &str) -> (upper: String)
    ensures
        upper@ == uppercase_of(text@),
{
    text.to_uppercase()
}

} // verus!
