//! Timestamps: which texts show the date and time of an interaction.

use regex::Regex;
use vstd::prelude::*;

verus! {

/// A month name, day, year, time with seconds and meridiem, and an optional
/// three-letter zone, as in `Jan 5, 2024, 10:32:15 PM UTC`.
pub const TIMESTAMP_PATTERN: &'static str =
    r"\b(?:Jan|Feb|Mar|Apr|May|Jun|Jul|Aug|Sep|Oct|Nov|Dec)\b \d{1,2}, \d{4}, \d{1,2}:\d{2}:\d{2}\s*(?:AM|PM)(?:\s+[A-Z]{3})?";

/// The timestamp of an interaction in which none was found.
pub const UNKNOWN_TIME: &'static str = "Unknown_Time";

/// Whether the regular expression `pattern` matches somewhere in `text`;
/// `None` where `pattern` is no regular expression that can be compiled.
pub uninterp spec fn regex_search(pattern: Seq<char>, text: Seq<char>) -> Option<bool>;

/// `regex::Regex::new`, then `Regex::is_match` on the expression it built:
/// `None` where the pattern is refused, else whether the expression matches
/// anywhere in the text. The outcome depends on the pattern and the text
/// alone; which it is, is left to `regex_search`.
#[verifier::external_body]
pub(crate) fn search(pattern: &str, text: &str) -> (found: Option<bool>)
    ensures
        found == regex_search(pattern@, text@),
{
    match Regex::new(pattern) {
        Ok(expression) => Some(expression.is_match(text)),
        Err(_) => None,
    }
}

/// Whether `text` holds a timestamp.
pub open spec fn is_timestamp_text(text: Seq<char>) -> bool {
    timestamp_found(regex_search(TIMESTAMP_PATTERN@, text))
}

/// What the outcome of a search for the timestamp pattern says: the text
/// holds a timestamp exactly when the search ran and matched.
pub open spec fn timestamp_found(outcome: Option<bool>) -> bool {
    outcome == Some(true)
}

/// Reads the outcome of a search for the timestamp pattern.
pub fn search_found_timestamp(outcome: Option<bool>) -> (found: bool)
    ensures
        found == timestamp_found(outcome),
{
    match outcome {
        Some(matched) => matched,
        None => false,
    }
}

/// Whether `text` holds a timestamp.
pub fn is_timestamp(text: &str) -> (found: bool)
    ensures
        found == is_timestamp_text(text@),
{
    search_found_timestamp(search(TIMESTAMP_PATTERN, text))
}

} // verus!
