//! File names: how a timestamp and a query become the stem that every path
//! of one interaction shares.

use crate::text::{alphanumeric, decimal, is_alphanumeric_char, push_decimal};
use crate::text::{lemma_decimal_digits, lemma_decimal_injective, lemma_split_at_last};
use crate::text::{unicode_lowercase, whitespace};
use vstd::prelude::*;
use vstd::string::StringExecFns;

verus! {

/// The longest query part, in characters, that a file name carries.
pub const MAX_QUERY_LENGTH: usize = 50;

/// What stands for a query of which sanitizing leaves nothing.
pub open spec fn unnamed() -> Seq<char> {
    "unnamed"@
}

// ---------------------------------------------------------------------------
// Timestamps
// ---------------------------------------------------------------------------

/// The timestamp with every character that is not alphanumeric replaced by
/// an underscore.
pub open spec fn safe_timestamp(timestamp: Seq<char>) -> Seq<char> {
    timestamp.map_values(
        |c: char|
            if alphanumeric(c) {
                c
            } else {
                '_'
            },
    )
}

/// Computes `safe_timestamp`.
pub fn sanitize_timestamp(timestamp: &str) -> (safe: String)
    ensures
        safe@ == safe_timestamp(timestamp@),
{
    let mut safe = String::new();
    for c in it: timestamp.chars()
        invariant
            it.seq() == timestamp@,
            safe@ == safe_timestamp(timestamp@.take(it.index() as int)),
    {
        let kept = if is_alphanumeric_char(c) {
            c
        } else {
            '_'
        };
        safe.push(kept);
    }
    safe
}

// ---------------------------------------------------------------------------
// Queries
// ---------------------------------------------------------------------------

/// The characters that a file name keeps: alphanumerics, the dot and the
/// hyphen.
pub open spec fn keeps(c: char) -> bool {
    alphanumeric(c) || c == '.' || c == '-'
}

/// `text` with each whitespace character replaced by an underscore.
pub open spec fn spaces_underscored(text: Seq<char>) -> Seq<char> {
    text.map_values(
        |c: char|
            if whitespace(c) {
                '_'
            } else {
                c
            },
    )
}

/// Lowercased text made safe for a file name: whitespace becomes an
/// underscore, then every character that a file name does not keep is
/// dropped.
pub open spec fn sanitized(lowered: Seq<char>) -> Seq<char> {
    spaces_underscored(lowered).filter(|c: char| keeps(c))
}

/// `name` cut to at most `max_length` characters; an empty name that needs
/// no cutting becomes `unnamed()`.
pub open spec fn clipped(name: Seq<char>, max_length: nat) -> Seq<char> {
    if name.len() > max_length {
        name.take(max_length as int)
    } else if name.len() == 0 {
        unnamed()
    } else {
        name
    }
}

/// The file-name form of `text`: lowercased, sanitized and clipped.
pub open spec fn safe_name(text: Seq<char>, max_length: nat) -> Seq<char> {
    clipped(sanitized(unicode_lowercase(text)), max_length)
}

/// Sanitizes and clips text that is already lowercased.
pub fn sanitize_lowered(lowered: &str, max_length: usize) -> (name: String)
    ensures
        name@ == clipped(sanitized(lowered@), max_length as nat),
{
    let mut name = String::new();
    let mut length: usize = 0;
    let mut cut = false;
    for c in it: lowered.chars()
        invariant
            it.seq() == lowered@,
            length == name@.len(),
            length <= max_length,
            cut == (sanitized(lowered@.take(it.index() as int)).len() > max_length),
            cut ==> length == max_length,
            name@ == sanitized(lowered@.take(it.index() as int)).take(length as int),
            !cut ==> name@ == sanitized(lowered@.take(it.index() as int)),
    {
        let ghost before = lowered@.take(it.index() as int);
        let ghost safe_before = sanitized(before);
        let spaced = if c.is_whitespace() {
            '_'
        } else {
            c
        };
        let keep = is_alphanumeric_char(spaced) || spaced == '.' || spaced == '-';
        proof {
            assert(lowered@.take(it.index() + 1) == before.push(c));
            assert(spaces_underscored(before.push(c)) == spaces_underscored(before).push(spaced));
            spaces_underscored(before).lemma_filter_push(spaced, |c: char| keeps(c));
            assert(sanitized(before.push(c)) == if keep {
                safe_before.push(spaced)
            } else {
                safe_before
            });
        }
        if keep {
            if length < max_length {
                name.push(spaced);
                length = length + 1;
            } else {
                cut = true;
            }
        }
    }
    proof {
        assert(lowered@.take(lowered@.len() as int) == lowered@);
    }
    if cut {
        name
    } else if length == 0 {
        String::from_str("unnamed")
    } else {
        name
    }
}

/// The file-name form of `text`, at most `max_length` characters long:
/// lowercased, whitespace and everything but alphanumerics, dots and hyphens
/// removed, and `unnamed` where nothing is left.
pub fn sanitize_filename(text: &str, max_length: usize) -> (name: String)
    ensures
        name@ == safe_name(text@, max_length as nat),
{
    let lowered = text.to_lowercase();
    sanitize_lowered(lowered.as_str(), max_length)
}

// ---------------------------------------------------------------------------
// Stems
// ---------------------------------------------------------------------------

/// The stem shared by the paths of the interaction at position `index`:
/// safe timestamp, position and safe query, joined by underscores.
pub open spec fn base_name(timestamp: Seq<char>, index: nat, query: Seq<char>) -> Seq<char> {
    safe_timestamp(timestamp) + seq!['_'] + decimal(index) + seq!['_'] + safe_name(
        query,
        MAX_QUERY_LENGTH as nat,
    )
}

/// Computes `base_name`.
pub fn build_base_name(timestamp: &str, index: usize, query: &str) -> (base: String)
    ensures
        base@ == base_name(timestamp@, index as nat, query@),
{
    let mut base = sanitize_timestamp(timestamp);
    base.push('_');
    push_decimal(&mut base, index);
    base.push('_');
    let safe_query = sanitize_filename(query, MAX_QUERY_LENGTH);
    base.append(safe_query.as_str());
    base
}

// ---------------------------------------------------------------------------
// What a stem tells
// ---------------------------------------------------------------------------

/// A safe name holds no underscore, whatever the text and the limit.
pub proof fn lemma_safe_name_no_underscore(text: Seq<char>, max_length: nat)
    ensures
        !safe_name(text, max_length).contains('_'),
{
    let spaced = spaces_underscored(unicode_lowercase(text));
    let clean = sanitized(unicode_lowercase(text));
    let name = safe_name(text, max_length);
    let keep = |c: char| keeps(c);
    assert forall|i: int| 0 <= i < clean.len() implies clean[i] != '_' by {
        spaced.lemma_filter_pred(keep, i);
    }
    assert forall|i: int| 0 <= i < name.len() implies name[i] != '_' by {
        if clean.len() == 0 {
            reveal_strlit("unnamed");
        }
    }
}

/// The stem tells the position: interactions at different positions have
/// different stems, whatever their timestamps and queries.
pub proof fn lemma_base_name_tells_index(
    timestamp: Seq<char>,
    index: nat,
    query: Seq<char>,
    other_timestamp: Seq<char>,
    other_index: nat,
    other_query: Seq<char>,
)
    requires
        base_name(timestamp, index, query) == base_name(other_timestamp, other_index, other_query),
    ensures
        index == other_index,
{
    let max = MAX_QUERY_LENGTH as nat;
    let front = safe_timestamp(timestamp).push('_') + decimal(index);
    let other_front = safe_timestamp(other_timestamp).push('_') + decimal(other_index);
    assert(base_name(timestamp, index, query) =~= front.push('_') + safe_name(query, max));
    assert(base_name(other_timestamp, other_index, other_query) =~= other_front.push('_')
        + safe_name(other_query, max));
    lemma_safe_name_no_underscore(query, max);
    lemma_safe_name_no_underscore(other_query, max);
    lemma_split_at_last(
        front,
        safe_name(query, max),
        other_front,
        safe_name(other_query, max),
        '_',
    );
    lemma_decimal_digits(index);
    lemma_decimal_digits(other_index);
    lemma_split_at_last(
        safe_timestamp(timestamp),
        decimal(index),
        safe_timestamp(other_timestamp),
        decimal(other_index),
        '_',
    );
    lemma_decimal_injective(index, other_index);
}

/// A query is cut exactly where what sanitizing leaves of it is longer than
/// the limit: then its safe name is the first `max_length` characters of
/// that, and as long as the limit.
pub proof fn lemma_long_query_is_cut(text: Seq<char>, max_length: nat)
    requires
        sanitized(unicode_lowercase(text)).len() > max_length,
    ensures
        safe_name(text, max_length) == sanitized(unicode_lowercase(text)).take(max_length as int),
        safe_name(text, max_length).len() == max_length,
{
}

/// A safe name is never longer than the limit, unless it is the stand-in
/// for an empty name.
pub proof fn lemma_safe_name_is_short(text: Seq<char>, max_length: nat)
    ensures
        safe_name(text, max_length).len() <= max_length || safe_name(text, max_length)
            == unnamed(),
{
}

} // verus!
