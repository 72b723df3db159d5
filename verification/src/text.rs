//! Text as sequences of characters: character classes, trimming, substring
//! search and decimal numerals, with the contracts under which the standard
//! library's string routines are used.

use vstd::prelude::*;

verus! {

// ---------------------------------------------------------------------------
// Character classes
// ---------------------------------------------------------------------------

/// Whether Unicode gives `c` the `White_Space` property: the tabs and line
/// ends of ASCII, the space, the next-line mark, the no-break space, the
/// ogham space mark, the spaces of fixed width, the line and paragraph
/// separators, the narrow no-break space, the mathematical space and the
/// ideographic space.
pub open spec fn whitespace(c: char) -> bool {
    ||| '\u{9}' <= c <= '\u{d}'
    ||| c == ' '
    ||| c == '\u{85}'
    ||| c == '\u{a0}'
    ||| c == '\u{1680}'
    ||| '\u{2000}' <= c <= '\u{200a}'
    ||| '\u{2028}' <= c <= '\u{2029}'
    ||| c == '\u{202f}'
    ||| c == '\u{205f}'
    ||| c == '\u{3000}'
}

/// Whether Unicode classes `c` as alphabetic or numeric.
pub uninterp spec fn unicode_alphanumeric(c: char) -> bool;

/// The Unicode lowercase form of `text`.
pub uninterp spec fn unicode_lowercase(text: Seq<char>) -> Seq<char>;

/// `char::is_whitespace`: true exactly of the characters that have the
/// `White_Space` property, which `whitespace` lists.
pub assume_specification[ char::is_whitespace ](c: char) -> (b: bool)
    ensures
        b == whitespace(c),
;

/// `char::is_alphanumeric`: the answer is the one Unicode gives for the
/// character; which characters those are is left to `unicode_alphanumeric`.
pub assume_specification[ char::is_alphanumeric ](c: char) -> (b: bool)
    ensures
        b == unicode_alphanumeric(c),
;

/// `str::to_lowercase`: the new string is the Unicode lowercase form of the
/// whole slice; the mapping itself is left to `unicode_lowercase`.
pub assume_specification[ str::to_lowercase ](s: &str) -> (lower: String)
    ensures
        lower@ == unicode_lowercase(s@),
;

/// `String::push`: the character is appended at the end and nothing else
/// changes.
pub assume_specification[ String::push ](s: &mut String, ch: char)
    ensures
        final(s)@ == old(s)@.push(ch),
;

/// Whether `c` lies in the ASCII range.
pub open spec fn in_ascii_range(c: char) -> bool {
    (c as u32) < 128
}

/// Whether `c` is one of the ASCII letters and digits.
pub open spec fn ascii_alphanumeric(c: char) -> bool {
    ||| 'a' <= c <= 'z'
    ||| 'A' <= c <= 'Z'
    ||| '0' <= c <= '9'
}

/// Alphanumeric characters: within ASCII the letters and digits, beyond
/// ASCII whatever Unicode classes as alphabetic or numeric.
pub open spec fn alphanumeric(c: char) -> bool {
    if in_ascii_range(c) {
        ascii_alphanumeric(c)
    } else {
        unicode_alphanumeric(c)
    }
}

/// Decides `alphanumeric`; only characters beyond ASCII are looked up in
/// the Unicode tables.
pub fn is_alphanumeric_char(c: char) -> (b: bool)
    ensures
        b == alphanumeric(c),
{
    if c <= '\x7f' {
        ('a' <= c && c <= 'z') || ('A' <= c && c <= 'Z') || ('0' <= c && c <= '9')
    } else {
        c.is_alphanumeric()
    }
}

// ---------------------------------------------------------------------------
// Trimming
// ---------------------------------------------------------------------------

/// `s` without its leading run of whitespace.
pub open spec fn trimmed_start(s: Seq<char>) -> Seq<char>
    decreases s.len(),
{
    if s.len() > 0 && whitespace(s.first()) {
        trimmed_start(s.drop_first())
    } else {
        s
    }
}

/// `s` without its trailing run of whitespace.
pub open spec fn trimmed_end(s: Seq<char>) -> Seq<char>
    decreases s.len(),
{
    if s.len() > 0 && whitespace(s.last()) {
        trimmed_end(s.drop_last())
    } else {
        s
    }
}

/// `s` without leading and trailing whitespace.
pub open spec fn trimmed(s: Seq<char>) -> Seq<char> {
    trimmed_end(trimmed_start(s))
}

/// `str::trim`: the slice returned is the input with the leading and the
/// trailing run of `White_Space` characters, which `whitespace` lists,
/// removed, and nothing else.
pub assume_specification[ str::trim ](s: &str) -> (t: &str)
    ensures
        t@ == trimmed(s@),
;

// ---------------------------------------------------------------------------
// Substrings and prefixes
// ---------------------------------------------------------------------------

/// Whether `needle` stands in `hay` starting at position `at`.
pub open spec fn occurs_at(hay: Seq<char>, needle: Seq<char>, at: int) -> bool {
    &&& 0 <= at
    &&& at + needle.len() <= hay.len()
    &&& hay.subrange(at, at + needle.len()) == needle
}

/// Whether `needle` stands somewhere in `hay`.
pub open spec fn has_substring(hay: Seq<char>, needle: Seq<char>) -> bool {
    exists|at: int| occurs_at(hay, needle, at)
}

/// `str::contains` with a string pattern: true exactly when the pattern
/// equals some contiguous part of the slice.
#[verifier::external_body]
pub(crate) fn contains_text(hay: &str, needle: &str) -> (found: bool)
    ensures
        found == has_substring(hay@, needle@),
{
    hay.contains(needle)
}

/// `s` with `prefix` removed from its front, if it starts with it.
pub open spec fn without_prefix(s: Seq<char>, prefix: Seq<char>) -> Option<Seq<char>> {
    if prefix.is_prefix_of(s) {
        Some(s.skip(prefix.len() as int))
    } else {
        None
    }
}

/// `str::strip_prefix` with a string pattern: when the slice starts with
/// the pattern, the rest of the slice; otherwise nothing.
#[verifier::external_body]
pub(crate) fn strip_prefix_text<'a>(s: &'a str, prefix: &str) -> (rest: Option<&'a str>)
    ensures
        match rest {
            Some(r) => without_prefix(s@, prefix@) == Some(r@),
            None => without_prefix(s@, prefix@) is None,
        },
{
    s.strip_prefix(prefix)
}

// ---------------------------------------------------------------------------
// Joined text
// ---------------------------------------------------------------------------

/// A text that was put between the same prefix and the same suffix as
/// another, with the same result, is that other text.
pub proof fn lemma_cancel_affixes(
    prefix: Seq<char>,
    left: Seq<char>,
    right: Seq<char>,
    suffix: Seq<char>,
)
    requires
        prefix + left + suffix == prefix + right + suffix,
    ensures
        left == right,
{
    let a = prefix + left + suffix;
    let b = prefix + right + suffix;
    assert(a.len() == b.len());
    assert forall|i: int| 0 <= i < left.len() implies left[i] == right[i] by {
        assert(a[prefix.len() + i] == left[i]);
        assert(b[prefix.len() + i] == right[i]);
    }
}

/// Two texts joined by a separator can be told apart again where the second
/// text does not hold the separator: the join splits at its last separator.
pub proof fn lemma_split_at_last(
    head: Seq<char>,
    tail: Seq<char>,
    other_head: Seq<char>,
    other_tail: Seq<char>,
    separator: char,
)
    requires
        head.push(separator) + tail == other_head.push(separator) + other_tail,
        !tail.contains(separator),
        !other_tail.contains(separator),
    ensures
        head == other_head,
        tail == other_tail,
{
    let a = head.push(separator) + tail;
    let b = other_head.push(separator) + other_tail;
    assert(a.len() == b.len());
    if tail.len() < other_tail.len() {
        let at = head.len() as int;
        assert(a[at] == separator);
        assert(b[at] == other_tail[at - other_head.len() - 1]);
    } else if other_tail.len() < tail.len() {
        let at = other_head.len() as int;
        assert(b[at] == separator);
        assert(a[at] == tail[at - head.len() - 1]);
    } else {
        assert forall|i: int| 0 <= i < head.len() implies head[i] == other_head[i] by {
            assert(a[i] == head[i]);
            assert(b[i] == other_head[i]);
        }
        assert forall|i: int| 0 <= i < tail.len() implies tail[i] == other_tail[i] by {
            assert(a[head.len() + 1 + i] == tail[i]);
            assert(b[head.len() + 1 + i] == other_tail[i]);
        }
    }
}

// ---------------------------------------------------------------------------
// Decimal numerals
// ---------------------------------------------------------------------------

/// The character that writes the decimal digit `d`.
pub open spec fn digit(d: nat) -> char
    recommends
        d < 10,
{
    (48 + d) as char
}

/// The decimal numeral of `n`, without leading zeros.
pub open spec fn decimal(n: nat) -> Seq<char>
    decreases n,
{
    if n < 10 {
        seq![digit(n)]
    } else {
        decimal(n / 10).push(digit(n % 10))
    }
}

/// A numeral is never empty and holds nothing but the digits `0` to `9`.
pub proof fn lemma_decimal_digits(n: nat)
    ensures
        decimal(n).len() >= 1,
        n >= 10 ==> decimal(n).len() >= 2,
        forall|i: int| 0 <= i < decimal(n).len() ==> '0' <= #[trigger] decimal(n)[i] <= '9',
    decreases n,
{
    if n >= 10 {
        lemma_decimal_digits(n / 10);
    }
}

/// Different numbers have different numerals.
pub proof fn lemma_decimal_injective(a: nat, b: nat)
    requires
        decimal(a) == decimal(b),
    ensures
        a == b,
    decreases a,
{
    lemma_decimal_digits(a);
    lemma_decimal_digits(b);
    if a >= 10 && b >= 10 {
        let da = decimal(a / 10);
        let db = decimal(b / 10);
        assert(decimal(b).last() == digit(b % 10));
        assert(da == decimal(a).drop_last());
        assert(db == decimal(b).drop_last());
        lemma_decimal_injective(a / 10, b / 10);
    } else if a < 10 && b < 10 {
        assert(decimal(a)[0] == digit(a));
    }
}

/// Appends the decimal numeral of `n` to `out`.
pub fn push_decimal(out: &mut String, n: usize)
    ensures
        final(out)@ == old(out)@ + decimal(n as nat),
    decreases n,
{
    if n >= 10 {
        push_decimal(out, n / 10);
    }
    let d: u8 = (n % 10) as u8;
    out.push((48u8 + d) as char);
}

} // verus!
