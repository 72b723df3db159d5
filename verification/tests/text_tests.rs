use gemini_processor::naming::{build_base_name, sanitize_filename, sanitize_lowered};
use gemini_processor::naming::{sanitize_timestamp, MAX_QUERY_LENGTH};
use gemini_processor::text::{is_alphanumeric_char, push_decimal};

fn decimal_of(n: usize) -> String {
    let mut out = String::new();
    push_decimal(&mut out, n);
    out
}

#[test]
fn decimal_numerals_have_no_leading_zero() {
    assert_eq!(decimal_of(0), "0");
    assert_eq!(decimal_of(7), "7");
    assert_eq!(decimal_of(10), "10");
    assert_eq!(decimal_of(12345), "12345");
    assert_eq!(decimal_of(usize::MAX), usize::MAX.to_string());
}

#[test]
fn decimal_is_appended_to_what_is_there() {
    let mut out = String::from("part_");
    push_decimal(&mut out, 42);
    assert_eq!(out, "part_42");
}

#[test]
fn ascii_letters_and_digits_are_alphanumeric() {
    for c in ['a', 'z', 'A', 'Z', '0', '9'] {
        assert!(is_alphanumeric_char(c));
    }
    for c in ['_', '/', ' ', '.', '-', ':', ',', '`', '{', '\u{7f}', '@', '['] {
        assert!(!is_alphanumeric_char(c));
    }
}

#[test]
fn alphanumeric_class_is_that_of_the_standard_library() {
    for code in 0u32..0x3000 {
        if let Some(c) = char::from_u32(code) {
            assert_eq!(is_alphanumeric_char(c), c.is_alphanumeric());
        }
    }
}

#[test]
fn letters_beyond_ascii_are_alphanumeric() {
    assert!(is_alphanumeric_char('é'));
    assert!(is_alphanumeric_char('藏'));
    assert!(is_alphanumeric_char('٣'));
    assert!(!is_alphanumeric_char('\u{a0}'));
    assert!(!is_alphanumeric_char('€'));
}

#[test]
fn timestamp_keeps_only_alphanumerics() {
    assert_eq!(
        sanitize_timestamp("Jan 5, 2024, 10:32:15 PM UTC"),
        "Jan_5__2024__10_32_15_PM_UTC"
    );
    assert_eq!(sanitize_timestamp("Unknown_Time"), "Unknown_Time");
    assert_eq!(sanitize_timestamp(""), "");
    assert_eq!(sanitize_timestamp("a/b\\c"), "a_b_c");
    assert_eq!(sanitize_timestamp("5 févr. 2024"), "5_févr__2024");
}

#[test]
fn query_is_lowercased_and_stripped() {
    assert_eq!(sanitize_filename("Explain recursion", 50), "explainrecursion");
    assert_eq!(sanitize_filename("Hello, World!", 50), "helloworld");
    assert_eq!(sanitize_filename("a.b-c_d", 50), "a.b-cd");
    assert_eq!(sanitize_filename("tab\there\nnew", 50), "tabherenew");
    assert_eq!(sanitize_filename("What is 2+2?", 50), "whatis22");
}

#[test]
fn query_beyond_ascii_keeps_its_letters() {
    assert_eq!(sanitize_filename("Ünï Códe", 50), "ünïcóde");
    assert_eq!(sanitize_filename("日本語 の 質問", 50), "日本語の質問");
}

#[test]
fn empty_query_is_unnamed() {
    assert_eq!(sanitize_filename("", 50), "unnamed");
    assert_eq!(sanitize_filename("   ", 50), "unnamed");
    assert_eq!(sanitize_filename("?!_/", 50), "unnamed");
    assert_eq!(sanitize_filename("", 0), "unnamed");
    assert_eq!(sanitize_filename("", 3), "unnamed");
}

#[test]
fn long_query_is_cut_to_the_limit() {
    let long = "a".repeat(60);
    assert_eq!(sanitize_filename(&long, 50), "a".repeat(50));
    let exact = "b".repeat(50);
    assert_eq!(sanitize_filename(&exact, 50), exact);
    let spaced = "ab ".repeat(40);
    assert_eq!(sanitize_filename(&spaced, 50), "ab".repeat(25));
    assert_eq!(sanitize_filename("abcdef", 3), "abc");
    assert_eq!(sanitize_filename("abc", 0), "");
}

#[test]
fn cut_counts_characters_not_bytes() {
    let long = "é".repeat(60);
    let name = sanitize_filename(&long, 50);
    assert_eq!(name.chars().count(), 50);
    assert_eq!(name, "é".repeat(50));
    let short = "é".repeat(30);
    assert_eq!(sanitize_filename(&short, 50), short);
}

#[test]
fn lowered_text_is_not_lowercased_again() {
    assert_eq!(sanitize_lowered("abc def", 50), "abcdef");
    assert_eq!(sanitize_lowered("ABC", 50), "ABC");
    assert_eq!(sanitize_lowered("", 50), "unnamed");
}

#[test]
fn stem_joins_timestamp_position_and_query() {
    assert_eq!(
        build_base_name("Jan 5, 2024, 10:32:15 PM UTC", 0, "Explain recursion"),
        "Jan_5__2024__10_32_15_PM_UTC_0_explainrecursion"
    );
    assert_eq!(build_base_name("Unknown_Time", 12, ""), "Unknown_Time_12_unnamed");
    assert_eq!(MAX_QUERY_LENGTH, 50);
    let long = "x".repeat(80);
    assert_eq!(build_base_name("t", 3, &long), format!("t_3_{}", "x".repeat(50)));
}
