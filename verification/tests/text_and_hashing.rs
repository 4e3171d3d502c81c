use lnx_core::hashing::{hash_name, shadow_field_name, shadow_field_of};
use lnx_core::text::{
    chars_of, contains_text, decimal_string, ends_with, is_whitespace, parse_decimal, same_text,
    split_words, starts_with, string_of,
};

#[test]
fn decimal_renders_zero_and_max() {
    assert_eq!(decimal_string(0), "0");
    assert_eq!(decimal_string(10), "10");
    assert_eq!(decimal_string(u64::MAX), "18446744073709551615");
}

#[test]
fn parse_decimal_accepts_only_canonical_numerals() {
    let cases: Vec<(&str, Option<u64>)> = vec![
        ("0", Some(0)),
        ("7", Some(7)),
        ("18446744073709551615", Some(u64::MAX)),
        ("18446744073709551616", None),
        ("007", None),
        ("", None),
        ("+7", None),
        ("-7", None),
        ("7a", None),
    ];
    for (text, expected) in cases {
        let chars = chars_of(text);
        assert_eq!(parse_decimal(&chars, 0, chars.len()), expected, "{}", text);
    }
}

#[test]
fn parse_decimal_reads_a_range() {
    let chars = chars_of("ab42cd");
    assert_eq!(parse_decimal(&chars, 2, 4), Some(42));
    assert_eq!(parse_decimal(&chars, 2, 2), None);
}

#[test]
fn chars_round_trip_through_strings() {
    let chars = chars_of("héllo wörld");
    assert_eq!(chars.len(), 11);
    assert_eq!(string_of(&chars), "héllo wörld");
}

#[test]
fn split_words_skips_runs_of_whitespace() {
    let chars = chars_of("  rust \t programming\n");
    assert_eq!(split_words(&chars), vec!["rust".to_string(), "programming".to_string()]);
    assert!(split_words(&chars_of("")).is_empty());
    assert!(split_words(&chars_of(" \u{3000}\t")).is_empty());
    assert_eq!(split_words(&chars_of("one")), vec!["one".to_string()]);
    assert_eq!(split_words(&chars_of("a\u{a0}b")), vec!["a".to_string(), "b".to_string()]);
}

#[test]
fn whitespace_is_what_std_calls_whitespace() {
    let mut c = 0u32;
    while c < 0x4000 {
        if let Some(ch) = char::from_u32(c) {
            assert_eq!(is_whitespace(ch), ch.is_whitespace(), "U+{:04X}", c);
        }
        c += 1;
    }
}

#[test]
fn prefixes_and_suffixes() {
    let s = chars_of("/indexes/books/search");
    assert!(starts_with(&s, &chars_of("/indexes")));
    assert!(!starts_with(&s, &chars_of("/auth")));
    assert!(ends_with(&s, &chars_of("/search")));
    assert!(!ends_with(&s, &chars_of("/stopwords")));
    assert!(starts_with(&s, &chars_of("")));
    assert!(!starts_with(&chars_of("/a"), &chars_of("/ab")));
}

#[test]
fn same_text_compares_characters() {
    assert!(same_text("título", "título"));
    assert!(!same_text("title", "Title"));
    assert!(!same_text("title", "titles"));
    assert!(contains_text(&vec!["for".to_string(), "the".to_string()], "the"));
    assert!(!contains_text(&vec!["for".to_string()], "the"));
}

#[test]
fn stable_hash_is_crc32_of_the_utf8_bytes() {
    assert_eq!(hash_name("123456789"), 0xCBF4_3926);
    assert_eq!(hash_name(""), 0);
    assert_eq!(hash_name("books"), hash_name("books"));
    assert_ne!(hash_name("books"), hash_name("book"));
}

#[test]
fn shadow_field_names_are_underscore_and_decimal_hash() {
    assert_eq!(shadow_field_name(0), "_0");
    assert_eq!(shadow_field_name(u32::MAX), "_4294967295");
    assert_eq!(shadow_field_of("123456789"), "_3421780262");
}
