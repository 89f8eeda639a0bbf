use sniff::report::{skipped_warning, word_skipped};
use sniff::text::{
    contains_text, decimal_text, decode_utf16_lossy, eq_ignore_ascii_case, is_blank, join, parse_count,
};
use sniff::types::PatternInfo;

#[test]
fn decimal_notation() {
    assert_eq!(decimal_text(0), "0");
    assert_eq!(decimal_text(7), "7");
    assert_eq!(decimal_text(10), "10");
    assert_eq!(decimal_text(1_002_030), "1002030");
    assert_eq!(decimal_text(u64::MAX), "18446744073709551615");
}

#[test]
fn counts_are_grouped_by_threes() {
    let mut pattern = PatternInfo {
        id: 3,
        name: "Drums".to_owned(),
        note_count: 1234,
        bpm_change_count: 0,
    };
    assert_eq!(pattern.display_name(), "Drums (1,234 notes)");
    pattern.note_count = 0;
    assert_eq!(pattern.display_name(), "Drums (0 notes)");
    pattern.note_count = 999;
    assert_eq!(pattern.display_name(), "Drums (999 notes)");
    pattern.note_count = 1000;
    assert_eq!(pattern.display_name(), "Drums (1,000 notes)");
    pattern.note_count = 40_000_012;
    assert_eq!(pattern.display_name(), "Drums (40,000,012 notes)");
}

#[test]
fn grouped_counts_are_read_back() {
    assert_eq!(parse_count("0"), Some(0));
    assert_eq!(parse_count("1,234"), Some(1234));
    assert_eq!(parse_count("18,446,744,073,709,551,615"), Some(u64::MAX));
    assert_eq!(parse_count("18,446,744,073,709,551,616"), None);
    assert_eq!(parse_count("+12"), Some(12));
    assert_eq!(parse_count("+"), None);
    assert_eq!(parse_count(","), None);
    assert_eq!(parse_count(""), None);
    assert_eq!(parse_count("12a"), None);
    assert_eq!(parse_count("-1"), None);
}

#[test]
fn blank_texts() {
    assert!(is_blank(""));
    assert!(is_blank(" \t\n\u{a0}\u{2003}\u{3000}"));
    assert!(!is_blank(" x "));
    assert!(!is_blank("\u{200b}"));
}

#[test]
fn searching_a_text() {
    assert!(contains_text("my easy song", "easy"));
    assert!(contains_text("easy", "easy"));
    assert!(contains_text("abc", ""));
    assert!(!contains_text("eas", "easy"));
    assert!(!contains_text("ea sy", "easy"));
    assert!(contains_text("eeasy", "easy"));
}

#[test]
fn ascii_case_is_ignored() {
    assert!(eq_ignore_ascii_case("JSON", "json"));
    assert!(eq_ignore_ascii_case("jSoN", "JsOn"));
    assert!(!eq_ignore_ascii_case("jsonx", "json"));
    assert!(!eq_ignore_ascii_case("\u{c4}", "\u{e4}"));
}

#[test]
fn joining_texts() {
    assert_eq!(join(&vec![], ", "), "");
    assert_eq!(join(&vec!["a".to_owned()], ", "), "a");
    assert_eq!(join(&vec!["a".to_owned(), "b".to_owned(), "c".to_owned()], ", "), "a, b, c");
}

#[test]
fn utf16_with_surrogates() {
    assert_eq!(decode_utf16_lossy(&vec![0x48, 0x69]), "Hi");
    assert_eq!(decode_utf16_lossy(&vec![0xd83c, 0xdfb5]), "\u{1f3b5}");
    assert_eq!(decode_utf16_lossy(&vec![0x41, 0xd83c]), "A\u{fffd}");
    assert_eq!(decode_utf16_lossy(&vec![0xdfb5, 0x41]), "\u{fffd}A");
    assert_eq!(decode_utf16_lossy(&vec![0xd83c, 0xd83c, 0xdfb5]), "\u{fffd}\u{1f3b5}");
    let mixed: Vec<u16> = vec![0xd800, 0x20, 0xdbff, 0xdfff, 0xdc00, 0xffff];
    assert_eq!(decode_utf16_lossy(&mixed), String::from_utf16_lossy(&mixed));
}

#[test]
fn skipped_inputs_are_listed_with_the_quoted_name() {
    assert_eq!(skipped_warning(&vec![], "x"), "");
    assert_eq!(
        skipped_warning(&vec!["b.flp".to_owned()], "Lead \"A\""),
        " Warning: 1 file skipped (no pattern named \"Lead \\\"A\\\"\"): b.flp."
    );
    assert_eq!(
        skipped_warning(&vec!["b.flp".to_owned(), "c.flp".to_owned()], "Lead"),
        " Warning: 2 files skipped (no pattern named \"Lead\"): b.flp, c.flp."
    );
    assert_eq!(
        word_skipped(&vec!["b.flp".to_owned()], "<n>"),
        " Warning: 1 file skipped (no pattern named <n>): b.flp."
    );
}
