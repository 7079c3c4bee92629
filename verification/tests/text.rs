use phira_mp::text::{decimal_text, join_texts, same_text, score_string, trim_text};

#[test]
fn decimals_are_written_without_leading_zeros() {
    for n in [0, 7, 10, 99, 100, 12345, u64::MAX] {
        assert_eq!(decimal_text(n), format!("{n}"));
    }
}

#[test]
fn scores_fill_up_to_seven_characters() {
    for n in [0, 7, 999999, 1000000, 12345678, -1, -12, -123456, -1234567, i32::MAX, i32::MIN] {
        assert_eq!(score_string(n), format!("{n:07}"));
    }
}

#[test]
fn texts_are_joined_with_the_mark_between_them() {
    assert_eq!(join_texts(&Vec::new(), ", "), "");
    assert_eq!(join_texts(&vec!["a".to_string()], ", "), "a");
    assert_eq!(join_texts(&vec!["a".to_string(), "".to_string(), "c".to_string()], ", "), "a, , c");
}

#[test]
fn blanks_are_trimmed_off_both_ends_only() {
    for s in ["", " ", "\t yes\r\n", "a b", "\u{3000}房间\u{a0}\u{85}", "\u{200b}x", "\u{2003}\u{1680}y z\u{205f}"] {
        assert_eq!(trim_text(s), s.trim());
    }
}

#[test]
fn texts_are_compared_whole() {
    assert!(same_text("public", "public"));
    assert!(!same_text("public", "publi"));
    assert!(!same_text("", "x"));
}
