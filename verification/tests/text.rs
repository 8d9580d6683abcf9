use mcpg_policy_cedar::text::{
    chars_of, find_char, is_blank, is_space_char, join, push_decimal, push_padded, same_text,
    starts_with, trim,
};

#[test]
fn white_space_is_that_of_unicode() {
    for n in 0..=0x10ffffu32 {
        if let Some(c) = char::from_u32(n) {
            assert_eq!(is_space_char(c), c.is_whitespace(), "{n:x}");
        }
    }
}

#[test]
fn trimming() {
    for s in ["", " ", "a", " a", "a ", "\t a b \n", "\u{a0}é\u{3000}", "\u{200b}"] {
        assert_eq!(trim(s), s.trim());
        assert_eq!(is_blank(s), s.trim().is_empty());
    }
}

#[test]
fn comparing() {
    assert!(same_text("é", "é"));
    assert!(!same_text("e", "é"));
    assert!(!same_text("a", "ab"));
    assert!(same_text("", ""));
    assert!(starts_with("cedar forbid: x", "cedar forbid:"));
    assert!(!starts_with("cedar", "cedar forbid:"));
    assert!(starts_with("x", ""));
}

#[test]
fn searching() {
    let chars = chars_of("a:b:");
    assert_eq!(chars, vec!['a', ':', 'b', ':']);
    assert_eq!(find_char(&chars, 0, ':'), 1);
    assert_eq!(find_char(&chars, 2, ':'), 3);
    assert_eq!(find_char(&chars, 4, ':'), 4);
    assert_eq!(find_char(&chars, 0, 'x'), 4);
}

#[test]
fn joining() {
    let parts: Vec<String> = ["a", "b", "c"].iter().map(|s| s.to_string()).collect();
    assert_eq!(join(&parts, ", "), "a, b, c");
    assert_eq!(join(&vec![], ", "), "");
    assert_eq!(join(&vec!["x".to_owned()], ", "), "x");
}

#[test]
fn numbers() {
    for n in [0, 9, 10, 99, 100, u64::MAX as u128, u128::MAX] {
        let mut out = "n=".to_owned();
        push_decimal(&mut out, n);
        assert_eq!(out, format!("n={n}"));
    }
    for n in [0, 7, 10, 999, 1000, 12345, u64::MAX] {
        let mut out = String::new();
        push_padded(&mut out, n, 4);
        assert_eq!(out, format!("{n:04}"));
    }
    let mut out = String::new();
    push_padded(&mut out, 5, 0);
    assert_eq!(out, "5");
}
