use lox_linein_bridge::text::{
    append_decimal, begins_with, copy_text, same_text, trim, trim_trailing,
};

#[test]
fn trimming_agrees_with_std() {
    let samples = ["", " ", "a", " a ", "\u{3000}a b\u{a0}", "\u{200b}a", "\n\t", "é \r\n"];
    for text in samples {
        assert_eq!(trim(text), text.trim());
    }
    for c in (0..=0x10FFFFu32).filter_map(char::from_u32) {
        let text = String::from(c);
        assert_eq!(trim(&text).is_empty(), c.is_whitespace(), "{:?}", c);
    }
}

#[test]
fn trailing_characters_are_removed() {
    for text in ["", ".", "a.", "a..", ".a", "a.b.", "é."] {
        assert_eq!(trim_trailing(text, '.'), text.trim_end_matches('.'));
    }
}

#[test]
fn texts_are_compared_by_their_characters() {
    assert!(same_text("", ""));
    assert!(same_text("é", "é"));
    assert!(!same_text("a", "A"));
    assert!(!same_text("a", "ab"));
    assert!(begins_with("éa", 'é'));
    assert!(!begins_with("ae", 'e'));
    assert!(!begins_with("", 'a'));
}

#[test]
fn absent_texts_stay_absent() {
    assert_eq!(copy_text(&None), None);
    assert_eq!(copy_text(&Some("x".to_string())), Some("x".to_string()));
}

#[test]
fn numbers_are_decimal() {
    for n in [0u64, 1, 9, 10, 11, 99, 100, 1_234_567_890, u64::MAX] {
        let mut out = String::from(":");
        append_decimal(&mut out, n);
        assert_eq!(out, format!(":{}", n));
    }
}
