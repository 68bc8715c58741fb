use tord::text::{decimal_string, same_text, trimmed_end};

#[test]
fn decimal_text() {
    assert_eq!(decimal_string(0), "0");
    assert_eq!(decimal_string(7), "7");
    assert_eq!(decimal_string(10), "10");
    assert_eq!(decimal_string(9050), "9050");
    assert_eq!(decimal_string(u64::MAX), u64::MAX.to_string());
}

#[test]
fn trim_end_strips_unicode_whitespace() {
    for s in ["", "abc", "abc \n\t", "  a b  ", "x\u{a0}\u{3000}\u{2028}", "\u{85}\u{1680}", "é\u{200a} ", "a\u{200b}"] {
        assert_eq!(trimmed_end(s), s.trim_end(), "{s:?}");
    }
    for c in '\0'..='\u{3001}' {
        let s = format!("a{c}");
        assert_eq!(trimmed_end(&s), s.trim_end(), "{:x}", c as u32);
    }
}

#[test]
fn same_text_compares_characters() {
    assert!(same_text("status", "status"));
    assert!(!same_text("status", "Status"));
    assert!(!same_text("status", "statu"));
    assert!(same_text("", ""));
}
