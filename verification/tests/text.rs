use eink_daemon::text::{
    chars_of, equals_ignoring_ascii_case, holds_at, position, push_decimal, same_text, string_of,
    strip_prefixes,
};

#[test]
fn characters() {
    assert_eq!(chars_of("a\u{e9}\u{1f389}"), vec!['a', '\u{e9}', '\u{1f389}']);
    assert_eq!(string_of(&['x', '\u{e9}']), "x\u{e9}");
    assert!(same_text("a", "a"));
    assert!(!same_text("a", "A"));
}

#[test]
fn searching() {
    let s = chars_of("abcabc");
    assert!(holds_at(&s, &['c', 'a'], 2));
    assert!(!holds_at(&s, &['c', 'a'], 5));
    assert_eq!(position(&s, &['c']), Some(2));
    assert_eq!(position(&s, &['x']), None);
    assert_eq!(position(&s, &[]), Some(0));
    assert_eq!(position(&[], &['x']), None);
}

#[test]
fn prefixes() {
    let s = chars_of("ababa");
    assert_eq!(strip_prefixes(&s, &['a', 'b']), &['a']);
    assert_eq!(strip_prefixes(&s, &['b']), s.as_slice());
}

#[test]
fn decimals() {
    for n in [0, 9, 10, 99, 100, 1_234_567_890, u64::MAX] {
        let mut out = "n".to_string();
        push_decimal(&mut out, n);
        assert_eq!(out, format!("n{}", n));
    }
}

#[test]
fn ignoring_case() {
    assert!(equals_ignoring_ascii_case("AbZ1", "aBz1"));
    assert!(!equals_ignoring_ascii_case("a", "ab"));
    assert!(!equals_ignoring_ascii_case("[", "{"));
    assert!(!equals_ignoring_ascii_case("@", "`"));
}
