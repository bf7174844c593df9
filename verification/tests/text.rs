use faceauth::messages::{Field, Message};
use faceauth::text::{
    concat2, decimal_text, has, has_prefix, joined, number_in, replaced, same_text, split_lines,
    split_words, trimmed, without_prefix,
};

#[test]
fn trimming() {
    assert_eq!(trimmed(" \t\u{a0}a b\u{3000}\n"), "a b");
    assert_eq!(trimmed(" \n"), "");
    assert_eq!(trimmed(""), "");
}

#[test]
fn numbers() {
    assert_eq!(number_in("0"), Some(0));
    assert_eq!(number_in("+7"), Some(7));
    assert_eq!(number_in("4294967295"), Some(4294967295));
    assert_eq!(number_in("4294967296"), None);
    assert_eq!(number_in("99999999999999999999999999"), None);
    assert_eq!(number_in("-1"), None);
    assert_eq!(number_in("+"), None);
    assert_eq!(number_in(""), None);
    assert_eq!(number_in(" 1"), None);
    assert_eq!(decimal_text(u64::MAX), "18446744073709551615");
    assert_eq!(decimal_text(0), "0");
    assert_eq!(number_in(&decimal_text(1234567)), Some(1234567));
}

#[test]
fn searching() {
    assert!(has("abc", "bc"));
    assert!(has("abc", ""));
    assert!(!has("abc", "ac"));
    assert!(has_prefix("abc", "ab"));
    assert!(!has_prefix("a", "ab"));
    assert_eq!(without_prefix("video3", "video"), Some("3".to_string()));
    assert_eq!(without_prefix("vide", "video"), None);
    assert!(same_text("a", "a"));
    assert!(!same_text("a", "ab"));
}

#[test]
fn replacing() {
    assert_eq!(replaced("a{x}b{x}", "{x}", "{x}y"), "a{x}yb{x}y");
    assert_eq!(replaced("aaa", "aa", "b"), "ba");
    assert_eq!(replaced("", "x", "y"), "");
}

#[test]
fn splitting_and_joining() {
    assert_eq!(split_lines("a\r\nb\n\nc"), vec!["a", "b", "", "c"]);
    assert_eq!(split_lines("a\n"), vec!["a"]);
    assert!(split_lines("").is_empty());
    assert_eq!(split_words("  a\tb  c "), vec!["a", "b", "c"]);
    assert!(split_words(" \n").is_empty());
    let parts = vec!["a".to_string(), "b".to_string(), "c".to_string()];
    assert_eq!(joined(&parts, ", "), "a, b, c");
    assert_eq!(joined(&vec![], ", "), "");
    assert_eq!(concat2("a", "b"), "ab");
}

#[test]
fn messages_are_filled() {
    let m = Message::plain("{user} at {place}, {user}").with("{user}", "eve").with("{place}", "x");
    assert_eq!(m.template, "{user} at {place}, {user}");
    assert_eq!(m.fill(m.template), "eve at x, eve");
    assert_eq!(m.fill("bei {place}: {user}"), "bei x: eve");
    assert_eq!(m.fill(""), "");
    // Placeholders are replaced one after another.
    let m = Message::plain("{a}").with("{a}", "{b}").with("{b}", "c");
    assert_eq!(m.fill("{a}"), "c");
    assert_eq!(Message::plain("no camera devices found").fill("keine Kamera"), "keine Kamera");
    let odd = Message {
        template: "x",
        fields: vec![Field { placeholder: "", value: "y".to_string() }],
    };
    assert_eq!(odd.fill("x"), "x");
}
