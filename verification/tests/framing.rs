use ai_guardrails::framing::{fit_text, fit_to_committed_length};
use bytes::Bytes;

fn body(text: &'static str) -> Option<Bytes> {
    Some(Bytes::from_static(text.as_bytes()))
}

#[test]
fn equal_length_is_kept() {
    assert_eq!(fit_to_committed_length("abcd".to_owned(), &body("1234")), Bytes::from_static(b"abcd"));
}

#[test]
fn shorter_text_is_padded_with_spaces() {
    assert_eq!(fit_to_committed_length("ab".to_owned(), &body("12345")), Bytes::from_static(b"ab   "));
}

#[test]
fn longer_text_is_truncated() {
    assert_eq!(fit_to_committed_length("abcdef".to_owned(), &body("123")), Bytes::from_static(b"abc"));
}

#[test]
fn missing_body_leaves_no_room() {
    assert_eq!(fit_to_committed_length("abc".to_owned(), &None), Bytes::new());
}

#[test]
fn characters_are_not_split() {
    assert_eq!(fit_text("a\u{e9}z", 2), b"a ".to_vec());
    assert_eq!(fit_text("\u{20ac}", 1), b" ".to_vec());
    assert_eq!(fit_text("\u{20ac}", 2), b"  ".to_vec());
    assert_eq!(fit_text("x\u{1f600}y", 4), b"x   ".to_vec());
    assert_eq!(fit_text("x\u{1f600}y", 5), "x\u{1f600}".as_bytes().to_vec());
}

#[test]
fn fitted_text_is_valid_at_every_length() {
    let text = "a\u{e9}\u{20ac}\u{1f600}z";
    for length in 0..20 {
        let fit = fit_text(text, length);
        assert_eq!(fit.len(), length);
        assert!(std::str::from_utf8(&fit).is_ok());
    }
}
