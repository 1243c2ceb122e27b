use ai_guardrails::media::is_event_stream;

#[test]
fn event_streams_are_told() {
    assert!(is_event_stream(Some(b"text/event-stream")));
    assert!(is_event_stream(Some(b"Text/Event-STREAM; charset=utf-8")));
    assert!(is_event_stream(Some(b" \ttext/event-stream \t;")));
}

#[test]
fn other_types_are_not() {
    assert!(!is_event_stream(None));
    assert!(!is_event_stream(Some(b"")));
    assert!(!is_event_stream(Some(b"application/json")));
    assert!(!is_event_stream(Some(b"text/event-streams")));
    assert!(!is_event_stream(Some(b"application/json; text/event-stream")));
    assert!(!is_event_stream(Some(b"text /event-stream")));
}

#[test]
fn types_that_are_no_text_are_not() {
    assert!(is_event_stream(Some(b"text/event-stream; x=~")));
    assert!(!is_event_stream(Some(b"text/event-stream; x=\x7f")));
    assert!(!is_event_stream(Some(b"text/event-stream; x=\x80")));
    assert!(!is_event_stream(Some("text/event-stream; x=\u{e9}".as_bytes())));
    assert!(!is_event_stream(Some(b"text/event-stream\r")));
}
