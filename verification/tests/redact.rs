use ai_guardrails::error::GuardrailError;
use ai_guardrails::json::Json;
use ai_guardrails::providers::GuardPhase;
use ai_guardrails::redact::{
    apply_request_redaction, apply_response_redaction, last_choice_with_message, last_message_with_role,
    parse_json_body, redact_request, redact_response, set_message_content,
};
use bytes::Bytes;

fn parse(text: &str) -> Json {
    Json::parse(text.as_bytes()).unwrap()
}

fn body(text: &'static str) -> Option<Bytes> {
    Some(Bytes::from_static(text.as_bytes()))
}

fn items(text: &str) -> Vec<Json> {
    match parse(text) {
        Json::Array(items) => items,
        other => panic!("not an array: {other:?}"),
    }
}

#[test]
fn last_user_message_is_redacted() {
    let mut request = body(
        r#"{"model":"test","messages":[{"role":"user","content":"first"},{"role":"user","content":"My SSN is 123-45-6789"},{"role":"system","content":"Be helpful"}]}"#,
    );
    assert_eq!(apply_request_redaction(&mut request, "My SSN is [REDACTED]".to_owned()), Ok(()));
    assert_eq!(
        request.unwrap(),
        Bytes::from_static(
            br#"{"messages":[{"content":"first","role":"user"},{"content":"My SSN is [REDACTED]","role":"user"},{"content":"Be helpful","role":"system"}],"model":"test"}"#
        )
    );
}

#[test]
fn content_is_added_where_there_is_none() {
    let request = redact_request(parse(r#"{"messages":[{"role":"user"}]}"#), "x".to_owned());
    assert_eq!(request.unwrap().render().unwrap(), r#"{"messages":[{"content":"x","role":"user"}]}"#);
}

#[test]
fn later_redaction_counts() {
    let request = r#"{"messages":[{"role":"user","content":"a"}],"n":1}"#;
    let once = redact_request(parse(request), "second".to_owned()).unwrap();
    let first = redact_request(parse(request), "first".to_owned()).unwrap();
    assert_eq!(redact_request(first, "second".to_owned()).unwrap(), once);
    let response = r#"{"choices":[{"message":{"content":"a"}}]}"#;
    let once = redact_response(parse(response), "second".to_owned()).unwrap();
    let first = redact_response(parse(response), "first".to_owned()).unwrap();
    assert_eq!(redact_response(first, "second".to_owned()).unwrap(), once);
}

#[test]
fn unredactable_requests_stay_as_they_are() {
    let cases = vec![
        ("oops", Err(GuardrailError::InvalidJson {
            phase: GuardPhase::Request,
            detail: "expected value at line 1 column 1".to_owned(),
        })),
        ("{}", Err(GuardrailError::NoMessages)),
        (r#"{"messages":{}}"#, Err(GuardrailError::NoMessages)),
        (r#"{"messages":[]}"#, Err(GuardrailError::NoUserMessage)),
        (r#"{"messages":["user",{"role":"assistant"},{"role":["user"]}]}"#, Err(GuardrailError::NoUserMessage)),
    ];
    for (text, outcome) in cases {
        let mut request = body(text);
        assert_eq!(apply_request_redaction(&mut request, "x".to_owned()), outcome);
        assert_eq!(request, body(text));
    }
    let mut missing = None;
    assert_eq!(
        apply_request_redaction(&mut missing, "x".to_owned()),
        Err(GuardrailError::MissingBody { phase: GuardPhase::Request })
    );
    assert_eq!(missing, None);
}

#[test]
fn last_choice_message_is_redacted_at_the_same_length() {
    let text = r#"{"choices":[{"message":{"content":"one"}},{"message":{"content":"My SSN is 123-45-6789"}},{"index":2}]}"#;
    let mut response = body(text);
    assert_eq!(apply_response_redaction(&mut response, "[REDACTED]".to_owned()), Ok(()));
    let expected =
        r#"{"choices":[{"message":{"content":"one"}},{"message":{"content":"[REDACTED]"}},{"index":2}]}"#;
    assert_eq!(response.unwrap(), Bytes::from(format!("{expected:<width$}", width = text.len())));
}

#[test]
fn longer_redaction_of_a_response_is_cut() {
    let text = r#"{"choices":[{"message":{"content":"a"}}]}"#;
    let mut response = body(text);
    assert_eq!(apply_response_redaction(&mut response, "a\u{20ac}\u{20ac}".to_owned()), Ok(()));
    assert_eq!(
        response.unwrap(),
        Bytes::from_static("{\"choices\":[{\"message\":{\"content\":\"a\u{20ac}  ".as_bytes())
    );
}

#[test]
fn unredactable_responses_stay_as_they_are() {
    let cases = vec![
        ("oops", Err(GuardrailError::InvalidJson {
            phase: GuardPhase::Response,
            detail: "expected value at line 1 column 1".to_owned(),
        })),
        ("{}", Err(GuardrailError::NoChoices)),
        (r#"{"choices":[{},3]}"#, Err(GuardrailError::NoAssistantMessage)),
        (r#"{"choices":[{"message":{}},{"message":"text"}]}"#, Err(GuardrailError::MessageNotObject)),
    ];
    for (text, outcome) in cases {
        let mut response = body(text);
        assert_eq!(apply_response_redaction(&mut response, "x".to_owned()), outcome);
        assert_eq!(response, body(text));
    }
    let mut missing = None;
    assert_eq!(
        apply_response_redaction(&mut missing, "x".to_owned()),
        Err(GuardrailError::MissingBody { phase: GuardPhase::Response })
    );
}

#[test]
fn searches_go_from_the_end() {
    let messages = items(r#"[{"role":"user"},{"role":"user"},{"role":"tool"},4]"#);
    assert_eq!(last_message_with_role(&messages, "user"), Some(1));
    assert_eq!(last_message_with_role(&messages, "tool"), Some(2));
    assert_eq!(last_message_with_role(&messages, "system"), None);
    let choices = items(r#"[{"message":1},{"message":null},{}]"#);
    assert_eq!(last_choice_with_message(&choices), Some(1));
    assert_eq!(last_choice_with_message(&items("[{},1]")), None);
}

#[test]
fn content_is_set_on_objects_only() {
    assert_eq!(
        set_message_content(parse(r#"{"content":[1],"name":"n"}"#), "t".to_owned()),
        Ok(parse(r#"{"content":"t","name":"n"}"#))
    );
    assert_eq!(set_message_content(Json::Null, "t".to_owned()), Err(GuardrailError::MessageNotObject));
}

#[test]
fn body_document_is_read() {
    assert_eq!(parse_json_body(&body("[true]"), GuardPhase::Request), Ok(parse("[true]")));
}

#[test]
fn masked_text_is_read_back() {
    let mut request = body(r#"{"messages":[{"role":"user","content":"secret"},{"role":"tool"}],"temperature":0.7}"#);
    assert_eq!(apply_request_redaction(&mut request, "a \"b\" \u{1f600}".to_owned()), Ok(()));
    let read = Json::parse(&request.unwrap()).unwrap();
    assert_eq!(
        read,
        parse("{\"messages\":[{\"content\":\"a \\\"b\\\" \u{1f600}\",\"role\":\"user\"},{\"role\":\"tool\"}],\"temperature\":0.7}")
    );
}
