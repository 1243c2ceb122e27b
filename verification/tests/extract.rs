use ai_guardrails::error::GuardrailError;
use ai_guardrails::extract::{
    extract_messages, extract_messages_from, extract_response_messages, extract_response_messages_from,
};
use ai_guardrails::json::Json;
use ai_guardrails::providers::GuardPhase;
use bytes::Bytes;

fn bytes(text: &'static str) -> Bytes {
    Bytes::from_static(text.as_bytes())
}

fn parse(text: &str) -> Json {
    Json::parse(text.as_bytes()).unwrap()
}

#[test]
fn messages_of_a_request_are_returned() {
    let messages = extract_messages(&bytes(r#"{"model":"m","messages":[{"role":"user","content":"hi"},7]}"#));
    assert_eq!(messages, Ok(vec![parse(r#"{"role":"user","content":"hi"}"#), parse("7")]));
}

#[test]
fn no_messages_at_all_are_recognized() {
    assert_eq!(extract_messages(&bytes(r#"{"messages":[]}"#)), Ok(Vec::new()));
}

#[test]
fn request_that_is_not_json_is_refused() {
    assert_eq!(
        extract_messages(&bytes("not json at all")),
        Err(GuardrailError::InvalidJson {
            phase: GuardPhase::Request,
            detail: "expected ident at line 1 column 2".to_owned(),
        })
    );
}

#[test]
fn request_without_messages_is_refused() {
    assert_eq!(extract_messages(&bytes(r#"{"model":"test"}"#)), Err(GuardrailError::NoMessages));
    assert_eq!(extract_messages(&bytes(r#"{"messages":"hello"}"#)), Err(GuardrailError::NoMessages));
    assert_eq!(extract_messages(&bytes("[1]")), Err(GuardrailError::NoMessages));
    assert_eq!(extract_messages_from(Json::Null), Err(GuardrailError::NoMessages));
}

#[test]
fn messages_of_a_response_are_returned() {
    let messages = extract_response_messages(&bytes(
        r#"{"choices":[{"message":{"content":"a"}},{"index":1,"message":null}]}"#,
    ));
    assert_eq!(messages, Ok(vec![parse(r#"{"content":"a"}"#), Json::Null]));
}

#[test]
fn response_without_choices_is_refused() {
    assert_eq!(extract_response_messages(&bytes("{}")), Err(GuardrailError::NoChoices));
    assert_eq!(extract_response_messages(&bytes(r#"{"choices":{}}"#)), Err(GuardrailError::NoChoices));
    assert_eq!(extract_response_messages(&bytes(r#"{"choices":[]}"#)), Err(GuardrailError::NoChoices));
    assert_eq!(extract_response_messages(&bytes(r#"{"choices":[{},1]}"#)), Err(GuardrailError::NoChoices));
    assert_eq!(extract_response_messages_from(parse("3")), Err(GuardrailError::NoChoices));
}

#[test]
fn response_with_a_choice_without_message_is_refused() {
    assert_eq!(
        extract_response_messages(&bytes(r#"{"choices":[{"message":1},{},{"message":2}]}"#)),
        Err(GuardrailError::IncompleteChoices { choices: 3, messages: 2 })
    );
}

#[test]
fn response_that_is_not_json_is_refused() {
    assert_eq!(
        extract_response_messages(&bytes("xxxx")),
        Err(GuardrailError::InvalidJson {
            phase: GuardPhase::Response,
            detail: "expected value at line 1 column 1".to_owned(),
        })
    );
}
