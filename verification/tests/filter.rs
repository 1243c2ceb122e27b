use ai_guardrails::error::GuardrailError;
use ai_guardrails::filter::{
    AiGuardrailsFilter, BodyAccess, BodyMode, BodyStep, PhaseConfig, ResponseStep,
};
use ai_guardrails::json::Json;
use ai_guardrails::providers::GuardResult;
use ai_guardrails::verdict::{FilterAction, Rejection};
use bytes::Bytes;
use praxis_filter::FilterResultSet;

const BUFFERED: BodyMode = BodyMode::StreamBuffer { max_bytes: Some(1_048_576) };

fn filter(request: bool, response: bool) -> AiGuardrailsFilter {
    AiGuardrailsFilter::new(PhaseConfig { request, response })
}

fn body(text: &str) -> Option<Bytes> {
    Some(Bytes::copy_from_slice(text.as_bytes()))
}

fn passes(outcome: Result<BodyStep, GuardrailError>) -> bool {
    matches!(outcome, Ok(BodyStep::Continue))
}

#[test]
fn name_is_that_of_the_configuration() {
    assert_eq!(filter(true, true).name(), "ai_guardrails");
}

#[test]
fn bodies_are_declared() {
    assert_eq!(filter(true, false).on_request(), FilterAction::Continue);
    assert_eq!(filter(false, false).request_body_access(), BodyAccess::ReadWrite);
    assert_eq!(filter(false, false).request_body_mode(), BUFFERED);
    assert_eq!(filter(true, true).response_body_access(), BodyAccess::ReadWrite);
    assert_eq!(filter(true, false).response_body_access(), BodyAccess::NoAccess);
    assert_eq!(filter(true, true).response_body_mode(), BodyMode::Stream);
}

#[test]
fn responses_are_buffered_unless_they_are_event_streams() {
    let start = filter(false, true).on_response(Some(b"application/json"));
    assert_eq!(start.body_mode, Some(BUFFERED));
    assert_eq!(start.action, FilterAction::Continue);
    assert_eq!(filter(false, true).on_response(None).body_mode, Some(BUFFERED));
    assert_eq!(filter(false, true).on_response(Some(b"text/event-stream; charset=utf-8")).body_mode, None);
    assert_eq!(filter(false, true).on_response(Some(b"text/event-stream; \xff")).body_mode, Some(BUFFERED));
    assert_eq!(filter(true, false).on_response(Some(b"application/json")).body_mode, None);
}

#[test]
fn complete_requests_are_evaluated() {
    let request = body(r#"{"messages":[{"role":"user","content":"Hello"}]}"#);
    match filter(true, false).on_request_body(&request, true) {
        Ok(BodyStep::Evaluate(messages)) => {
            assert_eq!(messages, vec![Json::parse(br#"{"role":"user","content":"Hello"}"#).unwrap()])
        }
        other => panic!("not evaluated: {other:?}"),
    }
    assert!(passes(filter(true, false).on_request_body(&request, false)));
    assert!(passes(filter(false, true).on_request_body(&request, true)));
    assert!(passes(filter(true, true).on_request_body(&None, true)));
    assert!(passes(filter(true, true).on_request_body(&body(""), true)));
}

#[test]
fn unrecognized_requests_are_refused() {
    for text in ["not json at all", r#"{"model":"test"}"#, r#"{"messages":"hello"}"#] {
        assert!(filter(true, false).on_request_body(&body(text), true).is_err());
    }
}

#[test]
fn complete_buffered_responses_are_evaluated() {
    let text = r#"{"choices":[{"message":{"content":"Hello"}}]}"#;
    let mut response = body(text);
    match filter(false, true).on_response_body(BUFFERED, &mut response, true) {
        ResponseStep::Evaluate(messages) => {
            assert_eq!(messages, vec![Json::parse(br#"{"content":"Hello"}"#).unwrap()])
        }
        other => panic!("not evaluated: {other:?}"),
    }
    assert_eq!(response, body(text));
}

#[test]
fn other_responses_are_let_pass() {
    let text = r#"{"choices":[{"message":{"content":"Hello"}}]}"#;
    let limited = BodyMode::SizeLimit { max_bytes: 10 };
    let cases = vec![
        (filter(false, true), BUFFERED, body(text), false, false),
        (filter(true, false), BUFFERED, body(text), true, false),
        (filter(true, false), BodyMode::Stream, body(text), true, false),
        (filter(false, true), BodyMode::Stream, body(text), true, true),
        (filter(false, true), BodyMode::Stream, None, true, true),
        (filter(false, true), limited, body(text), true, true),
        (filter(false, true), BUFFERED, None, true, false),
        (filter(false, true), BUFFERED, body(""), true, false),
    ];
    for (rules, mode, content, end_of_stream, unbuffered) in cases {
        let mut response = content.clone();
        let step = rules.on_response_body(mode, &mut response, end_of_stream);
        match step {
            ResponseStep::Continue => assert!(!unbuffered),
            ResponseStep::Unbuffered => assert!(unbuffered),
            other => panic!("not let pass: {other:?}"),
        }
        assert_eq!(response, content);
    }
}

#[test]
fn unrecognized_responses_are_replaced_with_an_error() {
    let mut response = body(&"x".repeat(512));
    let step = filter(false, true).on_response_body(BUFFERED, &mut response, true);
    match step {
        ResponseStep::Replaced(GuardrailError::InvalidJson { detail, .. }) => {
            assert_eq!(detail, "expected value at line 1 column 1")
        }
        other => panic!("not replaced: {other:?}"),
    }
    let expected = r#"{"error":{"code":"evaluation_failed","message":"Guardrail evaluation failed: ai_guardrails: response body is not valid JSON: expected value at line 1 column 1","type":"guardrail_error"}}"#;
    assert_eq!(response, body(&format!("{expected:<512}")));
}

#[test]
fn verdict_on_a_request_is_enforced() {
    let mut results = FilterResultSet::new();
    let mut request = body("{}");
    assert_eq!(
        filter(true, false).on_request_verdict(
            &mut results,
            &mut request,
            GuardResult::Block { reason: "no".to_owned() }
        ),
        Ok(FilterAction::Reject(Rejection { status: 403, body: "no".to_owned() }))
    );
    assert_eq!(results.get("status"), Some("blocked"));
}

#[test]
fn evaluation_of_a_request_is_enforced() {
    let mut results = FilterResultSet::new();
    let mut request = body(r#"{"messages":[{"role":"user","content":"secret"}],"max_tokens":10}"#);
    assert_eq!(
        filter(true, false).on_request_evaluation(
            &mut results,
            &mut request,
            Ok(GuardResult::Redact { modified_text: "***".to_owned(), reason: "pii".to_owned() })
        ),
        Ok(FilterAction::Continue)
    );
    assert_eq!(request, body(r#"{"max_tokens":10,"messages":[{"content":"***","role":"user"}]}"#));
    assert_eq!(results.get("status"), Some("redacted"));
}

#[test]
fn failed_evaluation_of_a_request_refuses_it() {
    let text = r#"{"messages":[{"role":"user","content":"Hello"}]}"#;
    let mut results = FilterResultSet::new();
    let mut request = body(text);
    assert_eq!(
        filter(true, false).on_request_evaluation(&mut results, &mut request, Err("provider down".to_owned())),
        Err(GuardrailError::Provider { detail: "provider down".to_owned() })
    );
    assert_eq!(request, body(text));
    assert!(results.is_empty());
}

#[test]
fn verdict_on_a_response_is_enforced() {
    let text = r#"{"choices":[{"message":{"content":"My SSN is 123-45-6789"}}]}"#;
    let mut results = FilterResultSet::new();
    let mut response = body(text);
    assert_eq!(
        filter(false, true).on_response_evaluation(
            &mut results,
            &mut response,
            Ok(GuardResult::Redact { modified_text: "My SSN is [REDACTED]".to_owned(), reason: "pii".to_owned() })
        ),
        Ok(FilterAction::Continue)
    );
    let expected = r#"{"choices":[{"message":{"content":"My SSN is [REDACTED]"}}]} "#;
    assert_eq!(response, body(expected));
    assert_eq!(results.get("status"), Some("redacted"));
}

#[test]
fn failed_evaluation_of_a_response_is_told() {
    let mut results = FilterResultSet::new();
    let mut response = body(&"x".repeat(512));
    assert_eq!(
        filter(false, true).on_response_evaluation(&mut results, &mut response, Err("provider down".to_owned())),
        Ok(FilterAction::Continue)
    );
    let expected = r#"{"error":{"code":"evaluation_failed","message":"Guardrail evaluation failed: provider down","type":"guardrail_error"}}"#;
    assert_eq!(response, body(&format!("{expected:<512}")));
    assert!(results.is_empty());
}
