use ai_guardrails::error::GuardrailError;
use ai_guardrails::json::Json;
use ai_guardrails::providers::{GuardPhase, GuardResult};
use ai_guardrails::verdict::{
    apply_redaction, enforce_block, record_verdict, replace_body_with_error, FilterAction, Rejection,
};
use bytes::Bytes;
use praxis_filter::FilterResultSet;

const REQUEST: &str = r#"{"messages":[{"role":"user","content":"secret"}]}"#;

fn body(text: &str) -> Option<Bytes> {
    Some(Bytes::copy_from_slice(text.as_bytes()))
}

fn padded(text: &str, length: usize) -> Option<Bytes> {
    body(&format!("{text:<length$}"))
}

fn redact(text: &str) -> GuardResult {
    GuardResult::Redact { modified_text: text.to_owned(), reason: "pii".to_owned() }
}

#[test]
fn passed_content_is_forwarded_unchanged() {
    for phase in [GuardPhase::Request, GuardPhase::Response] {
        let mut results = FilterResultSet::new();
        let mut content = body("anything");
        assert_eq!(
            record_verdict(&mut results, &mut content, GuardResult::Pass, phase),
            Ok(FilterAction::Continue)
        );
        assert_eq!(content, body("anything"));
        assert_eq!(results.get("status"), Some("passed"));
    }
}

#[test]
fn blocked_request_is_rejected_with_the_reason() {
    let mut results = FilterResultSet::new();
    let mut content = body(REQUEST);
    let outcome = record_verdict(
        &mut results,
        &mut content,
        GuardResult::Block { reason: "jailbreak".to_owned() },
        GuardPhase::Request,
    );
    assert_eq!(
        outcome,
        Ok(FilterAction::Reject(Rejection { status: 403, body: "jailbreak".to_owned() }))
    );
    assert_eq!(content, body(REQUEST));
    assert_eq!(results.get("status"), Some("blocked"));
}

#[test]
fn blocked_response_is_replaced_with_an_error() {
    let long = "x".repeat(300);
    let mut results = FilterResultSet::new();
    let mut content = body(&long);
    let outcome = record_verdict(
        &mut results,
        &mut content,
        GuardResult::Block { reason: "toxicity".to_owned() },
        GuardPhase::Response,
    );
    assert_eq!(outcome, Ok(FilterAction::Continue));
    let expected = r#"{"error":{"code":"content_blocked","message":"Response blocked by guardrails: toxicity","type":"guardrail_violation"}}"#;
    assert_eq!(content, padded(expected, 300));
    assert_eq!(Json::parse(&content.unwrap()), Json::parse(expected.as_bytes()));
    assert_eq!(results.get("status"), Some("blocked"));
}

#[test]
fn error_that_does_not_fit_is_cut() {
    let mut content = body("0123456789");
    assert_eq!(
        enforce_block(&mut content, "toxicity".to_owned(), GuardPhase::Response),
        FilterAction::Continue
    );
    assert_eq!(content, body(r#"{"error":{"#));
}

#[test]
fn redacted_request_is_forwarded() {
    let mut results = FilterResultSet::new();
    let mut content = body(REQUEST);
    let outcome = record_verdict(&mut results, &mut content, redact("***"), GuardPhase::Request);
    assert_eq!(outcome, Ok(FilterAction::Continue));
    assert_eq!(content, body(r#"{"messages":[{"content":"***","role":"user"}]}"#));
    assert_eq!(results.get("status"), Some("redacted"));
}

#[test]
fn unredactable_request_is_an_error() {
    let mut results = FilterResultSet::new();
    let mut content = body("{}");
    let outcome = record_verdict(&mut results, &mut content, redact("***"), GuardPhase::Request);
    assert_eq!(outcome, Err(GuardrailError::NoMessages));
    assert_eq!(content, body("{}"));
    assert_eq!(results.get("status"), Some("redacted"));
}

#[test]
fn redacted_response_keeps_its_length() {
    let text = r#"{"choices":[{"message":{"content":"secret words"}}]}"#;
    let mut content = body(text);
    assert_eq!(
        apply_redaction(&mut content, "***".to_owned(), GuardPhase::Response),
        Ok(FilterAction::Continue)
    );
    assert_eq!(content, padded(r#"{"choices":[{"message":{"content":"***"}}]}"#, text.len()));
}

#[test]
fn unredactable_response_is_replaced_with_an_error() {
    let text = format!("{:<400}", "{}");
    let mut content = body(&text);
    assert_eq!(
        apply_redaction(&mut content, "***".to_owned(), GuardPhase::Response),
        Ok(FilterAction::Continue)
    );
    assert_eq!(
        content,
        padded(
            r#"{"error":{"code":"evaluation_failed","message":"Guardrail redaction failed: ai_guardrails: response body does not contain recognizable choices","type":"guardrail_error"}}"#,
            400
        )
    );
}

#[test]
fn missing_response_body_becomes_empty() {
    let mut content = None;
    assert_eq!(
        enforce_block(&mut content, "r".to_owned(), GuardPhase::Response),
        FilterAction::Continue
    );
    assert_eq!(content, body(""));
}

#[test]
fn error_texts_are_escaped() {
    let mut content = body(&" ".repeat(60));
    replace_body_with_error(&mut content, "say \"no\"\n", "t", "c");
    assert_eq!(
        content,
        padded(r#"{"error":{"code":"c","message":"say \"no\"\n","type":"t"}}"#, 60)
    );
}

#[test]
fn full_result_set_is_an_error_and_nothing_is_done() {
    let mut results = FilterResultSet::new();
    for i in 0..128 {
        results.set(format!("key-{i}"), "v").unwrap();
    }
    let mut content = body(REQUEST);
    let outcome = record_verdict(&mut results, &mut content, redact("***"), GuardPhase::Request);
    assert_eq!(
        outcome,
        Err(GuardrailError::Results { detail: "result set is full (max 128 entries)".to_owned() })
    );
    assert_eq!(content, body(REQUEST));
    assert_eq!(results.get("status"), None);
}

#[test]
fn status_is_overwritten_in_a_full_result_set() {
    let mut results = FilterResultSet::new();
    results.set("status", "old").unwrap();
    for i in 0..127 {
        results.set(format!("key-{i}"), "v").unwrap();
    }
    let mut content = None;
    let outcome = record_verdict(&mut results, &mut content, GuardResult::Pass, GuardPhase::Response);
    assert_eq!(outcome, Ok(FilterAction::Continue));
    assert_eq!(results.get("status"), Some("passed"));
    assert_eq!(results.get("key-126"), Some("v"));
}
