use ai_guardrails::providers::{GuardPhase, GuardResult};

#[test]
fn guard_phase_display() {
    assert_eq!(GuardPhase::Request.to_string(), "request");
    assert_eq!(GuardPhase::Response.to_string(), "response");
}

#[test]
fn guard_phase_labels() {
    assert_eq!(GuardPhase::Request.label(), "request");
    assert_eq!(GuardPhase::Response.label(), "response");
}

#[test]
fn guard_result_status_labels() {
    assert_eq!(GuardResult::Pass.status_label(), "passed");
    assert_eq!(GuardResult::Block { reason: "test".into() }.status_label(), "blocked");
    assert_eq!(
        GuardResult::Redact {
            modified_text: "***".into(),
            reason: "pii".into()
        }
        .status_label(),
        "redacted"
    );
}
