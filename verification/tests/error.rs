use ai_guardrails::error::{decimal_text, GuardrailError};
use ai_guardrails::providers::GuardPhase;

#[test]
fn every_error_has_its_words() {
    let cases = vec![
        (
            GuardrailError::MissingBody { phase: GuardPhase::Request },
            "ai_guardrails: cannot redact a missing request body",
        ),
        (
            GuardrailError::InvalidJson { phase: GuardPhase::Response, detail: "why".to_owned() },
            "ai_guardrails: response body is not valid JSON: why",
        ),
        (
            GuardrailError::NoMessages,
            "ai_guardrails: request body does not contain recognizable messages",
        ),
        (
            GuardrailError::NoUserMessage,
            "ai_guardrails: cannot redact: no user message found",
        ),
        (
            GuardrailError::NoChoices,
            "ai_guardrails: response body does not contain recognizable choices",
        ),
        (
            GuardrailError::IncompleteChoices { choices: 12, messages: 10 },
            "ai_guardrails: 12 choices but only 10 contain a message field",
        ),
        (
            GuardrailError::NoAssistantMessage,
            "ai_guardrails: cannot redact: no assistant message found",
        ),
        (
            GuardrailError::MessageNotObject,
            "ai_guardrails: message is not a JSON object",
        ),
        (
            GuardrailError::Serialization { detail: "why".to_owned() },
            "ai_guardrails: failed to serialize redacted body: why",
        ),
        (GuardrailError::Provider { detail: "why".to_owned() }, "why"),
        (GuardrailError::Results { detail: "why".to_owned() }, "why"),
    ];
    for (error, words) in cases {
        assert_eq!(error.message(), words);
    }
}

#[test]
fn numbers_are_written_in_decimal() {
    for n in [0, 9, 10, 99, 100, 1_048_576, usize::MAX] {
        assert_eq!(decimal_text(n), format!("{n}"));
    }
}
