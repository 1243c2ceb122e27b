//! Why a body cannot be evaluated or rewritten.
use vstd::prelude::*;

use crate::providers::GuardPhase;

verus! {

/// Why a body cannot be evaluated or rewritten.
#[derive(Debug, Clone, PartialEq, Eq)]
pub enum GuardrailError {
    /// There is no body to redact.
    MissingBody { phase: GuardPhase },
    /// The body is not JSON; the detail comes from the JSON reader.
    InvalidJson { phase: GuardPhase, detail: String },
    /// The request has no `messages` array.
    NoMessages,
    /// The request has no message from a user.
    NoUserMessage,
    /// The response has no `choices` array with a message in it.
    NoChoices,
    /// Some choices of the response have no message.
    IncompleteChoices { choices: usize, messages: usize },
    /// No choice of the response has a message to redact.
    NoAssistantMessage,
    /// The message to redact is not an object.
    MessageNotObject,
    /// The rewritten body cannot be written out.
    Serialization { detail: String },
    /// The provider has failed to evaluate a request; the detail is its own.
    Provider { detail: String },
    /// The verdict cannot be recorded.
    Results { detail: String },
}

/// An error, with its texts as characters.
#[verifier::ext_equal]
pub enum Failure {
    MissingBody { phase: GuardPhase },
    InvalidJson { phase: GuardPhase, detail: Seq<char> },
    NoMessages,
    NoUserMessage,
    NoChoices,
    IncompleteChoices { choices: nat, messages: nat },
    NoAssistantMessage,
    MessageNotObject,
    Serialization { detail: Seq<char> },
    Provider { detail: Seq<char> },
    Results { detail: Seq<char> },
}

impl View for GuardrailError {
    type V = Failure;

    open spec fn view(&self) -> Failure {
        match self {
            GuardrailError::MissingBody { phase } => Failure::MissingBody { phase: *phase },
            GuardrailError::InvalidJson { phase, detail } => Failure::InvalidJson {
                phase: *phase,
                detail: detail@,
            },
            GuardrailError::NoMessages => Failure::NoMessages,
            GuardrailError::NoUserMessage => Failure::NoUserMessage,
            GuardrailError::NoChoices => Failure::NoChoices,
            GuardrailError::IncompleteChoices { choices, messages } => Failure::IncompleteChoices {
                choices: *choices as nat,
                messages: *messages as nat,
            },
            GuardrailError::NoAssistantMessage => Failure::NoAssistantMessage,
            GuardrailError::MessageNotObject => Failure::MessageNotObject,
            GuardrailError::Serialization { detail } => Failure::Serialization { detail: detail@ },
            GuardrailError::Provider { detail } => Failure::Provider { detail: detail@ },
            GuardrailError::Results { detail } => Failure::Results { detail: detail@ },
        }
    }
}

/// A digit as a character.
pub open spec fn digit(n: nat) -> char {
    ('0' as u32 + n % 10) as char
}

/// A number in decimal notation.
pub open spec fn decimal(n: nat) -> Seq<char>
    decreases n,
{
    if n < 10 {
        seq![digit(n)]
    } else {
        decimal(n / 10).push(digit(n))
    }
}

impl Failure {
    /// The words in which the error is reported.
    pub open spec fn text(self) -> Seq<char> {
        match self {
            Failure::MissingBody { phase } => "ai_guardrails: cannot redact a missing "@
                + phase.name() + " body"@,
            Failure::InvalidJson { phase, detail } => "ai_guardrails: "@ + phase.name()
                + " body is not valid JSON: "@ + detail,
            Failure::NoMessages =>
                "ai_guardrails: request body does not contain recognizable messages"@,
            Failure::NoUserMessage => "ai_guardrails: cannot redact: no user message found"@,
            Failure::NoChoices =>
                "ai_guardrails: response body does not contain recognizable choices"@,
            Failure::IncompleteChoices { choices, messages } => "ai_guardrails: "@ + decimal(
                choices,
            ) + " choices but only "@ + decimal(messages) + " contain a message field"@,
            Failure::NoAssistantMessage =>
                "ai_guardrails: cannot redact: no assistant message found"@,
            Failure::MessageNotObject => "ai_guardrails: message is not a JSON object"@,
            Failure::Serialization { detail } =>
                "ai_guardrails: failed to serialize redacted body: "@ + detail,
            Failure::Provider { detail } => detail,
            Failure::Results { detail } => detail,
        }
    }
}

fn digit_text(n: usize) -> (text: &'static str)
    requires
        n < 10,
    ensures
        text@ == seq![digit(n as nat)],
{
    proof {
        reveal_strlit("0");
        reveal_strlit("1");
        reveal_strlit("2");
        reveal_strlit("3");
        reveal_strlit("4");
        reveal_strlit("5");
        reveal_strlit("6");
        reveal_strlit("7");
        reveal_strlit("8");
        reveal_strlit("9");
    }
    match n {
        0 => "0",
        1 => "1",
        2 => "2",
        3 => "3",
        4 => "4",
        5 => "5",
        6 => "6",
        7 => "7",
        8 => "8",
        _ => "9",
    }
}

/// Writes a number in decimal notation.
pub fn decimal_text(n: usize) -> (text: String)
    ensures
        text@ == decimal(n as nat),
    decreases n,
{
    let mut text = if n < 10 {
        String::new()
    } else {
        decimal_text(n / 10)
    };
    text.append(digit_text(n % 10));
    text
}

impl GuardrailError {
    /// The words in which the error is reported.
    pub fn message(&self) -> (text: String)
        ensures
            text@ == self@.text(),
    {
        let mut text = String::new();
        match self {
            GuardrailError::MissingBody { phase } => {
                text.append("ai_guardrails: cannot redact a missing ");
                text.append(phase.label());
                text.append(" body");
            },
            GuardrailError::InvalidJson { phase, detail } => {
                text.append("ai_guardrails: ");
                text.append(phase.label());
                text.append(" body is not valid JSON: ");
                text.append(detail.as_str());
            },
            GuardrailError::NoMessages => {
                text.append("ai_guardrails: request body does not contain recognizable messages");
            },
            GuardrailError::NoUserMessage => {
                text.append("ai_guardrails: cannot redact: no user message found");
            },
            GuardrailError::NoChoices => {
                text.append("ai_guardrails: response body does not contain recognizable choices");
            },
            GuardrailError::IncompleteChoices { choices, messages } => {
                text.append("ai_guardrails: ");
                text.append(decimal_text(*choices).as_str());
                text.append(" choices but only ");
                text.append(decimal_text(*messages).as_str());
                text.append(" contain a message field");
            },
            GuardrailError::NoAssistantMessage => {
                text.append("ai_guardrails: cannot redact: no assistant message found");
            },
            GuardrailError::MessageNotObject => {
                text.append("ai_guardrails: message is not a JSON object");
            },
            GuardrailError::Serialization { detail } => {
                text.append("ai_guardrails: failed to serialize redacted body: ");
                text.append(detail.as_str());
            },
            GuardrailError::Provider { detail } => {
                text.append(detail.as_str());
            },
            GuardrailError::Results { detail } => {
                text.append(detail.as_str());
            },
        }
        assert(text@ =~= self@.text());
        text
    }
}

/// A number is written with one digit more than its tenth, the last digit being
/// the remainder; a number below ten is its digit.
pub proof fn law_decimal_notation(tenth: nat, last: nat)
    requires
        last < 10,
    ensures
        decimal(last) == seq![(0x30 + last) as char],
        tenth > 0 ==> decimal(tenth * 10 + last) == decimal(tenth).push((0x30 + last) as char),
{
    assert('0' as u32 == 0x30);
    assert((tenth * 10 + last) / 10 == tenth);
    assert((tenth * 10 + last) % 10 == last);
}

/// Different numbers are written differently.
pub proof fn law_decimals_differ(a: nat, b: nat)
    requires
        decimal(a) == decimal(b),
    ensures
        a == b,
    decreases a,
{
    assert(digit(a) as u32 == 0x30 + a % 10);
    assert(digit(b) as u32 == 0x30 + b % 10);
    assert(decimal(a).last() == digit(a));
    assert(decimal(b).last() == digit(b));
    if a < 10 || b < 10 {
        lemma_decimal_length(a);
        lemma_decimal_length(b);
    } else {
        assert(decimal(a).drop_last() =~= decimal(a / 10));
        assert(decimal(b).drop_last() =~= decimal(b / 10));
        law_decimals_differ(a / 10, b / 10);
    }
}

proof fn lemma_decimal_length(n: nat)
    ensures
        decimal(n).len() >= 1,
        decimal(n).len() == 1 <==> n < 10,
    decreases n,
{
    if n >= 10 {
        lemma_decimal_length(n / 10);
    }
}

/// Every error is reported in its own words, with what it carries in them: the
/// phase, the numbers, and the detail as it was given.
pub proof fn law_errors_are_reported_in_their_words(error: GuardrailError)
    ensures
        match error {
            GuardrailError::MissingBody { phase: GuardPhase::Request } => error@.text()
                == "ai_guardrails: cannot redact a missing "@ + "request"@ + " body"@,
            GuardrailError::MissingBody { phase: GuardPhase::Response } => error@.text()
                == "ai_guardrails: cannot redact a missing "@ + "response"@ + " body"@,
            GuardrailError::InvalidJson { phase: GuardPhase::Request, detail } => error@.text()
                == "ai_guardrails: "@ + "request"@ + " body is not valid JSON: "@ + detail@,
            GuardrailError::InvalidJson { phase: GuardPhase::Response, detail } => error@.text()
                == "ai_guardrails: "@ + "response"@ + " body is not valid JSON: "@ + detail@,
            GuardrailError::NoMessages => error@.text()
                == "ai_guardrails: request body does not contain recognizable messages"@,
            GuardrailError::NoUserMessage => error@.text()
                == "ai_guardrails: cannot redact: no user message found"@,
            GuardrailError::NoChoices => error@.text()
                == "ai_guardrails: response body does not contain recognizable choices"@,
            GuardrailError::IncompleteChoices { choices, messages } => error@.text()
                == "ai_guardrails: "@ + decimal(choices as nat) + " choices but only "@ + decimal(
                messages as nat,
            ) + " contain a message field"@,
            GuardrailError::NoAssistantMessage => error@.text()
                == "ai_guardrails: cannot redact: no assistant message found"@,
            GuardrailError::MessageNotObject => error@.text()
                == "ai_guardrails: message is not a JSON object"@,
            GuardrailError::Serialization { detail } => error@.text()
                == "ai_guardrails: failed to serialize redacted body: "@ + detail@,
            GuardrailError::Provider { detail } => error@.text() == detail@,
            GuardrailError::Results { detail } => error@.text() == detail@,
        },
{
}

/// An error says nothing more and nothing less than what it was made of.
pub proof fn law_errors_carry_what_they_were_given(error: GuardrailError)
    ensures
        match error {
            GuardrailError::MissingBody { phase } => error@ matches Failure::MissingBody {
                phase: told,
            } && told == phase,
            GuardrailError::InvalidJson { phase, detail } => {
                &&& error@ matches Failure::InvalidJson { phase: told, detail: words }
                &&& told == phase
                &&& words == detail@
            },
            GuardrailError::NoMessages => error@ is NoMessages,
            GuardrailError::NoUserMessage => error@ is NoUserMessage,
            GuardrailError::NoChoices => error@ is NoChoices,
            GuardrailError::IncompleteChoices { choices, messages } => {
                &&& error@ matches Failure::IncompleteChoices { choices: all, messages: some }
                &&& all == choices
                &&& some == messages
            },
            GuardrailError::NoAssistantMessage => error@ is NoAssistantMessage,
            GuardrailError::MessageNotObject => error@ is MessageNotObject,
            GuardrailError::Serialization { detail } => error@ matches Failure::Serialization {
                detail: words,
            } && words == detail@,
            GuardrailError::Provider { detail } => error@ matches Failure::Provider {
                detail: words,
            } && words == detail@,
            GuardrailError::Results { detail } => error@ matches Failure::Results {
                detail: words,
            } && words == detail@,
        },
{
}

} // verus!
