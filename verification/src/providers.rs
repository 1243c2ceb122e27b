//! What a guard provider is asked and what it answers.
use vstd::prelude::*;

verus! {

/// Which phase of the proxy pipeline is being evaluated.
#[derive(Debug, Clone, Copy, PartialEq, Eq, Structural)]
pub enum GuardPhase {
    /// Inspecting the client request before it reaches the upstream.
    Request,
    /// Inspecting the upstream response before it reaches the client.
    Response,
}

impl GuardPhase {
    /// The name of the phase.
    pub open spec fn name(self) -> Seq<char> {
        match self {
            GuardPhase::Request => "request"@,
            GuardPhase::Response => "response"@,
        }
    }

    /// Returns a static label for logging and diagnostics.
    pub fn label(self) -> (label: &'static str)
        ensures
            label@ == self.name(),
    {
        match self {
            GuardPhase::Request => "request",
            GuardPhase::Response => "response",
        }
    }

    /// The label as an owned string.
    pub fn to_string(&self) -> (label: String)
        ensures
            label@ == self.name(),
    {
        self.label().to_owned()
    }
}

/// Normalized verdict from an external guardrail provider evaluation.
#[derive(Debug, Clone, PartialEq, Eq)]
pub enum GuardResult {
    /// Content is safe: forward unchanged.
    Pass,
    /// Content violates policy: reject with reason.
    Block {
        /// Human-readable block reason from the provider.
        reason: String,
    },
    /// Content contains sensitive data: forward with masked text.
    Redact {
        /// Provider-rewritten text with sensitive data masked.
        modified_text: String,
        /// Human-readable redaction reason from the provider.
        reason: String,
    },
}

/// A verdict, with its texts as characters.
pub enum Verdict {
    Pass,
    Block { reason: Seq<char> },
    Redact { modified_text: Seq<char>, reason: Seq<char> },
}

impl Verdict {
    /// The status under which the verdict is recorded.
    pub open spec fn status(self) -> Seq<char> {
        match self {
            Verdict::Pass => "passed"@,
            Verdict::Block { .. } => "blocked"@,
            Verdict::Redact { .. } => "redacted"@,
        }
    }
}

impl View for GuardResult {
    type V = Verdict;

    open spec fn view(&self) -> Verdict {
        match self {
            GuardResult::Pass => Verdict::Pass,
            GuardResult::Block { reason } => Verdict::Block { reason: reason@ },
            GuardResult::Redact { modified_text, reason } => Verdict::Redact {
                modified_text: modified_text@,
                reason: reason@,
            },
        }
    }
}

impl GuardResult {
    /// Returns the status label under which the verdict is recorded.
    pub fn status_label(&self) -> (label: &'static str)
        ensures
            label@ == self@.status(),
    {
        match self {
            GuardResult::Pass => "passed",
            GuardResult::Block { .. } => "blocked",
            GuardResult::Redact { .. } => "redacted",
        }
    }
}

/// Three verdicts of different kinds are recorded under three different labels.
pub proof fn law_labels_tell_verdicts_apart(a: Verdict, b: Verdict)
    ensures
        a.status() == b.status() <==> (a is Pass <==> b is Pass) && (a is Block <==> b is Block),
{
    reveal_strlit("passed");
    reveal_strlit("blocked");
    reveal_strlit("redacted");
    assert("passed"@.len() == 6);
    assert("blocked"@.len() == 7);
    assert("redacted"@.len() == 8);
}

/// A verdict is recorded as passed, blocked or redacted, whatever its texts
/// are, and carries the provider's texts unchanged.
pub proof fn law_verdicts_are_told_by_their_kind(result: GuardResult)
    ensures
        match result {
            GuardResult::Pass => result@ is Pass && result@.status() == "passed"@,
            GuardResult::Block { reason } => {
                &&& result@.status() == "blocked"@
                &&& result@ matches Verdict::Block { reason: told } && told == reason@
            },
            GuardResult::Redact { modified_text, reason } => {
                &&& result@.status() == "redacted"@
                &&& result@ matches Verdict::Redact { modified_text: masked, reason: told }
                &&& masked == modified_text@
                &&& told == reason@
            },
        },
{
}

/// The phases are called request and response.
pub proof fn law_phases_have_their_names(phase: GuardPhase)
    ensures
        phase == GuardPhase::Request ==> phase.name() == "request"@,
        phase == GuardPhase::Response ==> phase.name() == "response"@,
{
}

} // verus!
