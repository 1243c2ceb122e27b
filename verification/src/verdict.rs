//! What becomes of a body on a verdict.
use vstd::prelude::*;
use vstd::utf8::*;

use bytes::Bytes;
use praxis_filter::FilterResultSet;

use crate::error::{Failure, GuardrailError};
use crate::framing::fit_to_committed_length;
use crate::json::{put_member, Json, JsonView};
use crate::providers::{GuardPhase, GuardResult, Verdict};
use crate::redact::{apply_request_redaction, apply_response_redaction};
use crate::results::set_result;

verus! {

/// A response that is sent in place of passing a request on.
#[derive(Debug, Clone, PartialEq, Eq)]
pub struct Rejection {
    /// HTTP status code.
    pub status: u16,
    /// Response body.
    pub body: String,
}

/// Result of a filter's request or response processing.
#[derive(Debug, Clone, PartialEq, Eq)]
pub enum FilterAction {
    /// Continue to the next filter in the pipeline.
    Continue,
    /// Stop processing and respond with the given rejection.
    Reject(Rejection),
}

/// An action, with its text as characters.
pub enum Action {
    Continue,
    Reject { status: u16, body: Seq<char> },
}

impl View for FilterAction {
    type V = Action;

    open spec fn view(&self) -> Action {
        match self {
            FilterAction::Continue => Action::Continue,
            FilterAction::Reject(rejection) => Action::Reject {
                status: rejection.status,
                body: rejection.body@,
            },
        }
    }
}

/// An error as it is reported to a client:
/// `{"error": {"message": ..., "type": ..., "code": ...}}`.
pub open spec fn error_document(
    message: Seq<char>,
    error_type: Seq<char>,
    code: Seq<char>,
) -> JsonView {
    JsonView::Object(
        map![
            "error"@ => JsonView::Object(
                map![
                    "message"@ => JsonView::Text(message),
                    "type"@ => JsonView::Text(error_type),
                    "code"@ => JsonView::Text(code),
                ],
            ),
        ],
    )
}

proof fn lemma_error_document_readable(message: Seq<char>, error_type: Seq<char>, code: Seq<char>)
    ensures
        crate::wire::readable(error_document(message, error_type, code)),
{
    reveal_strlit("$serde_json::private::RawValue");
    reveal_strlit("error");
    reveal_strlit("message");
    reveal_strlit("type");
    reveal_strlit("code");
    reveal_with_fuel(JsonView::within, 3);
    assert("$serde_json::private::RawValue"@.len() == 30);
}

/// An error has no numbers: a document that agrees with it is the error itself.
pub proof fn law_error_is_read_exactly(
    message: Seq<char>,
    error_type: Seq<char>,
    code: Seq<char>,
    read: JsonView,
)
    requires
        error_document(message, error_type, code).agrees(read),
    ensures
        read == error_document(message, error_type, code),
{
    reveal_with_fuel(JsonView::exact, 3);
    crate::json::law_exact_agreement_is_equality(error_document(message, error_type, code), read);
}

/// Builds the document of an error.
fn error_json(message: &str, error_type: &str, code: &str) -> (json: Json)
    ensures
        json@ == error_document(message@, error_type@, code@),
{
    let mut fields: Vec<(String, Json)> = Vec::new();
    put_member(&mut fields, "message", Json::String(message.to_owned()));
    put_member(&mut fields, "type", Json::String(error_type.to_owned()));
    put_member(&mut fields, "code", Json::String(code.to_owned()));
    let mut outer: Vec<(String, Json)> = Vec::new();
    put_member(&mut outer, "error", Json::Object(fields));
    Json::Object(outer)
}

/// A document has been put in place of a response body, at the body's length;
/// where there is room for it, the new body is read as the document.
pub open spec fn told(
    before: Option<Seq<u8>>,
    after: Option<Seq<u8>>,
    document: JsonView,
) -> bool {
    let text = crate::wire::displayed(document);
    let length = crate::framing::committed(before);
    &&& after == Some(crate::framing::fitted(text, length))
    &&& encode_utf8(text).len() <= length ==> crate::wire::parsed(after->Some_0) == Ok::<
        JsonView,
        Seq<char>,
    >(document)
}

/// Replaces the response body with an error JSON payload.
///
/// Used on the response side when headers are already committed and the body is
/// the only channel for communicating errors to the client.
pub fn replace_body_with_error(
    body: &mut Option<Bytes>,
    message: &str,
    error_type: &str,
    code: &str,
)
    ensures
        told(
            crate::framing::content(*old(body)),
            crate::framing::content(*final(body)),
            error_document(message@, error_type@, code@),
        ),
{
    let json = error_json(message, error_type, code);
    proof {
        lemma_error_document_readable(message@, error_type@, code@);
    }
    let text = json.display();
    let fit = fit_to_committed_length(text, body);
    proof {
        let length = crate::framing::committed(crate::framing::content(*old(body)));
        let raw = encode_utf8(text@);
        if raw.len() <= length {
            let room = (length - raw.len()) as nat;
            assert(crate::wire::parsed(raw + crate::framing::spaces(room)) is Ok);
            law_error_is_read_exactly(
                message@,
                error_type@,
                code@,
                crate::wire::parsed(raw + crate::framing::spaces(room))->Ok_0,
            );
        }
    }
    *body = Some(fit);
}

/// The error document for a response that was blocked.
pub open spec fn blocked_document(reason: Seq<char>) -> JsonView {
    error_document(
        "Response blocked by guardrails: "@ + reason,
        "guardrail_violation"@,
        "content_blocked"@,
    )
}

/// The error document for a response whose redaction failed.
pub open spec fn unredacted_document(detail: Seq<char>) -> JsonView {
    error_document(
        "Guardrail redaction failed: "@ + detail,
        "guardrail_error"@,
        "evaluation_failed"@,
    )
}

/// The document that a verdict puts in place of a body, and its text.
pub open spec fn replacement(
    body: Option<Seq<u8>>,
    verdict: Verdict,
    phase: GuardPhase,
) -> Option<(JsonView, Seq<char>)> {
    match verdict {
        Verdict::Pass => None,
        Verdict::Block { reason } => match phase {
            GuardPhase::Request => None,
            GuardPhase::Response => Some(
                (blocked_document(reason), crate::wire::displayed(blocked_document(reason))),
            ),
        },
        Verdict::Redact { modified_text, .. } => match crate::redact::redacted_body(
            body,
            modified_text,
            phase,
        ) {
            Ok(document) => Some((document, crate::wire::rendered(document))),
            Err(failure) => match phase {
                GuardPhase::Request => None,
                GuardPhase::Response => Some(
                    (
                        unredacted_document(failure.text()),
                        crate::wire::displayed(unredacted_document(failure.text())),
                    ),
                ),
            },
        },
    }
}

/// The body after a verdict. A request body may change its length; a response
/// body keeps it.
pub open spec fn body_after(
    body: Option<Seq<u8>>,
    verdict: Verdict,
    phase: GuardPhase,
) -> Option<Seq<u8>> {
    match replacement(body, verdict, phase) {
        None => body,
        Some((_, text)) => match phase {
            GuardPhase::Request => Some(encode_utf8(text)),
            GuardPhase::Response => Some(
                crate::framing::fitted(text, crate::framing::committed(body)),
            ),
        },
    }
}

/// The action on a verdict, or the error.
pub open spec fn action_on(
    body: Option<Seq<u8>>,
    verdict: Verdict,
    phase: GuardPhase,
) -> Result<Action, Failure> {
    match phase {
        GuardPhase::Response => Ok(Action::Continue),
        GuardPhase::Request => match verdict {
            Verdict::Pass => Ok(Action::Continue),
            Verdict::Block { reason } => Ok(Action::Reject { status: 403, body: reason }),
            Verdict::Redact { modified_text, .. } => match crate::redact::redacted_body(
                body,
                modified_text,
                phase,
            ) {
                Ok(_) => Ok(Action::Continue),
                Err(failure) => Err(failure),
            },
        },
    }
}

/// The replacement is readable and there is room for it.
pub open spec fn replacement_fits(
    body: Option<Seq<u8>>,
    verdict: Verdict,
    phase: GuardPhase,
) -> bool {
    &&& replacement(body, verdict, phase) matches Some((document, text))
    &&& crate::wire::readable(document)
    &&& phase == GuardPhase::Response ==> encode_utf8(text).len() <= crate::framing::committed(body)
}

/// What enforcing a verdict does to a body and returns.
pub open spec fn enforced(
    before: Option<Seq<u8>>,
    after: Option<Seq<u8>>,
    verdict: Verdict,
    phase: GuardPhase,
    outcome: Result<FilterAction, GuardrailError>,
) -> bool {
    &&& match outcome {
        Ok(action) => action_on(before, verdict, phase) == Ok::<Action, Failure>(action@),
        Err(error) => action_on(before, verdict, phase) == Err::<Action, Failure>(error@),
    }
    &&& after == body_after(before, verdict, phase)
    &&& replacement_fits(before, verdict, phase) ==> crate::wire::carries(
        after,
        replacement(before, verdict, phase)->Some_0.0,
    )
}

/// Enforces a `Block` verdict for the given phase.
///
/// A request is rejected. The headers of a response are already committed, so
/// its body is replaced with an error.
pub fn enforce_block(body: &mut Option<Bytes>, reason: String, phase: GuardPhase) -> (action:
    FilterAction)
    ensures
        enforced(
            crate::framing::content(*old(body)),
            crate::framing::content(*final(body)),
            Verdict::Block { reason: reason@ },
            phase,
            Ok(action),
        ),
        phase == GuardPhase::Request ==> *final(body) == *old(body),
{
    proof {
        crate::json::law_agrees_with_itself(blocked_document(reason@));
    }
    match phase {
        GuardPhase::Request => FilterAction::Reject(Rejection { status: 403, body: reason }),
        GuardPhase::Response => {
            let mut message: String = "Response blocked by guardrails: ".to_owned();
            message.append(reason.as_str());
            replace_body_with_error(
                body,
                message.as_str(),
                "guardrail_violation",
                "content_blocked",
            );
            FilterAction::Continue
        },
    }
}

/// Rewrites the buffered body with the provider's masked text and continues.
///
/// A request that cannot be redacted is an error. A response that cannot be
/// redacted is replaced with an error.
pub fn apply_redaction(body: &mut Option<Bytes>, modified_text: String, phase: GuardPhase) -> (
outcome: Result<FilterAction, GuardrailError>)
    ensures
        forall|reason: Seq<char>|
            #[trigger] enforced(
                crate::framing::content(*old(body)),
                crate::framing::content(*final(body)),
                Verdict::Redact { modified_text: modified_text@, reason },
                phase,
                outcome,
            ),
        outcome is Err ==> *final(body) == *old(body),
{
    match phase {
        GuardPhase::Request => match apply_request_redaction(body, modified_text) {
            Ok(()) => Ok(FilterAction::Continue),
            Err(error) => Err(error),
        },
        GuardPhase::Response => {
            if let Err(error) = apply_response_redaction(body, modified_text) {
                let mut message: String = "Guardrail redaction failed: ".to_owned();
                message.append(error.message().as_str());
                proof {
                    crate::json::law_agrees_with_itself(unredacted_document(error@.text()));
                }
                replace_body_with_error(
                    body,
                    message.as_str(),
                    "guardrail_error",
                    "evaluation_failed",
                );
            }
            Ok(FilterAction::Continue)
        },
    }
}

/// What recording and enforcing a verdict does to the results and the body, and
/// returns. Where there is no room for the status, nothing is done.
pub open spec fn recorded(
    results: Map<Seq<char>, Seq<char>>,
    new_results: Map<Seq<char>, Seq<char>>,
    before: Option<Seq<u8>>,
    after: Option<Seq<u8>>,
    verdict: Verdict,
    phase: GuardPhase,
    outcome: Result<FilterAction, GuardrailError>,
) -> bool {
    if crate::results::has_room(results, "status"@) {
        &&& new_results == results.insert("status"@, verdict.status())
        &&& enforced(before, after, verdict, phase, outcome)
    } else {
        &&& outcome matches Err(error) && error@ == (Failure::Results {
            detail: crate::results::full_text(),
        })
        &&& new_results == results
        &&& after == before
    }
}

/// Records the provider's verdict among the filter's results and enforces it.
///
/// The `phase` controls how a `Block` verdict is enforced. In the request phase
/// headers have not been sent yet, so a clean 403 is possible. In the response
/// phase they are committed, with the length of the body: the body is replaced
/// with an error of that length.
pub fn record_verdict(
    results: &mut FilterResultSet,
    body: &mut Option<Bytes>,
    result: GuardResult,
    phase: GuardPhase,
) -> (outcome: Result<FilterAction, GuardrailError>)
    ensures
        recorded(
            crate::results::reported(*old(results)),
            crate::results::reported(*final(results)),
            crate::framing::content(*old(body)),
            crate::framing::content(*final(body)),
            result@,
            phase,
            outcome,
        ),
{
    let verdict = result.status_label();
    proof {
        lemma_status_words(result@);
    }
    match set_result(results, "status", verdict) {
        Err(detail) => Err(GuardrailError::Results { detail }),
        Ok(()) => match result {
            GuardResult::Pass => Ok(FilterAction::Continue),
            GuardResult::Block { reason } => Ok(enforce_block(body, reason, phase)),
            GuardResult::Redact { modified_text, reason } => {
                let outcome = apply_redaction(body, modified_text, phase);
                assert(enforced(
                    crate::framing::content(*old(body)),
                    crate::framing::content(*body),
                    Verdict::Redact { modified_text: modified_text@, reason: reason@ },
                    phase,
                    outcome,
                ));
                outcome
            },
        },
    }
}

proof fn lemma_status_words(verdict: Verdict)
    ensures
        crate::results::is_key("status"@),
        crate::results::is_plain(verdict.status()),
{
    reveal_strlit("status");
    reveal_strlit("passed");
    reveal_strlit("blocked");
    reveal_strlit("redacted");
}

/// Whatever the verdict on a response, its body keeps the length that was
/// announced for it, and a body that is there stays there.
pub proof fn law_response_length_is_kept(body: Option<Seq<u8>>, verdict: Verdict)
    ensures
        crate::framing::committed(body_after(body, verdict, GuardPhase::Response))
            == crate::framing::committed(body),
        body is Some ==> body_after(body, verdict, GuardPhase::Response) is Some,
{
    if let Some((_, text)) = replacement(body, verdict, GuardPhase::Response) {
        crate::framing::law_fitted_length(text, crate::framing::committed(body));
    }
}

/// Whatever the verdict on a response, its processing goes on: the headers are
/// committed, so there is no rejection and no error any more.
pub proof fn law_response_always_continues(body: Option<Seq<u8>>, verdict: Verdict)
    ensures
        action_on(body, verdict, GuardPhase::Response) == Ok::<Action, Failure>(Action::Continue),
{
}

/// Content that passes is forwarded unchanged, in both phases.
pub proof fn law_pass_changes_nothing(body: Option<Seq<u8>>, phase: GuardPhase)
    ensures
        body_after(body, Verdict::Pass, phase) == body,
        action_on(body, Verdict::Pass, phase) == Ok::<Action, Failure>(Action::Continue),
{
}

/// A request is forwarded with its body unchanged only if it passes: on any
/// other verdict it is rejected with the reason, refused with an error, or
/// forwarded redacted.
pub proof fn law_only_passed_requests_go_through(body: Option<Seq<u8>>, verdict: Verdict)
    requires
        verdict !is Pass,
    ensures
        match action_on(body, verdict, GuardPhase::Request) {
            Ok(Action::Continue) => {
                &&& verdict matches Verdict::Redact { modified_text, reason }
                &&& crate::redact::redacted_body(body, modified_text, GuardPhase::Request)
                    matches Ok(document)
                &&& body_after(body, verdict, GuardPhase::Request) == Some(
                    encode_utf8(crate::wire::rendered(document)),
                )
            },
            Ok(Action::Reject { status, body: text }) => {
                &&& verdict == (Verdict::Block { reason: text })
                &&& status == 403
            },
            Err(failure) => verdict is Redact && body_after(body, verdict, GuardPhase::Request)
                == body,
        },
{
}

/// A response is forwarded with its body unchanged only if it passes: on any
/// other verdict the body is replaced.
pub proof fn law_only_passed_responses_go_through(body: Option<Seq<u8>>, verdict: Verdict)
    ensures
        replacement(body, verdict, GuardPhase::Response) is None <==> verdict is Pass,
{
}

/// The reason of a redaction changes nothing.
pub proof fn law_redaction_reason_is_not_shown(
    body: Option<Seq<u8>>,
    modified_text: Seq<char>,
    reason: Seq<char>,
    other: Seq<char>,
    phase: GuardPhase,
)
    ensures
        body_after(body, Verdict::Redact { modified_text, reason }, phase) == body_after(
            body,
            Verdict::Redact { modified_text, reason: other },
            phase,
        ),
        action_on(body, Verdict::Redact { modified_text, reason }, phase) == action_on(
            body,
            Verdict::Redact { modified_text, reason: other },
            phase,
        ),
{
}

/// An action is spoken of as it is.
pub proof fn law_actions_are_spoken_of_as_they_are(action: FilterAction)
    ensures
        match action {
            FilterAction::Continue => action@ is Continue,
            FilterAction::Reject(rejection) => {
                &&& action@ matches Action::Reject { status, body }
                &&& status == rejection.status
                &&& body == rejection.body@
            },
        },
{
}

/// A client that is told an error gets it as the member `error` of an object,
/// with the message, the type and the code and nothing else, at the length of
/// the body that it replaces. Nothing of that body is in it. Where there is
/// room, the body reads as that object.
pub proof fn law_told_errors_replace_the_body(
    before: Option<Seq<u8>>,
    after: Option<Seq<u8>>,
    message: Seq<char>,
    error_type: Seq<char>,
    code: Seq<char>,
)
    requires
        told(before, after, error_document(message, error_type, code)),
    ensures
        ({
            let document = JsonView::Object(
                map![
                    "error"@ => JsonView::Object(
                        map![
                            "message"@ => JsonView::Text(message),
                            "type"@ => JsonView::Text(error_type),
                            "code"@ => JsonView::Text(code),
                        ],
                    ),
                ],
            );
            let length = match before {
                Some(raw) => raw.len(),
                None => 0,
            };
            &&& after matches Some(raw)
            &&& raw == crate::framing::fitted(crate::wire::displayed(document), length)
            &&& raw.len() == length
            &&& encode_utf8(crate::wire::displayed(document)).len() <= length
                ==> crate::wire::parsed(raw) == Ok::<JsonView, Seq<char>>(document)
        }),
{
    let document = error_document(message, error_type, code);
    crate::framing::law_fitted_length(
        crate::wire::displayed(document),
        crate::framing::committed(before),
    );
}

/// Content that passes is forwarded as it is, in both phases.
pub proof fn law_passed_bodies_stay(
    before: Option<Seq<u8>>,
    after: Option<Seq<u8>>,
    phase: GuardPhase,
    outcome: Result<FilterAction, GuardrailError>,
)
    requires
        enforced(before, after, Verdict::Pass, phase, outcome),
    ensures
        after == before,
        outcome matches Ok(FilterAction::Continue),
{
}

/// A blocked request is rejected with status 403 and the reason as the body of
/// the answer.
pub proof fn law_blocked_requests_are_rejected(
    before: Option<Seq<u8>>,
    after: Option<Seq<u8>>,
    reason: Seq<char>,
    outcome: Result<FilterAction, GuardrailError>,
)
    requires
        enforced(before, after, Verdict::Block { reason }, GuardPhase::Request, outcome),
    ensures
        after == before,
        outcome matches Ok(FilterAction::Reject(rejection)) && rejection.status == 403
            && rejection.body@ == reason,
{
}

/// A blocked response goes on with its body replaced by an error that tells the
/// reason, at the length of the old body.
pub proof fn law_blocked_responses_are_replaced(
    before: Option<Seq<u8>>,
    after: Option<Seq<u8>>,
    reason: Seq<char>,
    outcome: Result<FilterAction, GuardrailError>,
)
    requires
        enforced(before, after, Verdict::Block { reason }, GuardPhase::Response, outcome),
    ensures
        ({
            let document = JsonView::Object(
                map![
                    "error"@ => JsonView::Object(
                        map![
                            "message"@ => JsonView::Text("Response blocked by guardrails: "@ + reason),
                            "type"@ => JsonView::Text("guardrail_violation"@),
                            "code"@ => JsonView::Text("content_blocked"@),
                        ],
                    ),
                ],
            );
            let length = match before {
                Some(raw) => raw.len(),
                None => 0,
            };
            &&& outcome matches Ok(FilterAction::Continue)
            &&& after matches Some(raw)
            &&& raw == crate::framing::fitted(crate::wire::displayed(document), length)
            &&& raw.len() == length
            &&& encode_utf8(crate::wire::displayed(document)).len() <= length
                ==> crate::wire::parsed(raw) == Ok::<JsonView, Seq<char>>(document)
        }),
{
    let message = "Response blocked by guardrails: "@ + reason;
    let document = blocked_document(reason);
    crate::framing::law_fitted_length(
        crate::wire::displayed(document),
        crate::framing::committed(before),
    );
    lemma_error_document_readable(message, "guardrail_violation"@, "content_blocked"@);
    if encode_utf8(crate::wire::displayed(document)).len() <= crate::framing::committed(before) {
        law_error_is_read_exactly(
            message,
            "guardrail_violation"@,
            "content_blocked"@,
            crate::wire::parsed(after->Some_0)->Ok_0,
        );
    }
}

/// What a client gets in place of a blocked response depends on that response
/// only by its length: nothing of its content is in it.
pub proof fn law_blocked_content_is_not_shown(
    before: Seq<u8>,
    after: Option<Seq<u8>>,
    outcome: Result<FilterAction, GuardrailError>,
    other_before: Seq<u8>,
    other_after: Option<Seq<u8>>,
    other_outcome: Result<FilterAction, GuardrailError>,
    reason: Seq<char>,
)
    requires
        before.len() == other_before.len(),
        enforced(Some(before), after, Verdict::Block { reason }, GuardPhase::Response, outcome),
        enforced(
            Some(other_before),
            other_after,
            Verdict::Block { reason },
            GuardPhase::Response,
            other_outcome,
        ),
    ensures
        after == other_after,
{
}

/// A redacted request goes on with the masked text as the content of its last
/// user message, whatever that was, and with everything else as it was. Where
/// the document can be written and read again, the new body reads as it.
pub proof fn law_redacted_requests_are_masked(
    raw: Seq<u8>,
    members: Map<Seq<char>, JsonView>,
    messages: Seq<JsonView>,
    i: int,
    fields: Map<Seq<char>, JsonView>,
    after: Option<Seq<u8>>,
    modified_text: Seq<char>,
    reason: Seq<char>,
    outcome: Result<FilterAction, GuardrailError>,
)
    requires
        crate::wire::parsed(raw) == Ok::<JsonView, Seq<char>>(JsonView::Object(members)),
        members.dom().contains("messages"@),
        members["messages"@] == JsonView::Array(messages),
        0 <= i < messages.len(),
        messages[i] == JsonView::Object(fields),
        fields.dom().contains("role"@),
        fields["role"@] == JsonView::Text("user"@),
        forall|j: int|
            i < j < messages.len() ==> !{
                &&& #[trigger] messages[j] is Object
                &&& messages[j]->Object_0.dom().contains("role"@)
                &&& messages[j]->Object_0["role"@] == JsonView::Text("user"@)
            },
        enforced(
            Some(raw),
            after,
            Verdict::Redact { modified_text, reason },
            GuardPhase::Request,
            outcome,
        ),
    ensures
        ({
            let document = JsonView::Object(
                members.insert(
                    "messages"@,
                    JsonView::Array(
                        messages.update(
                            i,
                            JsonView::Object(
                                fields.insert("content"@, JsonView::Text(modified_text)),
                            ),
                        ),
                    ),
                ),
            );
            &&& outcome matches Ok(FilterAction::Continue)
            &&& after == Some(encode_utf8(crate::wire::rendered(document)))
            &&& crate::wire::readable(document) ==> {
                &&& crate::wire::parsed(after->Some_0) matches Ok(read)
                &&& document.agrees(read)
            }
        }),
{
    crate::redact::law_last_user_message_is_masked(members, messages, i, fields, modified_text);
}

/// A request that is to be redacted and cannot be is refused, with its body as
/// it was: one without a body, one that is not JSON, one without an array of
/// messages, and one without a user message.
pub proof fn law_unmaskable_requests_are_refused(
    before: Option<Seq<u8>>,
    after: Option<Seq<u8>>,
    modified_text: Seq<char>,
    reason: Seq<char>,
    outcome: Result<FilterAction, GuardrailError>,
)
    requires
        enforced(
            before,
            after,
            Verdict::Redact { modified_text, reason },
            GuardPhase::Request,
            outcome,
        ),
    ensures
        outcome is Err ==> after == before,
        before is None ==> (outcome matches Err(GuardrailError::MissingBody { phase }) && phase
            == GuardPhase::Request),
        before matches Some(raw) ==> match crate::wire::parsed(raw) {
            Err(words) => outcome matches Err(GuardrailError::InvalidJson { phase, detail })
                && phase == GuardPhase::Request && detail@ == words,
            Ok(document) => {
                if !(document is Object && document->Object_0.dom().contains("messages"@)
                    && document->Object_0["messages"@] is Array) {
                    outcome matches Err(GuardrailError::NoMessages)
                } else {
                    let messages = document->Object_0["messages"@]->Array_0;
                    (forall|i: int|
                        0 <= i < messages.len() ==> !{
                            &&& #[trigger] messages[i] is Object
                            &&& messages[i]->Object_0.dom().contains("role"@)
                            &&& messages[i]->Object_0["role"@] == JsonView::Text("user"@)
                        }) ==> (outcome matches Err(GuardrailError::NoUserMessage))
                }
            },
        },
{
    crate::redact::law_redaction_is_that_of_the_document(
        before,
        modified_text,
        GuardPhase::Request,
    );
    if let Some(raw) = before {
        if let Ok(document) = crate::wire::parsed(raw) {
            crate::redact::law_requests_with_a_user_message_are_redacted(document, modified_text);
        }
    }
}

/// A redacted response goes on with the masked text as the content of the
/// message of the last choice that has one, and with everything else as it was,
/// at the length of the old body. Where the document can be written and read
/// again and there is room for it, the new body reads as it.
pub proof fn law_redacted_responses_are_masked(
    raw: Seq<u8>,
    members: Map<Seq<char>, JsonView>,
    choices: Seq<JsonView>,
    i: int,
    parts: Map<Seq<char>, JsonView>,
    fields: Map<Seq<char>, JsonView>,
    after: Option<Seq<u8>>,
    modified_text: Seq<char>,
    reason: Seq<char>,
    outcome: Result<FilterAction, GuardrailError>,
)
    requires
        crate::wire::parsed(raw) == Ok::<JsonView, Seq<char>>(JsonView::Object(members)),
        members.dom().contains("choices"@),
        members["choices"@] == JsonView::Array(choices),
        0 <= i < choices.len(),
        choices[i] == JsonView::Object(parts),
        parts.dom().contains("message"@),
        parts["message"@] == JsonView::Object(fields),
        forall|j: int|
            i < j < choices.len() ==> !{
                &&& #[trigger] choices[j] is Object
                &&& choices[j]->Object_0.dom().contains("message"@)
            },
        enforced(
            Some(raw),
            after,
            Verdict::Redact { modified_text, reason },
            GuardPhase::Response,
            outcome,
        ),
    ensures
        ({
            let document = JsonView::Object(
                members.insert(
                    "choices"@,
                    JsonView::Array(
                        choices.update(
                            i,
                            JsonView::Object(
                                parts.insert(
                                    "message"@,
                                    JsonView::Object(
                                        fields.insert("content"@, JsonView::Text(modified_text)),
                                    ),
                                ),
                            ),
                        ),
                    ),
                ),
            );
            &&& outcome matches Ok(FilterAction::Continue)
            &&& after == Some(crate::framing::fitted(crate::wire::rendered(document), raw.len()))
            &&& after->Some_0.len() == raw.len()
            &&& crate::wire::readable(document) && encode_utf8(
                crate::wire::rendered(document),
            ).len() <= raw.len() ==> {
                &&& crate::wire::parsed(after->Some_0) matches Ok(read)
                &&& document.agrees(read)
            }
        }),
{
    crate::redact::law_last_choice_is_masked(members, choices, i, parts, fields, modified_text);
    law_response_length_is_kept(Some(raw), Verdict::Redact { modified_text, reason });
}

/// A response that is to be redacted and cannot be goes on with its body
/// replaced by an error that tells why, at the length of the old body.
pub proof fn law_unmaskable_responses_are_replaced(
    before: Option<Seq<u8>>,
    after: Option<Seq<u8>>,
    modified_text: Seq<char>,
    reason: Seq<char>,
    outcome: Result<FilterAction, GuardrailError>,
)
    requires
        enforced(
            before,
            after,
            Verdict::Redact { modified_text, reason },
            GuardPhase::Response,
            outcome,
        ),
    ensures
        outcome matches Ok(FilterAction::Continue),
        ({
            let document = |words: Seq<char>|
                JsonView::Object(
                    map![
                        "error"@ => JsonView::Object(
                            map![
                                "message"@ => JsonView::Text("Guardrail redaction failed: "@ + words),
                                "type"@ => JsonView::Text("guardrail_error"@),
                                "code"@ => JsonView::Text("evaluation_failed"@),
                            ],
                        ),
                    ],
                );
            let length = match before {
                Some(raw) => raw.len(),
                None => 0,
            };
            let replaced = |words: Seq<char>|
                after == Some(
                    crate::framing::fitted(crate::wire::displayed(document(words)), length),
                );
            let fits = |choice: JsonView|
                choice is Object && choice->Object_0.dom().contains("message"@);
            &&& after is Some
            &&& after->Some_0.len() == length
            &&& before is None ==> replaced("ai_guardrails: cannot redact a missing response body"@)
            &&& before matches Some(raw) ==> match crate::wire::parsed(raw) {
                Err(words) => replaced(
                    "ai_guardrails: response body is not valid JSON: "@ + words,
                ),
                Ok(read) => {
                    if !(read is Object && read->Object_0.dom().contains("choices"@)
                        && read->Object_0["choices"@] is Array) {
                        replaced(
                            "ai_guardrails: response body does not contain recognizable choices"@,
                        )
                    } else {
                        let choices = read->Object_0["choices"@]->Array_0;
                        &&& (forall|i: int| 0 <= i < choices.len() ==> !fits(#[trigger] choices[i]))
                            ==> replaced("ai_guardrails: cannot redact: no assistant message found"@)
                        &&& forall|i: int|
                            0 <= i < choices.len() && fits(#[trigger] choices[i]) && (forall|j: int|
                                i < j < choices.len() ==> !fits(#[trigger] choices[j])) && !(
                            choices[i]->Object_0["message"@] is Object) ==> replaced(
                                "ai_guardrails: message is not a JSON object"@,
                            )
                    }
                },
            }
        }),
{
    law_response_length_is_kept(before, Verdict::Redact { modified_text, reason });
    lemma_response_words();
    crate::redact::law_redaction_is_that_of_the_document(
        before,
        modified_text,
        GuardPhase::Response,
    );
    if let Some(raw) = before {
        if let Ok(document) = crate::wire::parsed(raw) {
            crate::redact::law_responses_with_a_message_are_redacted(document, modified_text);
        }
    }
}

proof fn lemma_response_words()
    ensures
        "ai_guardrails: cannot redact a missing "@ + "response"@ + " body"@
            == "ai_guardrails: cannot redact a missing response body"@,
        "ai_guardrails: "@ + "response"@ + " body is not valid JSON: "@
            == "ai_guardrails: response body is not valid JSON: "@,
{
    reveal_strlit("ai_guardrails: cannot redact a missing ");
    reveal_strlit("response");
    reveal_strlit(" body");
    reveal_strlit("ai_guardrails: cannot redact a missing response body");
    reveal_strlit("ai_guardrails: ");
    reveal_strlit(" body is not valid JSON: ");
    reveal_strlit("ai_guardrails: response body is not valid JSON: ");
}

/// A verdict is reported as the status of the filter, under its own word, and
/// then enforced; the other results stay. Where the set of results has neither
/// a status nor room for one, the verdict is not enforced: the body and the
/// results stay as they were, and that is the error.
pub proof fn law_verdicts_are_reported(
    results: Map<Seq<char>, Seq<char>>,
    new_results: Map<Seq<char>, Seq<char>>,
    before: Option<Seq<u8>>,
    after: Option<Seq<u8>>,
    result: GuardResult,
    phase: GuardPhase,
    outcome: Result<FilterAction, GuardrailError>,
)
    requires
        recorded(results, new_results, before, after, result@, phase, outcome),
    ensures
        if results.dom().contains("status"@) || results.dom().len() < 128 {
            &&& enforced(before, after, result@, phase, outcome)
            &&& new_results.dom().contains("status"@)
            &&& new_results["status"@] == match result {
                GuardResult::Pass => "passed"@,
                GuardResult::Block { .. } => "blocked"@,
                GuardResult::Redact { .. } => "redacted"@,
            }
            &&& forall|key: Seq<char>|
                key != "status"@ ==> {
                    &&& #[trigger] new_results.dom().contains(key) <==> results.dom().contains(key)
                    &&& results.dom().contains(key) ==> new_results[key] == results[key]
                }
        } else {
            &&& outcome matches Err(GuardrailError::Results { detail })
            &&& detail@ == "result set is full (max 128 entries)"@
            &&& new_results == results
            &&& after == before
        },
{
}

} // verus!
