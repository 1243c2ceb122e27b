//! The guardrails filter: when it looks at a body, and what it does then.
use vstd::prelude::*;

use bytes::Bytes;
use praxis_filter::FilterResultSet;

use crate::error::{Failure, GuardrailError};
use crate::extract::{extract_messages, extract_response_messages};
use crate::json::{Json, JsonView};
use crate::media::is_event_stream;
use crate::providers::{GuardPhase, GuardResult};
use crate::verdict::{record_verdict, replace_body_with_error, Action, FilterAction};

verus! {

/// Maximum body size to buffer (1 MiB).
pub const DEFAULT_MAX_BODY_BYTES: usize = 1_048_576;

/// Whether a filter needs access to request or response bodies.
#[derive(Debug, Clone, Copy, PartialEq, Eq, Structural)]
pub enum BodyAccess {
    /// No body access needed.
    NoAccess,
    /// Read-only access.
    ReadOnly,
    /// Read-write access.
    ReadWrite,
}

/// How body chunks are delivered to a filter.
#[derive(Debug, Clone, Copy, PartialEq, Eq)]
pub enum BodyMode {
    /// Chunks are delivered as they arrive.
    Stream,
    /// Chunks are accumulated until the body is complete.
    StreamBuffer {
        /// Maximum body size in bytes.
        max_bytes: Option<usize>,
    },
    /// Chunks are delivered as they arrive, up to a limit.
    SizeLimit {
        /// Maximum body size in bytes.
        max_bytes: usize,
    },
}

/// Which phases to evaluate.
#[derive(Debug, Clone, Copy, PartialEq, Eq, Structural)]
pub struct PhaseConfig {
    /// Evaluate request bodies.
    pub request: bool,
    /// Evaluate response bodies.
    pub response: bool,
}

/// What is done when the headers of a response have arrived.
#[derive(Debug)]
pub struct ResponseStart {
    /// The mode to which the delivery of the body is raised.
    pub body_mode: Option<BodyMode>,
    /// How processing goes on.
    pub action: FilterAction,
}

/// What is done when a chunk of a request body has arrived.
#[derive(Debug)]
pub enum BodyStep {
    /// Let the chunk pass.
    Continue,
    /// Ask the provider for a verdict on these messages.
    Evaluate(Vec<Json>),
}

/// What is done when a chunk of a response body has arrived.
#[derive(Debug)]
pub enum ResponseStep {
    /// Let the chunk pass.
    Continue,
    /// Let the body pass without an evaluation, since it was not buffered.
    Unbuffered,
    /// Ask the provider for a verdict on these messages.
    Evaluate(Vec<Json>),
    /// Continue with a body that now tells this error.
    Replaced(GuardrailError),
}

/// Which messages are to be evaluated, if any, or the error.
pub open spec fn asked(outcome: Result<BodyStep, GuardrailError>) -> Result<
    Option<Seq<JsonView>>,
    Failure,
> {
    match outcome {
        Ok(BodyStep::Continue) => Ok(None),
        Ok(BodyStep::Evaluate(messages)) => Ok(Some(crate::json::items_model(messages@))),
        Err(error) => Err(error@),
    }
}

/// The response has a content type header that names an event stream.
pub open spec fn announces_event_stream(content_type: Option<Seq<u8>>) -> bool {
    &&& content_type matches Some(raw)
    &&& crate::media::header_text(raw) matches Some(text)
    &&& crate::media::names_event_stream(text)
}

/// There are bytes to look at.
pub open spec fn has_bytes(body: Option<Seq<u8>>) -> bool {
    body matches Some(raw) && raw.len() > 0
}

/// The error document for a response that could not be evaluated.
pub open spec fn unevaluated_document(detail: Seq<char>) -> JsonView {
    crate::verdict::error_document(
        "Guardrail evaluation failed: "@ + detail,
        "guardrail_error"@,
        "evaluation_failed"@,
    )
}

/// Decides which request and response bodies an external AI guardrail provider
/// evaluates, and enforces its verdicts. The provider determines whether
/// content is passed, blocked, or redacted.
///
/// Bodies are in the Chat Completions format: `messages` on requests,
/// `choices[].message` on responses.
#[derive(Debug, Clone, Copy, PartialEq, Eq)]
pub struct AiGuardrailsFilter {
    /// Which phases to evaluate.
    pub phase: PhaseConfig,
}

impl AiGuardrailsFilter {
    /// A filter for the given phases.
    pub fn new(phase: PhaseConfig) -> (filter: AiGuardrailsFilter)
        ensures
            filter.phase == phase,
    {
        AiGuardrailsFilter { phase }
    }

    /// The name under which the filter is configured and reports its results.
    pub fn name(&self) -> (name: &'static str)
        ensures
            name@ == "ai_guardrails"@,
    {
        "ai_guardrails"
    }

    /// The headers of a request are let pass.
    pub fn on_request(&self) -> (action: FilterAction)
        ensures
            action@ == Action::Continue,
    {
        FilterAction::Continue
    }

    /// A response is buffered if responses are evaluated, unless it is an event
    /// stream.
    pub fn on_response(&self, content_type: Option<&[u8]>) -> (start: ResponseStart)
        ensures
            start.action@ == Action::Continue,
            start.body_mode == self.raised_mode(
                match content_type {
                    Some(raw) => Some(raw@),
                    None => None,
                },
            ),
    {
        let body_mode = if self.phase.response && !is_event_stream(content_type) {
            Some(BodyMode::StreamBuffer { max_bytes: Some(DEFAULT_MAX_BODY_BYTES) })
        } else {
            None
        };
        ResponseStart { body_mode, action: FilterAction::Continue }
    }

    /// Request bodies are read and rewritten.
    pub fn request_body_access(&self) -> (access: BodyAccess)
        ensures
            access == BodyAccess::ReadWrite,
    {
        BodyAccess::ReadWrite
    }

    /// Request bodies are buffered.
    pub fn request_body_mode(&self) -> (mode: BodyMode)
        ensures
            mode == (BodyMode::StreamBuffer { max_bytes: Some(DEFAULT_MAX_BODY_BYTES) }),
    {
        BodyMode::StreamBuffer { max_bytes: Some(DEFAULT_MAX_BODY_BYTES) }
    }

    /// Response bodies are read and rewritten if they are evaluated.
    pub fn response_body_access(&self) -> (access: BodyAccess)
        ensures
            access == if self.phase.response {
                BodyAccess::ReadWrite
            } else {
                BodyAccess::NoAccess
            },
    {
        if self.phase.response {
            BodyAccess::ReadWrite
        } else {
            BodyAccess::NoAccess
        }
    }

    /// Response bodies are delivered as they arrive, until the headers tell
    /// more.
    pub fn response_body_mode(&self) -> (mode: BodyMode)
        ensures
            mode == BodyMode::Stream,
    {
        BodyMode::Stream
    }

    /// The request body is to be evaluated.
    pub open spec fn evaluates_request(self, body: Option<Seq<u8>>, end_of_stream: bool) -> bool {
        end_of_stream && self.phase.request && has_bytes(body)
    }

    /// The response body is to be evaluated: it was fully buffered.
    pub open spec fn evaluates_response(
        self,
        mode: BodyMode,
        body: Option<Seq<u8>>,
        end_of_stream: bool,
    ) -> bool {
        end_of_stream && self.phase.response && mode is StreamBuffer && has_bytes(body)
    }

    /// What is evaluated when a request body has arrived up to here, if
    /// anything, or the error.
    pub open spec fn request_step(self, body: Option<Seq<u8>>, end_of_stream: bool) -> Result<
        Option<Seq<JsonView>>,
        Failure,
    > {
        if self.evaluates_request(body, end_of_stream) {
            match crate::extract::request_evaluated(body->Some_0) {
                Ok(messages) => Ok(Some(messages)),
                Err(failure) => Err(failure),
            }
        } else {
            Ok(None)
        }
    }

    /// What is evaluated when a response body has arrived up to here, if
    /// anything, or the error.
    pub open spec fn response_step(
        self,
        mode: BodyMode,
        body: Option<Seq<u8>>,
        end_of_stream: bool,
    ) -> Result<Option<Seq<JsonView>>, Failure> {
        if self.evaluates_response(mode, body, end_of_stream) {
            match crate::extract::response_evaluated(body->Some_0) {
                Ok(messages) => Ok(Some(messages)),
                Err(failure) => Err(failure),
            }
        } else {
            Ok(None)
        }
    }

    /// The complete response body is not evaluated because it was not buffered.
    pub open spec fn skips_response(self, mode: BodyMode, end_of_stream: bool) -> bool {
        end_of_stream && self.phase.response && mode !is StreamBuffer
    }

    /// The mode to which the delivery of a response body is raised, by the bytes
    /// of the content type header.
    pub open spec fn raised_mode(self, content_type: Option<Seq<u8>>) -> Option<BodyMode> {
        if self.phase.response && !announces_event_stream(content_type) {
            Some(BodyMode::StreamBuffer { max_bytes: Some(DEFAULT_MAX_BODY_BYTES) })
        } else {
            None
        }
    }

    /// A request body has arrived, up to here: once it is complete, its
    /// messages are to be evaluated. A body that is not recognized is an error.
    pub fn on_request_body(&self, body: &Option<Bytes>, end_of_stream: bool) -> (outcome: Result<
        BodyStep,
        GuardrailError,
    >)
        ensures
            asked(outcome) == self.request_step(crate::framing::content(*body), end_of_stream),
    {
        if !end_of_stream {
            return Ok(BodyStep::Continue);
        }
        if !self.phase.request {
            return Ok(BodyStep::Continue);
        }
        match body {
            None => Ok(BodyStep::Continue),
            Some(bytes) => {
                if bytes.is_empty() {
                    return Ok(BodyStep::Continue);
                }
                match extract_messages(bytes) {
                    Ok(messages) => Ok(BodyStep::Evaluate(messages)),
                    Err(error) => Err(error),
                }
            },
        }
    }

    /// The provider's verdict on the messages of a request has arrived.
    pub fn on_request_verdict(
        &self,
        results: &mut FilterResultSet,
        body: &mut Option<Bytes>,
        result: GuardResult,
    ) -> (outcome: Result<FilterAction, GuardrailError>)
        ensures
            crate::verdict::recorded(
                crate::results::reported(*old(results)),
                crate::results::reported(*final(results)),
                crate::framing::content(*old(body)),
                crate::framing::content(*final(body)),
                result@,
                GuardPhase::Request,
                outcome,
            ),
    {
        record_verdict(results, body, result, GuardPhase::Request)
    }

    /// The provider has evaluated the messages of a request, with a verdict or
    /// with an error, given in words. On an error the request is refused with it.
    pub fn on_request_evaluation(
        &self,
        results: &mut FilterResultSet,
        body: &mut Option<Bytes>,
        evaluation: Result<GuardResult, String>,
    ) -> (outcome: Result<FilterAction, GuardrailError>)
        ensures
            match evaluation {
                Ok(result) => crate::verdict::recorded(
                    crate::results::reported(*old(results)),
                    crate::results::reported(*final(results)),
                    crate::framing::content(*old(body)),
                    crate::framing::content(*final(body)),
                    result@,
                    GuardPhase::Request,
                    outcome,
                ),
                Err(detail) => {
                    &&& outcome matches Err(error) && error@ == (Failure::Provider {
                        detail: detail@,
                    })
                    &&& *final(body) == *old(body)
                    &&& *final(results) == *old(results)
                },
            },
    {
        match evaluation {
            Ok(result) => self.on_request_verdict(results, body, result),
            Err(detail) => Err(GuardrailError::Provider { detail }),
        }
    }

    /// A response body has arrived, up to here: once it is complete, its
    /// messages are to be evaluated, if it was buffered. Event streams are not,
    /// and are let pass. A body that is not recognized is replaced with one
    /// that tells the error.
    pub fn on_response_body(
        &self,
        mode: BodyMode,
        body: &mut Option<Bytes>,
        end_of_stream: bool,
    ) -> (step: ResponseStep)
        ensures
            match self.response_step(mode, crate::framing::content(*old(body)), end_of_stream) {
                Ok(None) => {
                    &&& step == if self.skips_response(mode, end_of_stream) {
                        ResponseStep::Unbuffered
                    } else {
                        ResponseStep::Continue
                    }
                    &&& *final(body) == *old(body)
                },
                Ok(Some(messages)) => {
                    &&& step matches ResponseStep::Evaluate(items) && crate::json::items_model(
                        items@,
                    ) == messages
                    &&& *final(body) == *old(body)
                },
                Err(failure) => {
                    &&& step matches ResponseStep::Replaced(error) && error@ == failure
                    &&& crate::verdict::told(
                        crate::framing::content(*old(body)),
                        crate::framing::content(*final(body)),
                        unevaluated_document(failure.text()),
                    )
                },
            },
    {
        if !end_of_stream || !self.phase.response {
            return ResponseStep::Continue;
        }
        if !matches!(mode, BodyMode::StreamBuffer { .. }) {
            return ResponseStep::Unbuffered;
        }
        let extracted = match body {
            None => {
                return ResponseStep::Continue;
            },
            Some(bytes) => {
                if bytes.is_empty() {
                    return ResponseStep::Continue;
                }
                extract_response_messages(bytes)
            },
        };
        match extracted {
            Ok(messages) => ResponseStep::Evaluate(messages),
            Err(error) => {
                tell_failure(body, error.message().as_str());
                ResponseStep::Replaced(error)
            },
        }
    }

    /// The provider has evaluated the messages of a response, with a verdict or
    /// with an error, given in words. On an error the body is replaced with one
    /// that tells it.
    pub fn on_response_evaluation(
        &self,
        results: &mut FilterResultSet,
        body: &mut Option<Bytes>,
        evaluation: Result<GuardResult, String>,
    ) -> (outcome: Result<FilterAction, GuardrailError>)
        ensures
            match evaluation {
                Ok(result) => crate::verdict::recorded(
                    crate::results::reported(*old(results)),
                    crate::results::reported(*final(results)),
                    crate::framing::content(*old(body)),
                    crate::framing::content(*final(body)),
                    result@,
                    GuardPhase::Response,
                    outcome,
                ),
                Err(detail) => {
                    &&& outcome matches Ok(action) && action@ == Action::Continue
                    &&& *final(results) == *old(results)
                    &&& crate::verdict::told(
                        crate::framing::content(*old(body)),
                        crate::framing::content(*final(body)),
                        unevaluated_document(detail@),
                    )
                },
            },
    {
        match evaluation {
            Ok(result) => record_verdict(results, body, result, GuardPhase::Response),
            Err(detail) => {
                tell_failure(body, detail.as_str());
                Ok(FilterAction::Continue)
            },
        }
    }
}

/// Replaces a response body with one that tells why the response could not be
/// evaluated.
fn tell_failure(body: &mut Option<Bytes>, detail: &str)
    ensures
        crate::verdict::told(
            crate::framing::content(*old(body)),
            crate::framing::content(*final(body)),
            unevaluated_document(detail@),
        ),
{
    let mut message: String = "Guardrail evaluation failed: ".to_owned();
    message.append(detail);
    replace_body_with_error(body, message.as_str(), "guardrail_error", "evaluation_failed");
}

/// With the request phase on, no complete request body slips through: it is
/// evaluated or refused, unless it is empty or missing.
pub proof fn law_no_request_slips_through(filter: AiGuardrailsFilter, body: Option<Seq<u8>>)
    requires
        filter.phase.request,
    ensures
        filter.request_step(body, true) == Ok::<Option<Seq<JsonView>>, Failure>(None)
            <==> !has_bytes(body),
{
}

/// A body is looked at only once it is complete, and only in the phases that
/// are switched on.
pub proof fn law_only_complete_bodies_of_the_phase(
    filter: AiGuardrailsFilter,
    mode: BodyMode,
    body: Option<Seq<u8>>,
    end_of_stream: bool,
)
    ensures
        !end_of_stream || !filter.phase.request ==> filter.request_step(body, end_of_stream)
            == Ok::<Option<Seq<JsonView>>, Failure>(None),
        !end_of_stream || !filter.phase.response ==> filter.response_step(
            mode,
            body,
            end_of_stream,
        ) == Ok::<Option<Seq<JsonView>>, Failure>(None),
{
}

/// A response that is delivered as a stream is not evaluated, and the delivery
/// of an event stream is left as it is.
pub proof fn law_event_streams_are_left_alone(
    filter: AiGuardrailsFilter,
    content_type: Option<Seq<u8>>,
    mode: BodyMode,
    body: Option<Seq<u8>>,
    end_of_stream: bool,
)
    requires
        announces_event_stream(content_type),
        mode !is StreamBuffer,
    ensures
        filter.raised_mode(content_type) is None,
        filter.response_step(mode, body, end_of_stream) == Ok::<Option<Seq<JsonView>>, Failure>(
            None,
        ),
{
}

/// A content type that cannot be read as text is not that of an event stream:
/// the response is buffered if responses are evaluated.
pub proof fn law_unreadable_content_type_is_buffered(filter: AiGuardrailsFilter, raw: Seq<u8>)
    requires
        filter.phase.response,
        crate::media::header_text(raw) is None,
    ensures
        filter.raised_mode(Some(raw)) is Some,
{
}

/// A response that was buffered because its headers asked for it is evaluated
/// once it is complete, or replaced with an error, unless it is empty or
/// missing.
pub proof fn law_buffered_responses_are_evaluated(
    filter: AiGuardrailsFilter,
    content_type: Option<Seq<u8>>,
    body: Option<Seq<u8>>,
)
    requires
        filter.raised_mode(content_type) is Some,
    ensures
        filter.response_step(filter.raised_mode(content_type)->Some_0, body, true) == Ok::<
            Option<Seq<JsonView>>,
            Failure,
        >(None) <==> !has_bytes(body),
{
}

/// A response body that is replaced by an error keeps its announced length.
pub proof fn law_told_length_is_kept(
    before: Option<Seq<u8>>,
    after: Option<Seq<u8>>,
    document: JsonView,
)
    requires
        crate::verdict::told(before, after, document),
    ensures
        crate::framing::committed(after) == crate::framing::committed(before),
{
    crate::framing::law_fitted_length(
        crate::wire::displayed(document),
        crate::framing::committed(before),
    );
}

/// A request body goes to the provider once it is complete, if requests are
/// evaluated and there are bytes in it: all of the array under `messages`, in
/// its order. A body that is not JSON or has no such array is refused, and
/// every other is let pass.
pub proof fn law_request_bodies_are_evaluated_or_refused(
    filter: AiGuardrailsFilter,
    body: Option<Bytes>,
    end_of_stream: bool,
    outcome: Result<BodyStep, GuardrailError>,
)
    requires
        asked(outcome) == filter.request_step(crate::framing::content(body), end_of_stream),
    ensures
        match body {
            None => outcome matches Ok(BodyStep::Continue),
            Some(bytes) => {
                let raw = crate::framing::octets(bytes);
                if !end_of_stream || !filter.phase.request || raw.len() == 0 {
                    outcome matches Ok(BodyStep::Continue)
                } else {
                    match crate::wire::parsed(raw) {
                        Err(words) => outcome matches Err(
                            GuardrailError::InvalidJson { phase: GuardPhase::Request, detail },
                        ) && detail@ == words,
                        Ok(document) => if document is Object
                            && document->Object_0.dom().contains("messages"@)
                            && document->Object_0["messages"@] is Array {
                            let messages = document->Object_0["messages"@]->Array_0;
                            &&& outcome matches Ok(BodyStep::Evaluate(items))
                            &&& items@.len() == messages.len()
                            &&& forall|i: int|
                                0 <= i < messages.len() ==> (#[trigger] items@[i])@ == messages[i]
                        } else {
                            outcome matches Err(GuardrailError::NoMessages)
                        },
                    }
                }
            },
        },
{
    if let Ok(BodyStep::Evaluate(items)) = outcome {
        assert(crate::json::items_model(items@).len() == items@.len());
        assert forall|i: int| 0 <= i < items@.len() implies (#[trigger] items@[i])@
            == crate::json::items_model(items@)[i] by {}
    }
}

/// A response body goes to the provider once it is complete, if responses are
/// evaluated, it was buffered and there are bytes in it: the message of every
/// choice, in the order of the choices. A body that is not JSON, or where not
/// every choice has a message, is an error, and every other is let pass. One
/// that is let pass because it was not buffered is told from the others.
pub proof fn law_response_bodies_are_evaluated_or_errors(
    filter: AiGuardrailsFilter,
    mode: BodyMode,
    body: Option<Seq<u8>>,
    end_of_stream: bool,
    has_message: spec_fn(JsonView) -> bool,
)
    requires
        forall|choice: JsonView| #[trigger]
            has_message(choice) <==> choice is Object && choice->Object_0.dom().contains(
                "message"@,
            ),
    ensures
        filter.skips_response(mode, end_of_stream) <==> {
            &&& end_of_stream
            &&& filter.phase.response
            &&& (mode is Stream || mode is SizeLimit)
        },
        ({
            let step = filter.response_step(mode, body, end_of_stream);
            if !end_of_stream || !filter.phase.response || mode is Stream || mode is SizeLimit
                || body is None || body->Some_0.len() == 0 {
                step == Ok::<Option<Seq<JsonView>>, Failure>(None)
            } else {
                match crate::wire::parsed(body->Some_0) {
                    Err(words) => step matches Err(
                        Failure::InvalidJson { phase: GuardPhase::Response, detail },
                    ) && detail == words,
                    Ok(document) => if document is Object
                        && document->Object_0.dom().contains("choices"@)
                        && document->Object_0["choices"@] is Array {
                        let choices = document->Object_0["choices"@]->Array_0;
                        let count = choices.filter(has_message).len();
                        if count == 0 {
                            step matches Err(Failure::NoChoices)
                        } else if count < choices.len() {
                            &&& step matches Err(
                                Failure::IncompleteChoices { choices: all, messages: some },
                            )
                            &&& all == choices.len()
                            &&& some == count
                        } else {
                            &&& step matches Ok(Some(messages))
                            &&& messages.len() == choices.len()
                            &&& forall|i: int|
                                0 <= i < choices.len() ==> has_message(#[trigger] choices[i])
                            &&& forall|i: int|
                                0 <= i < choices.len() ==> #[trigger] messages[i]
                                    == choices[i]->Object_0["message"@]
                        }
                    } else {
                        step matches Err(Failure::NoChoices)
                    },
                }
            }
        }),
{
    if let Some(raw) = body {
        if let Ok(document) = crate::wire::parsed(raw) {
            crate::extract::law_messages_are_those_of_the_choices(document, has_message);
        }
    }
}

/// A response is buffered, up to 1 MiB, exactly if responses are evaluated and
/// it has no content type that reads as that of an event stream.
pub proof fn law_responses_are_buffered(filter: AiGuardrailsFilter, content_type: Option<Seq<u8>>)
    ensures
        ({
            let event_stream = match content_type {
                None => false,
                Some(raw) => match crate::media::header_text(raw) {
                    None => false,
                    Some(text) => crate::media::names_event_stream(text),
                },
            };
            if filter.phase.response && !event_stream {
                &&& filter.raised_mode(content_type) matches Some(
                    BodyMode::StreamBuffer { max_bytes: Some(limit) },
                )
                &&& limit == 1_048_576
            } else {
                filter.raised_mode(content_type) is None
            }
        }),
{
}

/// The client of a response that could not be evaluated is told why, in an
/// error at the length of the old body. Nothing of that body is in it.
pub proof fn law_unevaluated_responses_are_replaced(
    before: Option<Seq<u8>>,
    after: Option<Seq<u8>>,
    words: Seq<char>,
)
    requires
        crate::verdict::told(before, after, unevaluated_document(words)),
    ensures
        ({
            let document = JsonView::Object(
                map![
                    "error"@ => JsonView::Object(
                        map![
                            "message"@ => JsonView::Text("Guardrail evaluation failed: "@ + words),
                            "type"@ => JsonView::Text("guardrail_error"@),
                            "code"@ => JsonView::Text("evaluation_failed"@),
                        ],
                    ),
                ],
            );
            let length = match before {
                Some(raw) => raw.len(),
                None => 0,
            };
            &&& after matches Some(raw)
            &&& raw == crate::framing::fitted(crate::wire::displayed(document), length)
            &&& raw.len() == length
            &&& vstd::utf8::encode_utf8(crate::wire::displayed(document)).len() <= length
                ==> crate::wire::parsed(raw) == Ok::<JsonView, Seq<char>>(document)
        }),
{
    crate::verdict::law_told_errors_replace_the_body(
        before,
        after,
        "Guardrail evaluation failed: "@ + words,
        "guardrail_error"@,
        "evaluation_failed"@,
    );
}

/// The messages that go to the provider are spoken of as they are, and so is an
/// error.
pub proof fn law_steps_are_spoken_of_as_they_are(outcome: Result<BodyStep, GuardrailError>)
    ensures
        match outcome {
            Ok(BodyStep::Continue) => asked(outcome) matches Ok(None),
            Ok(BodyStep::Evaluate(items)) => {
                &&& asked(outcome) matches Ok(Some(said))
                &&& said.len() == items@.len()
                &&& forall|i: int| 0 <= i < said.len() ==> #[trigger] said[i] == items@[i]@
            },
            Err(error) => asked(outcome) matches Err(failure) && failure == error@,
        },
{
}

} // verus!
