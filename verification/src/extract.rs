//! Finding the messages in Chat Completion bodies.
use vstd::prelude::*;

use bytes::Bytes;

use crate::error::{Failure, GuardrailError};
use crate::framing::bytes_as_slice;
use crate::json::{take_member, Json, JsonView};
use crate::providers::GuardPhase;

verus! {

/// The elements of a document that is an array.
pub open spec fn elements(document: JsonView) -> Option<Seq<JsonView>> {
    match document {
        JsonView::Array(items) => Some(items),
        _ => None,
    }
}

/// The array that an object has under a key.
pub open spec fn array_member(document: JsonView, key: Seq<char>) -> Option<Seq<JsonView>> {
    match document.get(key) {
        Some(member) => elements(member),
        None => None,
    }
}

/// The messages of a chat request: `{"messages": [...]}`.
pub open spec fn messages_of(document: JsonView) -> Option<Seq<JsonView>> {
    array_member(document, "messages"@)
}

/// The choices of a chat response: `{"choices": [...]}`.
pub open spec fn choices_of(document: JsonView) -> Option<Seq<JsonView>> {
    array_member(document, "choices"@)
}

/// The message of a choice: `{"message": ...}`.
pub open spec fn message_of(choice: JsonView) -> Option<JsonView> {
    choice.get("message"@)
}

/// How many of the choices have a message.
pub open spec fn message_count(choices: Seq<JsonView>) -> nat
    decreases choices.len(),
{
    if choices.len() == 0 {
        0
    } else {
        message_count(choices.drop_last()) + if message_of(choices.last()) is Some {
            1nat
        } else {
            0nat
        }
    }
}

/// The message of every choice, where each has one.
pub open spec fn each_message(choices: Seq<JsonView>) -> Seq<JsonView> {
    Seq::new(choices.len(), |i: int| message_of(choices[i])->Some_0)
}

/// What is evaluated of a request document.
pub open spec fn request_messages(document: JsonView) -> Result<Seq<JsonView>, Failure> {
    match messages_of(document) {
        Some(messages) => Ok(messages),
        None => Err(Failure::NoMessages),
    }
}

/// What is evaluated of a response document: the message of every choice.
pub open spec fn response_messages(document: JsonView) -> Result<Seq<JsonView>, Failure> {
    match choices_of(document) {
        None => Err(Failure::NoChoices),
        Some(choices) => if message_count(choices) == 0 {
            Err(Failure::NoChoices)
        } else if message_count(choices) != choices.len() {
            Err(
                Failure::IncompleteChoices {
                    choices: choices.len(),
                    messages: message_count(choices),
                },
            )
        } else {
            Ok(each_message(choices))
        },
    }
}

/// What is evaluated of a request body.
pub open spec fn request_evaluated(raw: Seq<u8>) -> Result<Seq<JsonView>, Failure> {
    match crate::wire::parsed(raw) {
        Ok(document) => request_messages(document),
        Err(detail) => Err(Failure::InvalidJson { phase: GuardPhase::Request, detail }),
    }
}

/// What is evaluated of a response body.
pub open spec fn response_evaluated(raw: Seq<u8>) -> Result<Seq<JsonView>, Failure> {
    match crate::wire::parsed(raw) {
        Ok(document) => response_messages(document),
        Err(detail) => Err(Failure::InvalidJson { phase: GuardPhase::Response, detail }),
    }
}

/// A list of documents or an error, as the contracts speak of it.
pub open spec fn listed(outcome: Result<Vec<Json>, GuardrailError>) -> Result<
    Seq<JsonView>,
    Failure,
> {
    match outcome {
        Ok(items) => Ok(crate::json::items_model(items@)),
        Err(error) => Err(error@),
    }
}

/// Extracts the messages from the document of a chat request.
pub fn extract_messages_from(document: Json) -> (outcome: Result<Vec<Json>, GuardrailError>)
    ensures
        listed(outcome) == request_messages(document@),
{
    if let Json::Object(mut entries) = document {
        if let Some(Json::Array(messages)) = take_member(&mut entries, "messages") {
            return Ok(messages);
        }
    }
    Err(GuardrailError::NoMessages)
}

/// Extracts messages from an OpenAI Chat Completion request body.
///
/// Returns an error for unrecognized body formats to prevent silently skipping
/// guardrail evaluation.
pub fn extract_messages(body: &Bytes) -> (outcome: Result<Vec<Json>, GuardrailError>)
    ensures
        listed(outcome) == request_evaluated(crate::framing::octets(*body)),
{
    match Json::parse(bytes_as_slice(body)) {
        Ok(document) => extract_messages_from(document),
        Err(detail) => Err(GuardrailError::InvalidJson { phase: GuardPhase::Request, detail }),
    }
}

/// Extracts the assistant messages from the document of a chat response.
pub fn extract_response_messages_from(document: Json) -> (outcome: Result<
    Vec<Json>,
    GuardrailError,
>)
    ensures
        listed(outcome) == response_messages(document@),
{
    if let Json::Object(mut entries) = document {
        if let Some(Json::Array(choices)) = take_member(&mut entries, "choices") {
            let num_choices: usize = choices.len();
            let ghost all = crate::json::items_model(choices@);
            let ghost given = choices@;
            let mut messages: Vec<Json> = Vec::new();
            for choice in it: choices
                invariant
                    it.seq() == given,
                    all == crate::json::items_model(given),
                    messages@.len() == message_count(all.take(it.index() as int)),
                    messages@.len() <= it.index(),
                    messages@.len() == it.index() ==> crate::json::items_model(messages@)
                        == each_message(all.take(it.index() as int)),
            {
                let ghost i = it.index() as int;
                assert(all.take(i + 1).drop_last() =~= all.take(i));
                assert(all[i] == choice@);
                let ghost before = messages@;
                if let Json::Object(mut fields) = choice {
                    if let Some(message) = take_member(&mut fields, "message") {
                        messages.push(message);
                    }
                }
                proof {
                    if messages@.len() == i + 1 {
                        let so_far = each_message(all.take(i));
                        assert(crate::json::items_model(before) == so_far);
                        assert forall|j: int| 0 <= j < i + 1 implies (#[trigger] messages@[j]).model()
                            == each_message(all.take(i + 1))[j] by {
                            if j < i {
                                assert(messages@[j] == before[j]);
                                assert(crate::json::items_model(before)[j] == before[j].model());
                                assert(all.take(i)[j] == all.take(i + 1)[j]);
                            }
                        }
                        assert(crate::json::items_model(messages@) =~= each_message(
                            all.take(i + 1),
                        ));
                    }
                }
            }
            assert(all.take(all.len() as int) =~= all);
            if messages.is_empty() {
                return Err(GuardrailError::NoChoices);
            }
            if messages.len() != num_choices {
                return Err(
                    GuardrailError::IncompleteChoices {
                        choices: num_choices,
                        messages: messages.len(),
                    },
                );
            }
            return Ok(messages);
        }
    }
    Err(GuardrailError::NoChoices)
}

/// Extracts assistant messages from an OpenAI Chat Completion response body.
///
/// Each `message` of the `choices` array is returned as it is, so that the
/// guardrail provider sees the full assistant message.
pub fn extract_response_messages(body: &Bytes) -> (outcome: Result<Vec<Json>, GuardrailError>)
    ensures
        listed(outcome) == response_evaluated(crate::framing::octets(*body)),
{
    match Json::parse(bytes_as_slice(body)) {
        Ok(document) => extract_response_messages_from(document),
        Err(detail) => Err(GuardrailError::InvalidJson { phase: GuardPhase::Response, detail }),
    }
}

proof fn lemma_message_count(choices: Seq<JsonView>)
    ensures
        message_count(choices) <= choices.len(),
        message_count(choices) == choices.len() <==> forall|i: int|
            0 <= i < choices.len() ==> message_of(#[trigger] choices[i]) is Some,
    decreases choices.len(),
{
    if choices.len() > 0 {
        let rest = choices.drop_last();
        lemma_message_count(rest);
        if message_count(choices) == choices.len() {
            assert forall|i: int| 0 <= i < choices.len() implies message_of(
                #[trigger] choices[i],
            ) is Some by {
                if i < rest.len() {
                    assert(rest[i] == choices[i]);
                }
            }
        } else if forall|i: int| 0 <= i < choices.len() ==> message_of(#[trigger] choices[i]) is Some {
            assert forall|i: int| 0 <= i < rest.len() implies message_of(#[trigger] rest[i]) is Some by {
                assert(rest[i] == choices[i]);
            }
            assert(message_of(choices[choices.len() - 1]) is Some);
        }
    }
}

/// A response is evaluated exactly if it has choices and every one of them has
/// a message; then as many messages are evaluated as there are choices.
pub proof fn law_every_choice_is_evaluated(document: JsonView)
    ensures
        response_messages(document) is Ok <==> {
            &&& choices_of(document) matches Some(choices)
            &&& choices.len() > 0
            &&& forall|i: int|
                0 <= i < choices.len() ==> message_of(#[trigger] choices[i]) is Some
        },
        response_messages(document) matches Ok(messages) ==> messages.len() == choices_of(
            document,
        )->Some_0.len(),
{
    if let Some(choices) = choices_of(document) {
        lemma_message_count(choices);
    }
}

/// A request body that is not a JSON object with an array of messages is
/// refused: it is never passed on unevaluated.
pub proof fn law_unrecognized_request_is_refused(raw: Seq<u8>)
    ensures
        request_evaluated(raw) is Ok <==> {
            &&& crate::wire::parsed(raw) matches Ok(JsonView::Object(members))
            &&& members.dom().contains("messages"@)
            &&& members["messages"@] is Array
        },
{
}

proof fn lemma_count_filtered(choices: Seq<JsonView>, has_message: spec_fn(JsonView) -> bool)
    requires
        forall|choice: JsonView| #[trigger]
            has_message(choice) <==> message_of(choice) is Some,
    ensures
        message_count(choices) == choices.filter(has_message).len(),
    decreases choices.len(),
{
    reveal(Seq::filter);
    if choices.len() > 0 {
        lemma_count_filtered(choices.drop_last(), has_message);
    }
}

/// What is evaluated of a request document is the array under `messages`, all
/// of it and in its order. A document without such an array is refused.
pub proof fn law_all_messages_are_evaluated(
    document: JsonView,
    outcome: Result<Vec<Json>, GuardrailError>,
)
    requires
        listed(outcome) == request_messages(document),
    ensures
        match document {
            JsonView::Object(members) => if members.dom().contains("messages"@)
                && members["messages"@] is Array {
                let messages = members["messages"@]->Array_0;
                &&& outcome matches Ok(items)
                &&& items@.len() == messages.len()
                &&& forall|i: int| 0 <= i < messages.len() ==> (#[trigger] items@[i])@ == messages[i]
            } else {
                outcome matches Err(GuardrailError::NoMessages)
            },
            _ => outcome matches Err(GuardrailError::NoMessages),
        },
{
    if let Ok(items) = outcome {
        assert forall|i: int| 0 <= i < items@.len() implies (#[trigger] items@[i])@
            == crate::json::items_model(items@)[i] by {}
    }
}

/// What is evaluated of a response document is the message of every choice, in
/// the order of the choices. A document without an array of choices, or with no
/// message in any of them, is refused, and so is one where some choices have a
/// message and others do not: that error tells how many there are of each.
pub proof fn law_messages_are_those_of_the_choices(
    document: JsonView,
    has_message: spec_fn(JsonView) -> bool,
)
    requires
        forall|choice: JsonView| #[trigger]
            has_message(choice) <==> choice is Object && choice->Object_0.dom().contains(
                "message"@,
            ),
    ensures
        ({
            let evaluated = response_messages(document);
            if document is Object && document->Object_0.dom().contains("choices"@)
                && document->Object_0["choices"@] is Array {
                let choices = document->Object_0["choices"@]->Array_0;
                let count = choices.filter(has_message).len();
                if count == 0 {
                    evaluated matches Err(Failure::NoChoices)
                } else if count < choices.len() {
                    &&& evaluated matches Err(
                        Failure::IncompleteChoices { choices: all, messages: some },
                    )
                    &&& all == choices.len()
                    &&& some == count
                } else {
                    &&& evaluated matches Ok(messages)
                    &&& messages.len() == choices.len()
                    &&& forall|i: int|
                        0 <= i < choices.len() ==> has_message(#[trigger] choices[i])
                    &&& forall|i: int|
                        0 <= i < choices.len() ==> #[trigger] messages[i]
                            == choices[i]->Object_0["message"@]
                }
            } else {
                evaluated matches Err(Failure::NoChoices)
            }
        }),
{
    if let Some(choices) = choices_of(document) {
        lemma_count_filtered(choices, has_message);
        lemma_message_count(choices);
        if message_count(choices) == choices.len() {
            assert forall|i: int| 0 <= i < choices.len() implies has_message(
                #[trigger] choices[i],
            ) by {
                assert(message_of(choices[i]) is Some);
            }
        }
    }
}

/// A body that is not JSON is refused in the words of the reader; any other is
/// judged by its document.
pub proof fn law_bodies_are_judged_by_their_documents(raw: Seq<u8>)
    ensures
        match crate::wire::parsed(raw) {
            Ok(document) => {
                &&& request_evaluated(raw) == request_messages(document)
                &&& response_evaluated(raw) == response_messages(document)
            },
            Err(words) => {
                &&& request_evaluated(raw) matches Err(
                    Failure::InvalidJson { phase: GuardPhase::Request, detail },
                ) && detail == words
                &&& response_evaluated(raw) matches Err(
                    Failure::InvalidJson { phase: GuardPhase::Response, detail },
                ) && detail == words
            },
        },
{
}

/// A list or an error is spoken of as it is.
pub proof fn law_outcomes_are_spoken_of_as_they_are(outcome: Result<Vec<Json>, GuardrailError>)
    ensures
        match outcome {
            Ok(items) => {
                &&& listed(outcome) matches Ok(said)
                &&& said.len() == items@.len()
                &&& forall|i: int| 0 <= i < said.len() ==> #[trigger] said[i] == items@[i]@
            },
            Err(error) => listed(outcome) matches Err(failure) && failure == error@,
        },
{
}

} // verus!
