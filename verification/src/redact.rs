//! Rewriting a body with the text that a provider has masked.
use vstd::prelude::*;
use vstd::utf8::*;

use bytes::Bytes;

use crate::error::{Failure, GuardrailError};
use crate::framing::{bytes_as_slice, bytes_from_vec, fit_to_committed_length};
use crate::json::{put_member, take_member, Json, JsonView};
use crate::providers::GuardPhase;

verus! {

/// The message has the given role.
pub open spec fn has_role(message: JsonView, role: Seq<char>) -> bool {
    message.get("role"@) == Some(JsonView::Text(role))
}

/// The index of the last message with the given role.
pub open spec fn last_with_role(messages: Seq<JsonView>, role: Seq<char>) -> Option<int>
    decreases messages.len(),
{
    if messages.len() == 0 {
        None
    } else if has_role(messages.last(), role) {
        Some(messages.len() - 1)
    } else {
        last_with_role(messages.drop_last(), role)
    }
}

/// The index of the last choice that has a message.
pub open spec fn last_with_message(choices: Seq<JsonView>) -> Option<int>
    decreases choices.len(),
{
    if choices.len() == 0 {
        None
    } else if crate::extract::message_of(choices.last()) is Some {
        Some(choices.len() - 1)
    } else {
        last_with_message(choices.drop_last())
    }
}

/// A message with its content replaced; it has to be an object.
pub open spec fn with_content(message: JsonView, text: Seq<char>) -> Result<JsonView, Failure> {
    if message is Object {
        Ok(message.with("content"@, JsonView::Text(text)))
    } else {
        Err(Failure::MessageNotObject)
    }
}

/// A request with the content of its last user message replaced.
pub open spec fn redacted_request(document: JsonView, text: Seq<char>) -> Result<
    JsonView,
    Failure,
> {
    match crate::extract::messages_of(document) {
        None => Err(Failure::NoMessages),
        Some(messages) => match last_with_role(messages, "user"@) {
            None => Err(Failure::NoUserMessage),
            Some(i) => match with_content(messages[i], text) {
                Err(failure) => Err(failure),
                Ok(message) => Ok(
                    document.with("messages"@, JsonView::Array(messages.update(i, message))),
                ),
            },
        },
    }
}

/// A response with the content of its last message replaced.
pub open spec fn redacted_response(document: JsonView, text: Seq<char>) -> Result<
    JsonView,
    Failure,
> {
    match crate::extract::choices_of(document) {
        None => Err(Failure::NoChoices),
        Some(choices) => match last_with_message(choices) {
            None => Err(Failure::NoAssistantMessage),
            Some(i) => match with_content(
                crate::extract::message_of(choices[i])->Some_0,
                text,
            ) {
                Err(failure) => Err(failure),
                Ok(message) => Ok(
                    document.with(
                        "choices"@,
                        JsonView::Array(choices.update(i, choices[i].with("message"@, message))),
                    ),
                ),
            },
        },
    }
}

/// The document of a body that is to be redacted.
pub open spec fn body_document(body: Option<Seq<u8>>, phase: GuardPhase) -> Result<
    JsonView,
    Failure,
> {
    match body {
        None => Err(Failure::MissingBody { phase }),
        Some(raw) => match crate::wire::parsed(raw) {
            Ok(document) => Ok(document),
            Err(detail) => Err(Failure::InvalidJson { phase, detail }),
        },
    }
}

/// The document that a redaction puts in place of a body.
pub open spec fn redacted_body(
    body: Option<Seq<u8>>,
    text: Seq<char>,
    phase: GuardPhase,
) -> Result<JsonView, Failure> {
    match body_document(body, phase) {
        Err(failure) => Err(failure),
        Ok(document) => match phase {
            GuardPhase::Request => redacted_request(document, text),
            GuardPhase::Response => redacted_response(document, text),
        },
    }
}

/// A document or an error, as the contracts speak of it.
pub open spec fn shown(outcome: Result<Json, GuardrailError>) -> Result<JsonView, Failure> {
    match outcome {
        Ok(document) => Ok(document@),
        Err(error) => Err(error@),
    }
}

/// Finds the last message with the given role.
pub fn last_message_with_role(messages: &Vec<Json>, role: &str) -> (found: Option<usize>)
    ensures
        match found {
            Some(i) => last_with_role(crate::json::items_model(messages@), role@) == Some(i as int),
            None => last_with_role(crate::json::items_model(messages@), role@) is None,
        },
        found matches Some(i) ==> i < messages@.len(),
{
    let wanted: String = role.to_owned();
    let ghost all = crate::json::items_model(messages@);
    let mut i: usize = messages.len();
    assert(all.take(all.len() as int) =~= all);
    while i > 0
        invariant
            i <= messages@.len(),
            all == crate::json::items_model(messages@),
            wanted@ == role@,
            last_with_role(all, role@) == last_with_role(all.take(i as int), role@),
        decreases i,
    {
        i = i - 1;
        assert(all.take(i + 1).drop_last() =~= all.take(i as int));
        assert(all.take(i + 1).last() == messages@[i as int]@);
        if let Some(Json::String(text)) = messages[i].get("role") {
            if *text == wanted {
                return Some(i);
            }
        }
    }
    None
}

/// Replaces the content of a message.
pub fn set_message_content(message: Json, modified_text: String) -> (outcome: Result<
    Json,
    GuardrailError,
>)
    ensures
        shown(outcome) == with_content(message@, modified_text@),
{
    if let Json::Object(mut fields) = message {
        put_member(&mut fields, "content", Json::String(modified_text));
        Ok(Json::Object(fields))
    } else {
        Err(GuardrailError::MessageNotObject)
    }
}

/// Replaces the last user message's `content` in the document of a request.
pub fn redact_request(document: Json, modified_text: String) -> (outcome: Result<
    Json,
    GuardrailError,
>)
    ensures
        shown(outcome) == redacted_request(document@, modified_text@),
{
    if let Json::Object(mut entries) = document {
        let ghost members = crate::json::entries_model(entries@);
        if let Some(Json::Array(mut messages)) = take_member(&mut entries, "messages") {
            let ghost all = crate::json::items_model(messages@);
            return match last_message_with_role(&messages, "user") {
                None => Err(GuardrailError::NoUserMessage),
                Some(i) => {
                    let message = messages.remove(i);
                    match set_message_content(message, modified_text) {
                        Err(error) => Err(error),
                        Ok(message) => {
                            let ghost replaced = message@;
                            messages.insert(i, message);
                            assert(crate::json::items_model(messages@) =~= all.update(
                                i as int,
                                replaced,
                            ));
                            put_member(&mut entries, "messages", Json::Array(messages));
                            assert(crate::json::entries_model(entries@) =~= members.insert(
                                "messages"@,
                                JsonView::Array(all.update(i as int, replaced)),
                            ));
                            Ok(Json::Object(entries))
                        },
                    }
                },
            };
        }
    }
    Err(GuardrailError::NoMessages)
}

/// Finds the last choice that has a message.
pub fn last_choice_with_message(choices: &Vec<Json>) -> (found: Option<usize>)
    ensures
        match found {
            Some(i) => last_with_message(crate::json::items_model(choices@)) == Some(i as int),
            None => last_with_message(crate::json::items_model(choices@)) is None,
        },
        found matches Some(i) ==> i < choices@.len(),
{
    let ghost all = crate::json::items_model(choices@);
    let mut i: usize = choices.len();
    assert(all.take(all.len() as int) =~= all);
    while i > 0
        invariant
            i <= choices@.len(),
            all == crate::json::items_model(choices@),
            last_with_message(all) == last_with_message(all.take(i as int)),
        decreases i,
    {
        i = i - 1;
        assert(all.take(i + 1).drop_last() =~= all.take(i as int));
        assert(all.take(i + 1).last() == choices@[i as int]@);
        if choices[i].get("message").is_some() {
            return Some(i);
        }
    }
    None
}

/// Replaces the last choice message's `content` in the document of a response.
pub fn redact_response(document: Json, modified_text: String) -> (outcome: Result<
    Json,
    GuardrailError,
>)
    ensures
        shown(outcome) == redacted_response(document@, modified_text@),
{
    if let Json::Object(mut entries) = document {
        let ghost members = crate::json::entries_model(entries@);
        if let Some(Json::Array(mut choices)) = take_member(&mut entries, "choices") {
            let ghost all = crate::json::items_model(choices@);
            if let Some(i) = last_choice_with_message(&choices) {
                let choice = choices.remove(i);
                proof {
                    lemma_last_with_message(all);
                    assert(choice@ == all[i as int]);
                }
                if let Json::Object(mut fields) = choice {
                    let ghost parts = crate::json::entries_model(fields@);
                    if let Some(message) = take_member(&mut fields, "message") {
                        return match set_message_content(message, modified_text) {
                            Err(error) => Err(error),
                            Ok(message) => {
                                let ghost replaced = message@;
                                put_member(&mut fields, "message", message);
                                assert(crate::json::entries_model(fields@) =~= parts.insert(
                                    "message"@,
                                    replaced,
                                ));
                                let choice = Json::Object(fields);
                                let ghost chosen = choice@;
                                choices.insert(i, choice);
                                assert(crate::json::items_model(choices@) =~= all.update(
                                    i as int,
                                    chosen,
                                ));
                                put_member(&mut entries, "choices", Json::Array(choices));
                                assert(crate::json::entries_model(entries@) =~= members.insert(
                                    "choices"@,
                                    JsonView::Array(all.update(i as int, chosen)),
                                ));
                                Ok(Json::Object(entries))
                            },
                        };
                    }
                }
            }
            return Err(GuardrailError::NoAssistantMessage);
        }
    }
    Err(GuardrailError::NoChoices)
}

/// Reads the document of a body that is to be redacted.
pub fn parse_json_body(body: &Option<Bytes>, phase: GuardPhase) -> (outcome: Result<
    Json,
    GuardrailError,
>)
    ensures
        shown(outcome) == body_document(crate::framing::content(*body), phase),
{
    match body {
        None => Err(GuardrailError::MissingBody { phase }),
        Some(raw) => match Json::parse(bytes_as_slice(raw)) {
            Ok(document) => Ok(document),
            Err(detail) => Err(GuardrailError::InvalidJson { phase, detail }),
        },
    }
}

/// Replaces the last user message's `content` with `modified_text`.
///
/// On an error the body stays as it is.
pub fn apply_request_redaction(body: &mut Option<Bytes>, modified_text: String) -> (outcome: Result<
    (),
    GuardrailError,
>)
    ensures
        match redacted_body(
            crate::framing::content(*old(body)),
            modified_text@,
            GuardPhase::Request,
        ) {
            Ok(document) => {
                &&& outcome is Ok
                &&& crate::framing::content(*final(body)) == Some(
                    encode_utf8(crate::wire::rendered(document)),
                )
                &&& crate::wire::readable(document) ==> crate::wire::carries(
                    crate::framing::content(*final(body)),
                    document,
                )
            },
            Err(failure) => {
                &&& outcome matches Err(error) && error@ == failure
                &&& *final(body) == *old(body)
            },
        },
{
    match parse_json_body(body, GuardPhase::Request) {
        Err(error) => Err(error),
        Ok(document) => match redact_request(document, modified_text) {
            Err(error) => Err(error),
            Ok(redacted) => match redacted.render() {
                Err(detail) => Err(GuardrailError::Serialization { detail }),
                Ok(text) => {
                    let raw = text.as_str().as_bytes_vec();
                    assert(raw@ + crate::framing::spaces(0) =~= raw@);
                    *body = Some(bytes_from_vec(raw));
                    Ok(())
                },
            },
        },
    }
}

/// Replaces the last choice message's `content` and keeps the committed length.
///
/// On an error the body stays as it is.
pub fn apply_response_redaction(body: &mut Option<Bytes>, modified_text: String) -> (outcome: Result<
    (),
    GuardrailError,
>)
    ensures
        match redacted_body(
            crate::framing::content(*old(body)),
            modified_text@,
            GuardPhase::Response,
        ) {
            Ok(document) => {
                &&& outcome is Ok
                &&& crate::framing::content(*final(body)) == Some(
                    crate::framing::fitted(
                        crate::wire::rendered(document),
                        crate::framing::committed(crate::framing::content(*old(body))),
                    ),
                )
                &&& crate::wire::readable(document) && encode_utf8(
                    crate::wire::rendered(document),
                ).len() <= crate::framing::committed(crate::framing::content(*old(body)))
                    ==> crate::wire::carries(crate::framing::content(*final(body)), document)
            },
            Err(failure) => {
                &&& outcome matches Err(error) && error@ == failure
                &&& *final(body) == *old(body)
            },
        },
{
    match parse_json_body(body, GuardPhase::Response) {
        Err(error) => Err(error),
        Ok(document) => match redact_response(document, modified_text) {
            Err(error) => Err(error),
            Ok(redacted) => match redacted.render() {
                Err(detail) => Err(GuardrailError::Serialization { detail }),
                Ok(text) => {
                    let fit = fit_to_committed_length(text, body);
                    *body = Some(fit);
                    Ok(())
                },
            },
        },
    }
}

proof fn lemma_last_with_role(messages: Seq<JsonView>, role: Seq<char>)
    ensures
        match last_with_role(messages, role) {
            Some(i) => {
                &&& 0 <= i < messages.len()
                &&& has_role(messages[i], role)
                &&& forall|j: int| i < j < messages.len() ==> !has_role(#[trigger] messages[j], role)
            },
            None => forall|j: int|
                0 <= j < messages.len() ==> !has_role(#[trigger] messages[j], role),
        },
    decreases messages.len(),
{
    if messages.len() > 0 {
        let rest = messages.drop_last();
        lemma_last_with_role(rest, role);
        assert forall|j: int|
            last_with_role(rest, role) is None && 0 <= j < rest.len() implies !has_role(
            #[trigger] messages[j],
            role,
        ) by {
            assert(rest[j] == messages[j]);
        }
        if let Some(i) = last_with_role(rest, role) {
            assert forall|j: int| i < j < rest.len() implies !has_role(
                #[trigger] messages[j],
                role,
            ) by {
                assert(rest[j] == messages[j]);
            }
        }
    }
}

proof fn lemma_role_found(messages: Seq<JsonView>, role: Seq<char>, i: int)
    requires
        0 <= i < messages.len(),
        has_role(messages[i], role),
        forall|j: int| i < j < messages.len() ==> !has_role(#[trigger] messages[j], role),
    ensures
        last_with_role(messages, role) == Some(i),
{
    lemma_last_with_role(messages, role);
    if let Some(k) = last_with_role(messages, role) {
        if k < i {
            assert(!has_role(messages[i], role));
        } else if k > i {
            assert(!has_role(messages[k], role));
        }
    }
}

proof fn lemma_last_with_message(choices: Seq<JsonView>)
    ensures
        match last_with_message(choices) {
            Some(i) => {
                &&& 0 <= i < choices.len()
                &&& crate::extract::message_of(choices[i]) is Some
                &&& forall|j: int|
                    i < j < choices.len() ==> crate::extract::message_of(
                        #[trigger] choices[j],
                    ) is None
            },
            None => forall|j: int|
                0 <= j < choices.len() ==> crate::extract::message_of(#[trigger] choices[j]) is None,
        },
    decreases choices.len(),
{
    if choices.len() > 0 {
        let rest = choices.drop_last();
        lemma_last_with_message(rest);
        assert forall|j: int| 0 <= j < rest.len() implies #[trigger] choices[j] == rest[j] by {}
    }
}

proof fn lemma_message_found(choices: Seq<JsonView>, i: int)
    requires
        0 <= i < choices.len(),
        crate::extract::message_of(choices[i]) is Some,
        forall|j: int|
            i < j < choices.len() ==> crate::extract::message_of(#[trigger] choices[j]) is None,
    ensures
        last_with_message(choices) == Some(i),
{
    lemma_last_with_message(choices);
    if let Some(k) = last_with_message(choices) {
        if k < i {
            assert(crate::extract::message_of(choices[i]) is None);
        } else if k > i {
            assert(crate::extract::message_of(choices[k]) is None);
        }
    }
}

proof fn lemma_keys_differ()
    ensures
        "role"@ != "content"@,
        "content"@ != crate::wire::embedding_key(),
{
    reveal_strlit("role");
    reveal_strlit("content");
    reveal_strlit("$serde_json::private::RawValue");
    assert("role"@.len() == 4);
    assert("content"@.len() == 7);
    assert("$serde_json::private::RawValue"@.len() == 30);
}

/// Redacting a request changes the content of the last message with the role
/// `user`, and nothing else: the other messages, the other fields of that
/// message and the other members of the request stay.
pub proof fn law_request_redaction_touches_one_message(document: JsonView, text: Seq<char>)
    requires
        redacted_request(document, text) is Ok,
    ensures
        ({
            let redacted = redacted_request(document, text)->Ok_0;
            let messages = crate::extract::messages_of(document)->Some_0;
            let new_messages = crate::extract::messages_of(redacted)->Some_0;
            let i = last_with_role(messages, "user"@)->Some_0;
            &&& crate::extract::messages_of(redacted) is Some
            &&& forall|key: Seq<char>|
                key != "messages"@ ==> #[trigger] redacted.get(key) == document.get(key)
            &&& new_messages.len() == messages.len()
            &&& 0 <= i < messages.len()
            &&& forall|j: int|
                0 <= j < messages.len() && j != i ==> #[trigger] new_messages[j] == messages[j]
            &&& last_with_role(new_messages, "user"@) == Some(i)
            &&& new_messages[i].get("content"@) == Some(JsonView::Text(text))
            &&& forall|key: Seq<char>|
                key != "content"@ ==> #[trigger] new_messages[i].get(key) == messages[i].get(key)
        }),
{
    let redacted = redacted_request(document, text)->Ok_0;
    let messages = crate::extract::messages_of(document)->Some_0;
    let new_messages = crate::extract::messages_of(redacted)->Some_0;
    let i = last_with_role(messages, "user"@)->Some_0;
    lemma_keys_differ();
    lemma_last_with_role(messages, "user"@);
    assert(new_messages == messages.update(
        i,
        messages[i].with("content"@, JsonView::Text(text)),
    ));
    assert forall|j: int| i < j < new_messages.len() implies !has_role(
        #[trigger] new_messages[j],
        "user"@,
    ) by {
        assert(new_messages[j] == messages[j]);
    }
    lemma_role_found(new_messages, "user"@, i);
}

/// Redacting a redacted request again gives what redacting it once with the
/// later text gives.
pub proof fn law_later_request_redaction_counts(document: JsonView, first: Seq<char>, second: Seq<char>)
    requires
        redacted_request(document, first) is Ok,
    ensures
        redacted_request(redacted_request(document, first)->Ok_0, second) == redacted_request(
            document,
            second,
        ),
{
    law_request_redaction_touches_one_message(document, first);
    let redacted = redacted_request(document, first)->Ok_0;
    let messages = crate::extract::messages_of(document)->Some_0;
    let new_messages = crate::extract::messages_of(redacted)->Some_0;
    let i = last_with_role(messages, "user"@)->Some_0;
    let once = messages[i].with("content"@, JsonView::Text(second));
    let twice = new_messages[i].with("content"@, JsonView::Text(second));
    assert(messages[i]->Object_0.insert("content"@, JsonView::Text(first)).insert(
        "content"@,
        JsonView::Text(second),
    ) =~= messages[i]->Object_0.insert("content"@, JsonView::Text(second)));
    assert(once == twice);
    assert(new_messages.update(i, twice) =~= messages.update(i, once));
    let array = JsonView::Array(messages.update(i, once));
    assert(redacted->Object_0.insert("messages"@, array) =~= document->Object_0.insert(
        "messages"@,
        array,
    ));
}

/// A request can be redacted exactly if it has messages and one of them has the
/// role `user`.
pub proof fn law_redactable_requests(document: JsonView, text: Seq<char>)
    ensures
        redacted_request(document, text) is Ok <==> {
            &&& crate::extract::messages_of(document) matches Some(messages)
            &&& exists|i: int| 0 <= i < messages.len() && has_role(#[trigger] messages[i], "user"@)
        },
{
    if let Some(messages) = crate::extract::messages_of(document) {
        lemma_last_with_role(messages, "user"@);
    }
}

/// Redacting a response changes the content of the message of the last choice
/// that has one, and nothing else.
pub proof fn law_response_redaction_touches_one_message(document: JsonView, text: Seq<char>)
    requires
        redacted_response(document, text) is Ok,
    ensures
        ({
            let redacted = redacted_response(document, text)->Ok_0;
            let choices = crate::extract::choices_of(document)->Some_0;
            let new_choices = crate::extract::choices_of(redacted)->Some_0;
            let i = last_with_message(choices)->Some_0;
            let message = crate::extract::message_of(choices[i])->Some_0;
            let new_message = crate::extract::message_of(new_choices[i])->Some_0;
            &&& crate::extract::choices_of(redacted) is Some
            &&& forall|key: Seq<char>|
                key != "choices"@ ==> #[trigger] redacted.get(key) == document.get(key)
            &&& new_choices.len() == choices.len()
            &&& 0 <= i < choices.len()
            &&& forall|j: int|
                0 <= j < choices.len() && j != i ==> #[trigger] new_choices[j] == choices[j]
            &&& last_with_message(new_choices) == Some(i)
            &&& forall|key: Seq<char>|
                key != "message"@ ==> #[trigger] new_choices[i].get(key) == choices[i].get(key)
            &&& new_message.get("content"@) == Some(JsonView::Text(text))
            &&& forall|key: Seq<char>|
                key != "content"@ ==> #[trigger] new_message.get(key) == message.get(key)
        }),
{
    let redacted = redacted_response(document, text)->Ok_0;
    let choices = crate::extract::choices_of(document)->Some_0;
    let new_choices = crate::extract::choices_of(redacted)->Some_0;
    let i = last_with_message(choices)->Some_0;
    lemma_last_with_message(choices);
    let message = crate::extract::message_of(choices[i])->Some_0;
    assert(new_choices == choices.update(
        i,
        choices[i].with("message"@, message.with("content"@, JsonView::Text(text))),
    ));
    assert forall|j: int| i < j < new_choices.len() implies crate::extract::message_of(
        #[trigger] new_choices[j],
    ) is None by {
        assert(new_choices[j] == choices[j]);
    }
    lemma_message_found(new_choices, i);
}

/// Redacting a redacted response again gives what redacting it once with the
/// later text gives.
pub proof fn law_later_response_redaction_counts(
    document: JsonView,
    first: Seq<char>,
    second: Seq<char>,
)
    requires
        redacted_response(document, first) is Ok,
    ensures
        redacted_response(redacted_response(document, first)->Ok_0, second) == redacted_response(
            document,
            second,
        ),
{
    law_response_redaction_touches_one_message(document, first);
    let redacted = redacted_response(document, first)->Ok_0;
    let choices = crate::extract::choices_of(document)->Some_0;
    let new_choices = crate::extract::choices_of(redacted)->Some_0;
    let i = last_with_message(choices)->Some_0;
    let message = crate::extract::message_of(choices[i])->Some_0;
    let new_message = crate::extract::message_of(new_choices[i])->Some_0;
    let once = message.with("content"@, JsonView::Text(second));
    let twice = new_message.with("content"@, JsonView::Text(second));
    assert(message->Object_0.insert("content"@, JsonView::Text(first)).insert(
        "content"@,
        JsonView::Text(second),
    ) =~= message->Object_0.insert("content"@, JsonView::Text(second)));
    assert(once == twice);
    assert(new_choices[i]->Object_0.insert("message"@, once)
        =~= choices[i]->Object_0.insert("message"@, once));
    assert(new_choices[i].with("message"@, once) == choices[i].with("message"@, once));
    let array = choices.update(i, choices[i].with("message"@, once));
    assert(new_choices.update(i, new_choices[i].with("message"@, twice)) =~= array);
    assert(redacted->Object_0.insert("choices"@, JsonView::Array(array))
        =~= document->Object_0.insert("choices"@, JsonView::Array(array)));
}

/// A response that is evaluated can be redacted exactly if its last message is an
/// object.
pub proof fn law_evaluated_responses_are_redactable(document: JsonView, text: Seq<char>)
    requires
        crate::extract::response_messages(document) is Ok,
    ensures
        redacted_response(document, text) is Ok <==> crate::extract::response_messages(
            document,
        )->Ok_0.last() is Object,
{
    crate::extract::law_every_choice_is_evaluated(document);
    let choices = crate::extract::choices_of(document)->Some_0;
    assert(crate::extract::message_of(choices[choices.len() - 1]) is Some);
}

/// Putting a text into an object as its content does not nest it deeper.
proof fn lemma_content_within(message: JsonView, text: Seq<char>, levels: nat)
    requires
        message is Object,
        message.within(levels, crate::wire::embedding_key()),
    ensures
        message.with("content"@, JsonView::Text(text)).within(
            levels,
            crate::wire::embedding_key(),
        ),
{
    reveal_with_fuel(JsonView::within, 2);
    lemma_keys_differ();
}

/// Replacing an element by one that nests no deeper does not nest an array
/// deeper.
proof fn lemma_update_within(items: Seq<JsonView>, i: int, item: JsonView, levels: nat)
    requires
        0 <= i < items.len(),
        levels > 0,
        JsonView::Array(items).within(levels, crate::wire::embedding_key()),
        item.within((levels - 1) as nat, crate::wire::embedding_key()),
    ensures
        JsonView::Array(items.update(i, item)).within(levels, crate::wire::embedding_key()),
{
    let inner = (levels - 1) as nat;
    let array = JsonView::Array(items);
    assert(array.within(levels, crate::wire::embedding_key()));
    assert(array->Array_0 == items);
    assert forall|j: int| 0 <= j < items.len() implies (#[trigger] items.update(i, item)[j]).within(
        inner,
        crate::wire::embedding_key(),
    ) by {
        assert(array->Array_0[j].within(inner, crate::wire::embedding_key()));
    }
}

/// Replacing a member by one that nests no deeper does not nest an object
/// deeper.
proof fn lemma_member_within(object: JsonView, key: Seq<char>, member: JsonView, levels: nat)
    requires
        object is Object,
        object.get(key) is Some,
        levels > 0,
        object.within(levels, crate::wire::embedding_key()),
        member.within((levels - 1) as nat, crate::wire::embedding_key()),
    ensures
        object.with(key, member).within(levels, crate::wire::embedding_key()),
{
    let inner = (levels - 1) as nat;
    let members = object->Object_0;
    assert forall|k: Seq<char>| members.insert(key, member).dom().contains(k) implies (
    #[trigger] members.insert(key, member)[k]).within(inner, crate::wire::embedding_key()) by {
        if k != key {
            assert(members[k].within(inner, crate::wire::embedding_key()));
        }
    }
}

/// A request that could be written and read again can be so once it is
/// redacted.
pub proof fn law_redacted_request_stays_readable(document: JsonView, text: Seq<char>)
    requires
        redacted_request(document, text) is Ok,
        crate::wire::readable(document),
    ensures
        crate::wire::readable(redacted_request(document, text)->Ok_0),
{
    let reserved = crate::wire::embedding_key();
    let messages = crate::extract::messages_of(document)->Some_0;
    let i = last_with_role(messages, "user"@)->Some_0;
    lemma_last_with_role(messages, "user"@);
    assert(document->Object_0["messages"@].within(126, reserved));
    assert(messages[i].within(125, reserved));
    lemma_content_within(messages[i], text, 125);
    let message = messages[i].with("content"@, JsonView::Text(text));
    lemma_update_within(messages, i, message, 126);
    lemma_member_within(document, "messages"@, JsonView::Array(messages.update(i, message)), 127);
}

/// A response that could be written and read again can be so once it is
/// redacted.
pub proof fn law_redacted_response_stays_readable(document: JsonView, text: Seq<char>)
    requires
        redacted_response(document, text) is Ok,
        crate::wire::readable(document),
    ensures
        crate::wire::readable(redacted_response(document, text)->Ok_0),
{
    let reserved = crate::wire::embedding_key();
    let choices = crate::extract::choices_of(document)->Some_0;
    let i = last_with_message(choices)->Some_0;
    lemma_last_with_message(choices);
    let message = crate::extract::message_of(choices[i])->Some_0;
    assert(document->Object_0["choices"@].within(126, reserved));
    assert(choices[i].within(125, reserved));
    assert(choices[i]->Object_0["message"@].within(124, reserved));
    lemma_content_within(message, text, 124);
    let new_message = message.with("content"@, JsonView::Text(text));
    lemma_member_within(choices[i], "message"@, new_message, 125);
    let choice = choices[i].with("message"@, new_message);
    lemma_update_within(choices, i, choice, 126);
    lemma_member_within(document, "choices"@, JsonView::Array(choices.update(i, choice)), 127);
}

/// The member under a key reads as it was: it is missing in both documents, or
/// they agree on it.
pub open spec fn member_agrees(document: JsonView, read: JsonView, key: Seq<char>) -> bool {
    match (document.get(key), read.get(key)) {
        (Some(member), Some(seen)) => member.agrees(seen),
        (None, None) => true,
        _ => false,
    }
}

proof fn lemma_member_agrees(document: JsonView, read: JsonView, key: Seq<char>)
    requires
        document.agrees(read),
    ensures
        member_agrees(document, read, key),
{
    if document is Object && document->Object_0.dom().contains(key) {
        assert(document->Object_0[key].agrees(read->Object_0[key]));
    }
}

/// Setting a member does not bring a floating-point number in.
proof fn lemma_member_exact(object: JsonView, key: Seq<char>, member: JsonView)
    requires
        object is Object,
        object.exact(),
        member.exact(),
    ensures
        object.with(key, member).exact(),
{
    let members = object->Object_0;
    let changed = members.insert(key, member);
    assert forall|k: Seq<char>| changed.dom().contains(k) implies (
    #[trigger] changed[k]).exact() by {
        if k != key {
            assert(members[k].exact());
        }
    }
}

/// Replacing an element does not bring a floating-point number in.
proof fn lemma_update_exact(items: Seq<JsonView>, i: int, item: JsonView)
    requires
        0 <= i < items.len(),
        JsonView::Array(items).exact(),
        item.exact(),
    ensures
        JsonView::Array(items.update(i, item)).exact(),
{
    let array = JsonView::Array(items);
    assert forall|j: int| 0 <= j < items.len() implies (
    #[trigger] items.update(i, item)[j]).exact() by {
        if j != i {
            assert(array->Array_0[j].exact());
        }
    }
}

/// Whoever reads a redacted request without floating-point numbers finds
/// exactly what the redaction gives.
pub proof fn law_exact_request_is_read_exactly(document: JsonView, text: Seq<char>, read: JsonView)
    requires
        document.exact(),
        redacted_request(document, text) matches Ok(redacted) && redacted.agrees(read),
    ensures
        Ok::<JsonView, Failure>(read) == redacted_request(document, text),
{
    let redacted = redacted_request(document, text)->Ok_0;
    let messages = crate::extract::messages_of(document)->Some_0;
    let i = last_with_role(messages, "user"@)->Some_0;
    lemma_last_with_role(messages, "user"@);
    assert(document->Object_0["messages"@].exact());
    assert(JsonView::Array(messages).exact());
    assert(document->Object_0["messages"@]->Array_0[i].exact());
    let message = messages[i].with("content"@, JsonView::Text(text));
    lemma_member_exact(messages[i], "content"@, JsonView::Text(text));
    lemma_update_exact(messages, i, message);
    lemma_member_exact(document, "messages"@, JsonView::Array(messages.update(i, message)));
    crate::json::law_exact_agreement_is_equality(redacted, read);
}

/// Whoever reads a redacted response without floating-point numbers finds
/// exactly what the redaction gives.
pub proof fn law_exact_response_is_read_exactly(
    document: JsonView,
    text: Seq<char>,
    read: JsonView,
)
    requires
        document.exact(),
        redacted_response(document, text) matches Ok(redacted) && redacted.agrees(read),
    ensures
        Ok::<JsonView, Failure>(read) == redacted_response(document, text),
{
    let redacted = redacted_response(document, text)->Ok_0;
    let choices = crate::extract::choices_of(document)->Some_0;
    let i = last_with_message(choices)->Some_0;
    lemma_last_with_message(choices);
    let message = crate::extract::message_of(choices[i])->Some_0;
    assert(document->Object_0["choices"@].exact());
    assert(document->Object_0["choices"@]->Array_0[i].exact());
    assert(choices[i]->Object_0["message"@].exact());
    let new_message = message.with("content"@, JsonView::Text(text));
    lemma_member_exact(message, "content"@, JsonView::Text(text));
    lemma_member_exact(choices[i], "message"@, new_message);
    let choice = choices[i].with("message"@, new_message);
    lemma_update_exact(choices, i, choice);
    lemma_member_exact(document, "choices"@, JsonView::Array(choices.update(i, choice)));
    crate::json::law_exact_agreement_is_equality(redacted, read);
}

/// Whoever reads a redacted request finds the provider's text as the content of
/// its last user message, and everything else as it was, up to the digits of
/// floating-point numbers.
pub proof fn law_masked_request_text_is_read(document: JsonView, text: Seq<char>, read: JsonView)
    requires
        redacted_request(document, text) matches Ok(redacted) && redacted.agrees(read),
    ensures
        ({
            let messages = crate::extract::messages_of(document)->Some_0;
            let seen = crate::extract::messages_of(read)->Some_0;
            let i = last_with_role(messages, "user"@)->Some_0;
            &&& crate::extract::messages_of(read) is Some
            &&& seen.len() == messages.len()
            &&& last_with_role(seen, "user"@) == Some(i)
            &&& seen[i].get("content"@) == Some(JsonView::Text(text))
            &&& forall|key: Seq<char>|
                key != "content"@ ==> #[trigger] member_agrees(messages[i], seen[i], key)
            &&& forall|j: int|
                0 <= j < messages.len() && j != i ==> messages[j].agrees(#[trigger] seen[j])
            &&& forall|key: Seq<char>|
                key != "messages"@ ==> #[trigger] member_agrees(document, read, key)
        }),
{
    law_request_redaction_touches_one_message(document, text);
    let redacted = redacted_request(document, text)->Ok_0;
    let messages = crate::extract::messages_of(document)->Some_0;
    let new_messages = crate::extract::messages_of(redacted)->Some_0;
    let i = last_with_role(messages, "user"@)->Some_0;
    assert(redacted->Object_0["messages"@].agrees(read->Object_0["messages"@]));
    let seen = crate::extract::messages_of(read)->Some_0;
    assert forall|j: int| 0 <= j < new_messages.len() implies new_messages[j].agrees(
        #[trigger] seen[j],
    ) && has_role(new_messages[j], "user"@) == has_role(seen[j], "user"@) by {
        assert(new_messages[j].agrees(seen[j]));
        lemma_same_role(new_messages[j], seen[j], "user"@);
    }
    lemma_last_with_role(new_messages, "user"@);
    lemma_role_found(seen, "user"@, i);
    assert(new_messages[i]->Object_0["content"@].agrees(seen[i]->Object_0["content"@]));
    assert forall|key: Seq<char>| key != "content"@ implies #[trigger] member_agrees(
        messages[i],
        seen[i],
        key,
    ) by {
        assert(new_messages[i].get(key) == messages[i].get(key));
        lemma_member_agrees(new_messages[i], seen[i], key);
    }
    assert forall|key: Seq<char>| key != "messages"@ implies #[trigger] member_agrees(
        document,
        read,
        key,
    ) by {
        assert(redacted.get(key) == document.get(key));
        lemma_member_agrees(redacted, read, key);
    }
}

proof fn lemma_same_role(message: JsonView, read: JsonView, role: Seq<char>)
    requires
        message.agrees(read),
    ensures
        has_role(message, role) == has_role(read, role),
{
    if message is Object && message->Object_0.dom().contains("role"@) {
        assert(message->Object_0["role"@].agrees(read->Object_0["role"@]));
    }
}

/// Whoever reads a redacted response finds the provider's text as the content
/// of its last message, and everything else as it was, up to the digits of
/// floating-point numbers.
pub proof fn law_masked_response_text_is_read(document: JsonView, text: Seq<char>, read: JsonView)
    requires
        redacted_response(document, text) matches Ok(redacted) && redacted.agrees(read),
    ensures
        ({
            let choices = crate::extract::choices_of(document)->Some_0;
            let seen = crate::extract::choices_of(read)->Some_0;
            let i = last_with_message(choices)->Some_0;
            &&& crate::extract::choices_of(read) is Some
            &&& seen.len() == choices.len()
            &&& last_with_message(seen) == Some(i)
            &&& crate::extract::message_of(seen[i])->Some_0.get("content"@) == Some(
                JsonView::Text(text),
            )
            &&& forall|key: Seq<char>|
                key != "content"@ ==> #[trigger] member_agrees(
                    crate::extract::message_of(choices[i])->Some_0,
                    crate::extract::message_of(seen[i])->Some_0,
                    key,
                )
            &&& forall|key: Seq<char>|
                key != "message"@ ==> #[trigger] member_agrees(choices[i], seen[i], key)
            &&& forall|j: int|
                0 <= j < choices.len() && j != i ==> choices[j].agrees(#[trigger] seen[j])
            &&& forall|key: Seq<char>|
                key != "choices"@ ==> #[trigger] member_agrees(document, read, key)
        }),
{
    law_response_redaction_touches_one_message(document, text);
    let redacted = redacted_response(document, text)->Ok_0;
    let choices = crate::extract::choices_of(document)->Some_0;
    let new_choices = crate::extract::choices_of(redacted)->Some_0;
    let i = last_with_message(choices)->Some_0;
    assert(redacted->Object_0["choices"@].agrees(read->Object_0["choices"@]));
    let seen = crate::extract::choices_of(read)->Some_0;
    assert forall|j: int| 0 <= j < new_choices.len() implies new_choices[j].agrees(
        #[trigger] seen[j],
    ) && (crate::extract::message_of(new_choices[j]) is Some) == (crate::extract::message_of(
        seen[j],
    ) is Some) by {
        assert(new_choices[j].agrees(seen[j]));
    }
    lemma_last_with_message(new_choices);
    lemma_message_found(seen, i);
    let new_message = crate::extract::message_of(new_choices[i])->Some_0;
    assert(new_choices[i]->Object_0["message"@].agrees(seen[i]->Object_0["message"@]));
    assert(new_message->Object_0["content"@].agrees(
        seen[i]->Object_0["message"@]->Object_0["content"@],
    ));
    let message = crate::extract::message_of(choices[i])->Some_0;
    let seen_message = crate::extract::message_of(seen[i])->Some_0;
    assert forall|key: Seq<char>| key != "content"@ implies #[trigger] member_agrees(
        message,
        seen_message,
        key,
    ) by {
        assert(new_message.get(key) == message.get(key));
        lemma_member_agrees(new_message, seen_message, key);
    }
    assert forall|key: Seq<char>| key != "message"@ implies #[trigger] member_agrees(
        choices[i],
        seen[i],
        key,
    ) by {
        assert(new_choices[i].get(key) == choices[i].get(key));
        lemma_member_agrees(new_choices[i], seen[i], key);
    }
    assert forall|key: Seq<char>| key != "choices"@ implies #[trigger] member_agrees(
        document,
        read,
        key,
    ) by {
        assert(redacted.get(key) == document.get(key));
        lemma_member_agrees(redacted, read, key);
    }
}

/// The message that is found is an object whose member `role` is the given
/// text, and no message after it is one; nothing is found only if no message is
/// one. The other members of a message do not matter.
pub proof fn law_messages_are_found_by_their_role(
    messages: Seq<Json>,
    role: Seq<char>,
    found: Option<int>,
)
    requires
        found == last_with_role(crate::json::items_model(messages), role),
    ensures
        ({
            let fits = |message: JsonView|
                {
                    &&& message is Object
                    &&& message->Object_0.dom().contains("role"@)
                    &&& message->Object_0["role"@] == JsonView::Text(role)
                };
            match found {
                Some(i) => {
                    &&& 0 <= i < messages.len()
                    &&& fits(messages[i]@)
                    &&& forall|j: int| i < j < messages.len() ==> !fits((#[trigger] messages[j])@)
                },
                None => forall|j: int| 0 <= j < messages.len() ==> !fits((#[trigger] messages[j])@),
            }
        }),
{
    let all = crate::json::items_model(messages);
    lemma_last_with_role(all, role);
    assert forall|j: int| 0 <= j < messages.len() implies all[j] == (#[trigger] messages[j])@ by {}
}

/// The choice that is found is an object with a member `message`, and no choice
/// after it is one; nothing is found only if no choice is one.
pub proof fn law_choices_are_found_by_their_message(choices: Seq<Json>, found: Option<int>)
    requires
        found == last_with_message(crate::json::items_model(choices)),
    ensures
        ({
            let fits = |choice: JsonView|
                choice is Object && choice->Object_0.dom().contains("message"@);
            match found {
                Some(i) => {
                    &&& 0 <= i < choices.len()
                    &&& fits(choices[i]@)
                    &&& forall|j: int| i < j < choices.len() ==> !fits((#[trigger] choices[j])@)
                },
                None => forall|j: int| 0 <= j < choices.len() ==> !fits((#[trigger] choices[j])@),
            }
        }),
{
    let all = crate::json::items_model(choices);
    lemma_last_with_message(all);
    assert forall|j: int| 0 <= j < choices.len() implies all[j] == (#[trigger] choices[j])@ by {}
}

/// A message gets its content set to the text and keeps its other members; what
/// is not an object is refused.
pub proof fn law_content_is_set(message: JsonView, text: Seq<char>)
    ensures
        match message {
            JsonView::Object(fields) => {
                &&& with_content(message, text) matches Ok(JsonView::Object(changed))
                &&& changed.dom().contains("content"@)
                &&& changed["content"@] == JsonView::Text(text)
                &&& forall|key: Seq<char>|
                    key != "content"@ ==> {
                        &&& #[trigger] changed.dom().contains(key) <==> fields.dom().contains(key)
                        &&& changed.dom().contains(key) ==> changed[key] == fields[key]
                    }
            },
            _ => with_content(message, text) matches Err(Failure::MessageNotObject),
        },
{
}

/// A document or an error is spoken of as it is.
pub proof fn law_documents_are_spoken_of_as_they_are(outcome: Result<Json, GuardrailError>)
    ensures
        match outcome {
            Ok(document) => shown(outcome) matches Ok(said) && said == document@,
            Err(error) => shown(outcome) matches Err(failure) && failure == error@,
        },
{
}

/// The last message of a request whose role is `user` gets the text as its
/// content, whatever its content was. Its other members, the other messages and
/// the other members of the request stay.
pub proof fn law_last_user_message_is_masked(
    members: Map<Seq<char>, JsonView>,
    messages: Seq<JsonView>,
    i: int,
    fields: Map<Seq<char>, JsonView>,
    text: Seq<char>,
)
    requires
        members.dom().contains("messages"@),
        members["messages"@] == JsonView::Array(messages),
        0 <= i < messages.len(),
        messages[i] == JsonView::Object(fields),
        fields.dom().contains("role"@),
        fields["role"@] == JsonView::Text("user"@),
        forall|j: int|
            i < j < messages.len() ==> !{
                &&& #[trigger] messages[j] is Object
                &&& messages[j]->Object_0.dom().contains("role"@)
                &&& messages[j]->Object_0["role"@] == JsonView::Text("user"@)
            },
    ensures
        redacted_request(JsonView::Object(members), text) == Ok::<JsonView, Failure>(
            JsonView::Object(
                members.insert(
                    "messages"@,
                    JsonView::Array(
                        messages.update(
                            i,
                            JsonView::Object(fields.insert("content"@, JsonView::Text(text))),
                        ),
                    ),
                ),
            ),
        ),
{
    lemma_role_found(messages, "user"@, i);
}

/// A request can be redacted exactly if it is an object with an array under
/// `messages` in which some object has the text `user` under `role`. Otherwise
/// the error tells whether the messages or a user message is missing.
pub proof fn law_requests_with_a_user_message_are_redacted(document: JsonView, text: Seq<char>)
    ensures
        match document {
            JsonView::Object(members) => if members.dom().contains("messages"@)
                && members["messages"@] is Array {
                let messages = members["messages"@]->Array_0;
                if exists|i: int|
                    0 <= i < messages.len() && {
                        &&& #[trigger] messages[i] is Object
                        &&& messages[i]->Object_0.dom().contains("role"@)
                        &&& messages[i]->Object_0["role"@] == JsonView::Text("user"@)
                    } {
                    redacted_request(document, text) is Ok
                } else {
                    redacted_request(document, text) matches Err(Failure::NoUserMessage)
                }
            } else {
                redacted_request(document, text) matches Err(Failure::NoMessages)
            },
            _ => redacted_request(document, text) matches Err(Failure::NoMessages),
        },
{
    if let Some(messages) = crate::extract::messages_of(document) {
        lemma_last_with_role(messages, "user"@);
    }
}

/// The message of the last choice that has one gets the text as its content.
/// Its other members, the other members of the choice, the other choices and the
/// other members of the response stay.
pub proof fn law_last_choice_is_masked(
    members: Map<Seq<char>, JsonView>,
    choices: Seq<JsonView>,
    i: int,
    parts: Map<Seq<char>, JsonView>,
    fields: Map<Seq<char>, JsonView>,
    text: Seq<char>,
)
    requires
        members.dom().contains("choices"@),
        members["choices"@] == JsonView::Array(choices),
        0 <= i < choices.len(),
        choices[i] == JsonView::Object(parts),
        parts.dom().contains("message"@),
        parts["message"@] == JsonView::Object(fields),
        forall|j: int|
            i < j < choices.len() ==> !{
                &&& #[trigger] choices[j] is Object
                &&& choices[j]->Object_0.dom().contains("message"@)
            },
    ensures
        redacted_response(JsonView::Object(members), text) == Ok::<JsonView, Failure>(
            JsonView::Object(
                members.insert(
                    "choices"@,
                    JsonView::Array(
                        choices.update(
                            i,
                            JsonView::Object(
                                parts.insert(
                                    "message"@,
                                    JsonView::Object(
                                        fields.insert("content"@, JsonView::Text(text)),
                                    ),
                                ),
                            ),
                        ),
                    ),
                ),
            ),
        ),
{
    lemma_message_found(choices, i);
}

/// A response can be redacted exactly if it is an object with an array under
/// `choices`, some choice is an object with a member `message`, and that member
/// of the last such choice is an object. Otherwise the error tells which of the
/// three does not hold.
pub proof fn law_responses_with_a_message_are_redacted(document: JsonView, text: Seq<char>)
    ensures
        match document {
            JsonView::Object(members) => if members.dom().contains("choices"@)
                && members["choices"@] is Array {
                let choices = members["choices"@]->Array_0;
                let fits = |choice: JsonView|
                    choice is Object && choice->Object_0.dom().contains("message"@);
                &&& (forall|i: int| 0 <= i < choices.len() ==> !fits(#[trigger] choices[i]))
                    ==> redacted_response(document, text) == Err::<JsonView, Failure>(
                    Failure::NoAssistantMessage,
                )
                &&& forall|i: int|
                    0 <= i < choices.len() && fits(#[trigger] choices[i]) && (forall|j: int|
                        i < j < choices.len() ==> !fits(#[trigger] choices[j])) ==> {
                        if choices[i]->Object_0["message"@] is Object {
                            redacted_response(document, text) is Ok
                        } else {
                            redacted_response(document, text) matches Err(Failure::MessageNotObject)
                        }
                    }
            } else {
                redacted_response(document, text) matches Err(Failure::NoChoices)
            },
            _ => redacted_response(document, text) matches Err(Failure::NoChoices),
        },
{
    if let Some(choices) = crate::extract::choices_of(document) {
        let fits = |choice: JsonView|
            choice is Object && choice->Object_0.dom().contains("message"@);
        lemma_last_with_message(choices);
        assert forall|i: int|
            0 <= i < choices.len() && fits(#[trigger] choices[i]) && (forall|j: int|
                i < j < choices.len() ==> !fits(#[trigger] choices[j])) implies {
            if choices[i]->Object_0["message"@] is Object {
                redacted_response(document, text) is Ok
            } else {
                redacted_response(document, text) matches Err(Failure::MessageNotObject)
            }
        } by {
            assert forall|j: int| i < j < choices.len() implies crate::extract::message_of(
                #[trigger] choices[j],
            ) is None by {
                assert(!fits(choices[j]));
            }
            lemma_message_found(choices, i);
        }
    }
}

/// A redaction is that of the document which the body reads as. A missing body
/// and one that is not JSON are refused, in the phase that it is about and in
/// the words of the reader.
pub proof fn law_redaction_is_that_of_the_document(
    body: Option<Seq<u8>>,
    text: Seq<char>,
    phase: GuardPhase,
)
    ensures
        match body {
            None => {
                &&& redacted_body(body, text, phase) matches Err(
                    Failure::MissingBody { phase: told },
                ) && told == phase
                &&& body_document(body, phase) matches Err(Failure::MissingBody { phase: told })
                    && told == phase
            },
            Some(raw) => match crate::wire::parsed(raw) {
                Err(words) => {
                    &&& redacted_body(body, text, phase) matches Err(
                        Failure::InvalidJson { phase: told, detail },
                    ) && told == phase && detail == words
                    &&& body_document(body, phase) matches Err(
                        Failure::InvalidJson { phase: told, detail },
                    ) && told == phase && detail == words
                },
                Ok(document) => {
                    &&& body_document(body, phase) == Ok::<JsonView, Failure>(document)
                    &&& phase == GuardPhase::Request ==> redacted_body(body, text, phase)
                        == redacted_request(document, text)
                    &&& phase == GuardPhase::Response ==> redacted_body(body, text, phase)
                        == redacted_response(document, text)
                },
            },
        },
{
}

} // verus!
