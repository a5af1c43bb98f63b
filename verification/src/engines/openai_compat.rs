//! Services with an OpenAI-compatible `/chat/completions` API.
use vstd::prelude::*;

use crate::engines::stream::{ChatStep, Step};
use crate::engines::wire::{named, wire_named, WireMessage, WireMessageView};
use crate::engines::{
    ChatMessage, ChatMessageView, ChatOptions, ChatRole, ChatStreamEvent, ChatStreamEventView,
    ModelInfo, ModelInfoView,
};
use crate::json::{dig, dig_first, Json, JsonTree};

verus! {

/// Access to one such service with the user's key.
pub struct OpenAiCompatBackend {
    pub base_url: String,
    pub api_key: String,
    pub default_model: String,
}

/// The body of a request.
#[derive(Debug)]
pub struct OaiRequest {
    pub model: String,
    pub messages: Vec<WireMessage>,
    pub stream: bool,
}

/// What an [`OaiRequest`] says.
pub struct OaiRequestView {
    pub model: Seq<char>,
    pub messages: Seq<WireMessageView>,
    pub stream: bool,
}

impl View for OaiRequest {
    type V = OaiRequestView;

    open spec fn view(&self) -> OaiRequestView {
        OaiRequestView {
            model: self.model@,
            messages: self.messages.deep_view(),
            stream: self.stream,
        }
    }
}

/// The request for a conversation.
pub open spec fn request_body(
    model: Seq<char>,
    messages: Seq<ChatMessageView>,
) -> OaiRequestView {
    OaiRequestView { model, messages: named(messages), stream: true }
}

/// The message of an error object, or a stand-in where it has none.
pub open spec fn error_message(error: JsonTree) -> Seq<char> {
    match error.text_field("message"@) {
        Some(text) => text,
        None => "unknown error"@,
    }
}

/// The piece of the answer that an event carries.
pub open spec fn delta_text(value: JsonTree) -> Option<Seq<char>> {
    match dig(dig(dig_first(value.get("choices"@)), "delta"@), "content"@) {
        Some(content) => content.as_text(),
        None => None,
    }
}

/// What one event of the stream means.
pub open spec fn event_step(request: Seq<char>, value: JsonTree) -> Step<ChatStreamEventView> {
    match value.get("error"@) {
        Some(error) => Step {
            events: seq![
                ChatStreamEventView::Error { request_id: request, message: error_message(error) },
            ],
            stop: true,
        },
        None => match delta_text(value) {
            Some(text) if text.len() > 0 => Step {
                events: seq![ChatStreamEventView::Token { request_id: request, content: text }],
                stop: false,
            },
            _ => Step { events: Seq::empty(), stop: false },
        },
    }
}

impl OpenAiCompatBackend {
    pub fn new(base_url: String, api_key: String, default_model: String) -> (r:
        OpenAiCompatBackend)
        ensures
            r.base_url@ == base_url@,
            r.api_key@ == api_key@,
            r.default_model@ == default_model@,
    {
        OpenAiCompatBackend { base_url, api_key, default_model }
    }

    /// The models on offer.
    pub fn list_models(&self) -> (r: Vec<ModelInfo>)
        ensures
            r.deep_view() == seq![
                ModelInfoView {
                    name: self.default_model@,
                    size_bytes: None,
                    parameter_size: None,
                    quantization: None,
                    supports_thinking: false,
                },
            ],
    {
        let mut r: Vec<ModelInfo> = Vec::new();
        r.push(
            ModelInfo {
                name: self.default_model.clone(),
                size_bytes: None,
                parameter_size: None,
                quantization: None,
                supports_thinking: false,
            },
        );
        assert(r.deep_view() =~= seq![r@[0]@]);
        r
    }

    /// Where requests go.
    pub fn chat_url(&self) -> (r: String)
        ensures
            r@ == self.base_url@ + "/chat/completions"@,
    {
        self.base_url.clone().concat("/chat/completions")
    }

    /// The body of the request for a conversation. No option applies here.
    pub fn request(&self, model: &str, messages: &[ChatMessage], _options: ChatOptions) -> (r:
        OaiRequest)
        ensures
            r@ == (OaiRequestView {
                model: model@,
                messages: named(messages.deep_view()),
                stream: true,
            }),
            r@ == request_body(model@, messages.deep_view()),
            r.messages@.len() == messages@.len(),
            forall|i: int|
                0 <= i < r.messages@.len() ==> (#[trigger] r.messages@[i]).content@
                    == messages@[i].content@,
    {
        OaiRequest { model: model.to_string(), messages: wire_named(messages), stream: true }
    }
}

/// The message of an error object.
pub(crate) fn read_error<'a>(error: &'a Json) -> (r: &'a str)
    ensures
        r@ == error_message(error.tree()),
{
    match error.text_field("message") {
        Some(text) => text,
        None => "unknown error",
    }
}

/// The step for a piece of the answer that may be missing or empty.
pub(crate) fn token_step(request_id: &str, text: Option<&str>) -> (r: ChatStep)
    ensures
        r@ == match text.deep_view() {
            Some(text) if text.len() > 0 => Step {
                events: seq![
                    ChatStreamEventView::Token { request_id: request_id@, content: text },
                ],
                stop: false,
            },
            _ => Step { events: Seq::<ChatStreamEventView>::empty(), stop: false },
        },
{
    match text {
        Some(text) => {
            if text.is_empty() {
                ChatStep::quiet()
            } else {
                ChatStep::one(
                    ChatStreamEvent::Token {
                        request_id: request_id.to_string(),
                        content: text.to_string(),
                    },
                    false,
                )
            }
        },
        None => ChatStep::quiet(),
    }
}

/// The piece of the answer that an event carries.
fn read_delta<'a>(value: &'a Json) -> (r: Option<&'a str>)
    ensures
        r.deep_view() == delta_text(value.tree()),
{
    let choices: &Json = match value.get("choices") {
        Some(choices) => choices,
        None => {
            return None;
        },
    };
    let choice: &Json = match choices.first() {
        Some(choice) => choice,
        None => {
            return None;
        },
    };
    match choice.get("delta") {
        Some(delta) => delta.text_field("content"),
        None => None,
    }
}

/// Reads one event of the stream.
pub fn read_event(request_id: &str, value: &Json) -> (r: ChatStep)
    ensures
        r@ == event_step(request_id@, value.tree()),
{
    if let Some(error) = value.get("error") {
        return ChatStep::failed(request_id, read_error(error));
    }
    token_step(request_id, read_delta(value))
}

/// Whether the first choice of an event adds `text` to the answer.
pub open spec fn adds(value: JsonTree, text: Seq<char>) -> bool {
    &&& value.get("choices"@) matches Some(JsonTree::Array(choices))
    &&& choices.len() > 0
    &&& choices[0].get("delta"@) matches Some(delta)
    &&& delta.get("content"@) == Some(JsonTree::Text(text))
}

/// A piece of the answer reaches the user character for character, under the
/// request's id and without ending the response. An empty piece is no event.
pub proof fn law_pieces_arrive_as_sent(request: Seq<char>, value: JsonTree, text: Seq<char>)
    requires
        value.get("error"@) is None,
        adds(value, text),
    ensures
        !event_step(request, value).stop,
        text.len() > 0 ==> event_step(request, value).events == seq![
            ChatStreamEventView::Token { request_id: request, content: text },
        ],
        text.len() == 0 ==> event_step(request, value).events.len() == 0,
{
}

/// Where nothing is added and no error reported, nothing happens.
pub proof fn law_other_events_are_passed_over(request: Seq<char>, value: JsonTree)
    requires
        value.get("error"@) is None,
        forall|text: Seq<char>| !adds(value, text),
    ensures
        event_step(request, value).events.len() == 0,
        !event_step(request, value).stop,
{
    if let Some(text) = delta_text(value) {
        assert(adds(value, text));
    }
}

/// An error ends the response, and is reported in the service's own words where it
/// has any.
pub proof fn law_errors_end_the_response(request: Seq<char>, value: JsonTree, error: JsonTree)
    requires
        value.get("error"@) == Some(error),
    ensures
        event_step(request, value).stop,
        event_step(request, value).events.len() == 1,
        event_step(request, value).events[0] is Error,
        event_step(request, value).events[0].request() == request,
        forall|text: Seq<char>|
            error.get("message"@) == Some(JsonTree::Text(text)) ==> event_step(
                request,
                value,
            ).events[0]->message == text,
        !(error.get("message"@) matches Some(JsonTree::Text(_))) ==> event_step(
            request,
            value,
        ).events[0]->message == "unknown error"@,
{
}

/// The request carries every message of the conversation in its place, under its
/// role's name and as it was written, and asks the model for a stream.
pub proof fn law_requests_carry_the_conversation(model: Seq<char>, messages: Seq<ChatMessageView>)
    ensures
        ({
            let body = request_body(model, messages);
            &&& body.model == model
            &&& body.stream
            &&& body.messages.len() == messages.len()
            &&& forall|i: int|
                0 <= i < messages.len() ==> (#[trigger] body.messages[i]).content
                    == messages[i].content
            &&& forall|i: int|
                0 <= i < messages.len() ==> (#[trigger] body.messages[i]).role
                    == match messages[i].role {
                    ChatRole::System => "system"@,
                    ChatRole::User => "user"@,
                    ChatRole::Assistant => "assistant"@,
                }
        }),
{
}

} // verus!
