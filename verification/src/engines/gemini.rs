//! Google's Gemini API.
use vstd::prelude::*;

use crate::engines::openai_compat::{error_message, read_error, token_step};
use crate::engines::stream::{ChatStep, Step};
use crate::engines::wire::{
    join_system, law_turns_are_sent_as_written, system_text, turns, wire_turns, WireMessage,
    WireMessageView,
};
use crate::engines::{
    ChatMessage, ChatMessageView, ChatOptions, ChatRole, ChatStreamEventView, ModelInfo,
    ModelInfoView,
};
use crate::json::{dig, dig_first, Json, JsonTree};

verus! {

pub const DEFAULT_MODEL: &'static str = "gemini-3.6-flash";

/// Access to Gemini with the user's key.
pub struct GeminiBackend {
    pub api_key: String,
}

/// The body of a request: the turns, each with one text part, and the system
/// instruction, with one text part too.
#[derive(Debug)]
pub struct GeminiRequest {
    pub contents: Vec<WireMessage>,
    pub system_instruction: Option<String>,
}

/// What a [`GeminiRequest`] says.
pub struct GeminiRequestView {
    pub contents: Seq<WireMessageView>,
    pub system_instruction: Option<Seq<char>>,
}

impl View for GeminiRequest {
    type V = GeminiRequestView;

    open spec fn view(&self) -> GeminiRequestView {
        GeminiRequestView {
            contents: self.contents.deep_view(),
            system_instruction: self.system_instruction.deep_view(),
        }
    }
}

/// The request for a conversation. A system text that is empty is left out.
pub open spec fn request_body(messages: Seq<ChatMessageView>) -> GeminiRequestView {
    GeminiRequestView {
        contents: turns(messages, "user"@, "model"@),
        system_instruction: match system_text(messages) {
            Some(text) if text.len() > 0 => Some(text),
            _ => None,
        },
    }
}

/// The piece of the answer that an event carries.
pub open spec fn part_text(value: JsonTree) -> Option<Seq<char>> {
    let content = dig(dig_first(value.get("candidates"@)), "content"@);
    match dig(dig_first(dig(content, "parts"@)), "text"@) {
        Some(text) => text.as_text(),
        None => None,
    }
}

/// What one event of the stream means.
pub open spec fn event_step(request: Seq<char>, value: JsonTree) -> Step<ChatStreamEventView> {
    match value.get("error"@) {
        Some(error) => Step {
            events: seq![
                ChatStreamEventView::Error { request_id: request, message: error_message(error) },
            ],
            stop: true,
        },
        None => match part_text(value) {
            Some(text) if text.len() > 0 => Step {
                events: seq![ChatStreamEventView::Token { request_id: request, content: text }],
                stop: false,
            },
            _ => Step { events: Seq::empty(), stop: false },
        },
    }
}

impl GeminiBackend {
    pub fn new(api_key: String) -> (r: GeminiBackend)
        ensures
            r.api_key@ == api_key@,
    {
        GeminiBackend { api_key }
    }

    /// The models on offer.
    pub fn list_models(&self) -> (r: Vec<ModelInfo>)
        ensures
            r.deep_view() == seq![
                ModelInfoView {
                    name: "gemini-3.6-flash"@,
                    size_bytes: None,
                    parameter_size: None,
                    quantization: None,
                    supports_thinking: false,
                },
            ],
    {
        let mut r: Vec<ModelInfo> = Vec::new();
        r.push(
            ModelInfo {
                name: DEFAULT_MODEL.to_string(),
                size_bytes: None,
                parameter_size: None,
                quantization: None,
                supports_thinking: false,
            },
        );
        assert(r.deep_view() =~= seq![r@[0]@]);
        r
    }

    /// Where requests for `model` go.
    pub fn chat_url(&self, model: &str) -> (r: String)
        ensures
            r@ == "https://generativelanguage.googleapis.com/v1beta/models/"@ + model@
                + ":streamGenerateContent?alt=sse"@,
    {
        "https://generativelanguage.googleapis.com/v1beta/models/".to_string().concat(model).concat(
            ":streamGenerateContent?alt=sse",
        )
    }

    /// The body of the request for a conversation. No option applies here.
    pub fn request(&self, messages: &[ChatMessage], _options: ChatOptions) -> (r: GeminiRequest)
        ensures
            r@ == request_body(messages.deep_view()),
    {
        let system_instruction: Option<String> = match join_system(messages) {
            Some(text) => {
                if text.as_str().is_empty() {
                    None
                } else {
                    Some(text)
                }
            },
            None => None,
        };
        GeminiRequest { contents: wire_turns(messages, "user", "model"), system_instruction }
    }
}

/// The piece of the answer that an event carries.
fn read_part<'a>(value: &'a Json) -> (r: Option<&'a str>)
    ensures
        r.deep_view() == part_text(value.tree()),
{
    let candidates: &Json = match value.get("candidates") {
        Some(candidates) => candidates,
        None => {
            return None;
        },
    };
    let candidate: &Json = match candidates.first() {
        Some(candidate) => candidate,
        None => {
            return None;
        },
    };
    let content: &Json = match candidate.get("content") {
        Some(content) => content,
        None => {
            return None;
        },
    };
    let parts: &Json = match content.get("parts") {
        Some(parts) => parts,
        None => {
            return None;
        },
    };
    match parts.first() {
        Some(part) => part.text_field("text"),
        None => None,
    }
}

/// Reads one event of the stream.
pub fn read_event(request_id: &str, value: &Json) -> (r: ChatStep)
    ensures
        r@ == event_step(request_id@, value.tree()),
{
    if let Some(error) = value.get("error") {
        return ChatStep::failed(request_id, read_error(error));
    }
    token_step(request_id, read_part(value))
}

/// Whether the first part of an event's first candidate adds `text` to the answer.
pub open spec fn adds(value: JsonTree, text: Seq<char>) -> bool {
    &&& value.get("candidates"@) matches Some(JsonTree::Array(candidates))
    &&& candidates.len() > 0
    &&& candidates[0].get("content"@) matches Some(content)
    &&& content.get("parts"@) matches Some(JsonTree::Array(parts))
    &&& parts.len() > 0
    &&& parts[0].get("text"@) == Some(JsonTree::Text(text))
}

/// A piece of the answer reaches the user character for character, under the
/// request's id and without ending the response. An empty piece is no event.
pub proof fn law_pieces_arrive_as_sent(request: Seq<char>, value: JsonTree, text: Seq<char>)
    requires
        value.get("error"@) is None,
        adds(value, text),
    ensures
        !event_step(request, value).stop,
        text.len() > 0 ==> event_step(request, value).events == seq![
            ChatStreamEventView::Token { request_id: request, content: text },
        ],
        text.len() == 0 ==> event_step(request, value).events.len() == 0,
{
}

/// Where nothing is added and no error reported, nothing happens.
pub proof fn law_other_events_are_passed_over(request: Seq<char>, value: JsonTree)
    requires
        value.get("error"@) is None,
        forall|text: Seq<char>| !adds(value, text),
    ensures
        event_step(request, value).events.len() == 0,
        !event_step(request, value).stop,
{
    if let Some(text) = part_text(value) {
        assert(adds(value, text));
    }
}

/// An error ends the response, and is reported in the service's own words where it
/// has any.
pub proof fn law_errors_end_the_response(request: Seq<char>, value: JsonTree, error: JsonTree)
    requires
        value.get("error"@) == Some(error),
    ensures
        event_step(request, value).stop,
        event_step(request, value).events.len() == 1,
        event_step(request, value).events[0] is Error,
        event_step(request, value).events[0].request() == request,
        forall|text: Seq<char>|
            error.get("message"@) == Some(JsonTree::Text(text)) ==> event_step(
                request,
                value,
            ).events[0]->message == text,
        !(error.get("message"@) matches Some(JsonTree::Text(_))) ==> event_step(
            request,
            value,
        ).events[0]->message == "unknown error"@,
{
}

/// The request carries every message of the conversation as it was written: the
/// turns in order, the user's as `user` and the model's as `model`, and the
/// system's text apart, unless there is none or it is empty.
pub proof fn law_requests_carry_the_conversation(messages: Seq<ChatMessageView>)
    ensures
        ({
            let others = messages.filter(|m: ChatMessageView| m.role != ChatRole::System);
            let body = request_body(messages);
            &&& body.contents.len() == others.len()
            &&& forall|i: int|
                0 <= i < others.len() ==> (#[trigger] body.contents[i]).content
                    == others[i].content
            &&& forall|i: int|
                0 <= i < others.len() ==> (#[trigger] body.contents[i]).role
                    == if others[i].role == ChatRole::User {
                    "user"@
                } else {
                    "model"@
                }
            &&& body.system_instruction is Some ==> body.system_instruction == system_text(messages)
            &&& body.system_instruction is None ==> (system_text(messages) matches Some(text)
                ==> text.len() == 0)
            &&& body.system_instruction matches Some(text) ==> text.len() > 0
        }),
{
    law_turns_are_sent_as_written(messages, "user"@, "model"@);
}

} // verus!
