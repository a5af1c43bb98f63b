//! Anthropic's Messages API.
use vstd::prelude::*;

use crate::engines::stream::{ChatStep, Step};
use crate::engines::wire::{
    join_system, law_turns_are_sent_as_written, system_text, turns, wire_turns, WireMessage,
    WireMessageView,
};
use crate::engines::{
    ChatMessage, ChatMessageView, ChatOptions, ChatRole, ChatStreamEvent, ChatStreamEventView,
    ModelInfo, ModelInfoView,
};
use crate::json::{dig, Json, JsonTree};
use crate::text::text_eq;

verus! {

pub const API_VERSION: &'static str = "2023-06-01";

pub const API_URL: &'static str = "https://api.anthropic.com/v1/messages";

pub const DEFAULT_MAX_TOKENS: u32 = 4096;

/// Access to the service with the user's key.
pub struct AnthropicBackend {
    pub api_key: String,
    pub default_model: String,
}

/// What the service's assistant is called, and the model that is used unless the
/// user picks another. Both are settings of the program.
#[derive(Debug)]
pub struct Assistant {
    pub name: String,
    pub model: String,
}

/// How thinking is asked for.
#[derive(Debug)]
pub struct AnthropicThinking {
    pub kind: String,
    pub display: String,
}

/// What an [`AnthropicThinking`] says.
pub struct AnthropicThinkingView {
    pub kind: Seq<char>,
    pub display: Seq<char>,
}

impl View for AnthropicThinking {
    type V = AnthropicThinkingView;

    open spec fn view(&self) -> AnthropicThinkingView {
        AnthropicThinkingView { kind: self.kind@, display: self.display@ }
    }
}

impl DeepView for AnthropicThinking {
    type V = AnthropicThinkingView;

    open spec fn deep_view(&self) -> AnthropicThinkingView {
        self@
    }
}

/// The body of a request.
#[derive(Debug)]
pub struct AnthropicRequest {
    pub model: String,
    pub max_tokens: u32,
    pub messages: Vec<WireMessage>,
    pub stream: bool,
    pub system: Option<String>,
    pub thinking: Option<AnthropicThinking>,
}

/// What an [`AnthropicRequest`] says.
pub struct AnthropicRequestView {
    pub model: Seq<char>,
    pub max_tokens: u32,
    pub messages: Seq<WireMessageView>,
    pub stream: bool,
    pub system: Option<Seq<char>>,
    pub thinking: Option<AnthropicThinkingView>,
}

impl View for AnthropicRequest {
    type V = AnthropicRequestView;

    open spec fn view(&self) -> AnthropicRequestView {
        AnthropicRequestView {
            model: self.model@,
            max_tokens: self.max_tokens,
            messages: self.messages.deep_view(),
            stream: self.stream,
            system: self.system.deep_view(),
            thinking: self.thinking.deep_view(),
        }
    }
}

/// The request for a conversation: system messages apart from the turns, and
/// thinking only where it is asked for.
pub open spec fn request_body(
    model: Seq<char>,
    messages: Seq<ChatMessageView>,
    think: bool,
) -> AnthropicRequestView {
    AnthropicRequestView {
        model,
        max_tokens: 4096,
        messages: turns(messages, "user"@, "assistant"@),
        stream: true,
        system: system_text(messages),
        thinking: if think {
            Some(AnthropicThinkingView { kind: "adaptive"@, display: "summarized"@ })
        } else {
            None
        },
    }
}

/// What a `content_block_delta` adds: a piece of the answer or of the trace.
pub open spec fn delta_events(request: Seq<char>, delta: JsonTree) -> Seq<ChatStreamEventView> {
    match delta.text_field("type"@) {
        Some(kind) => if kind == "text_delta"@ {
            match delta.text_field("text"@) {
                Some(text) => seq![
                    ChatStreamEventView::Token { request_id: request, content: text },
                ],
                None => Seq::empty(),
            }
        } else if kind == "thinking_delta"@ {
            match delta.text_field("thinking"@) {
                Some(text) => seq![
                    ChatStreamEventView::Thinking { request_id: request, content: text },
                ],
                None => Seq::empty(),
            }
        } else {
            Seq::empty()
        },
        None => Seq::empty(),
    }
}

/// What one event of the stream means.
pub open spec fn event_step(request: Seq<char>, value: JsonTree) -> Step<ChatStreamEventView> {
    let quiet = Step { events: Seq::empty(), stop: false };
    match value.text_field("type"@) {
        None => quiet,
        Some(kind) => if kind == "content_block_delta"@ {
            match value.get("delta"@) {
                Some(delta) => Step { events: delta_events(request, delta), stop: false },
                None => quiet,
            }
        } else if kind == "message_stop"@ {
            Step { events: seq![ChatStreamEventView::Done { request_id: request }], stop: true }
        } else if kind == "error"@ {
            let message = match dig(value.get("error"@), "message"@) {
                Some(text) => match text.as_text() {
                    Some(text) => text,
                    None => "unknown error"@,
                },
                None => "unknown error"@,
            };
            Step {
                events: seq![ChatStreamEventView::Error { request_id: request, message }],
                stop: true,
            }
        } else {
            quiet
        },
    }
}

impl AnthropicBackend {
    pub fn new(api_key: String, default_model: String) -> (r: AnthropicBackend)
        ensures
            r.api_key@ == api_key@,
            r.default_model@ == default_model@,
    {
        AnthropicBackend { api_key, default_model }
    }

    /// The models on offer.
    pub fn list_models(&self) -> (r: Vec<ModelInfo>)
        ensures
            r.deep_view() == seq![
                ModelInfoView {
                    name: self.default_model@,
                    size_bytes: None,
                    parameter_size: None,
                    quantization: None,
                    supports_thinking: false,
                },
            ],
    {
        let mut r: Vec<ModelInfo> = Vec::new();
        r.push(
            ModelInfo {
                name: self.default_model.clone(),
                size_bytes: None,
                parameter_size: None,
                quantization: None,
                supports_thinking: false,
            },
        );
        assert(r.deep_view() =~= seq![r@[0]@]);
        r
    }

    /// The body of the request for a conversation.
    pub fn request(&self, model: &str, messages: &[ChatMessage], options: ChatOptions) -> (r:
        AnthropicRequest)
        ensures
            r@ == request_body(model@, messages.deep_view(), options.think),
    {
        let thinking: Option<AnthropicThinking> = if options.think {
            Some(
                AnthropicThinking {
                    kind: "adaptive".to_string(),
                    display: "summarized".to_string(),
                },
            )
        } else {
            None
        };
        AnthropicRequest {
            model: model.to_string(),
            max_tokens: DEFAULT_MAX_TOKENS,
            messages: wire_turns(messages, "user", "assistant"),
            stream: true,
            system: join_system(messages),
            thinking,
        }
    }
}

/// Reads a `content_block_delta`.
fn read_delta(request_id: &str, delta: &Json) -> (r: Vec<ChatStreamEvent>)
    ensures
        r.deep_view() == delta_events(request_id@, delta.tree()),
{
    let mut r: Vec<ChatStreamEvent> = Vec::new();
    assert(r.deep_view() =~= Seq::empty());
    if let Some(kind) = delta.text_field("type") {
        if text_eq(kind, "text_delta") {
            if let Some(text) = delta.text_field("text") {
                r.push(
                    ChatStreamEvent::Token {
                        request_id: request_id.to_string(),
                        content: text.to_string(),
                    },
                );
                assert(r.deep_view() =~= seq![r@[0]@]);
            }
        } else if text_eq(kind, "thinking_delta") {
            if let Some(text) = delta.text_field("thinking") {
                r.push(
                    ChatStreamEvent::Thinking {
                        request_id: request_id.to_string(),
                        content: text.to_string(),
                    },
                );
                assert(r.deep_view() =~= seq![r@[0]@]);
            }
        }
    }
    r
}

/// Reads one event of the stream.
pub fn read_event(request_id: &str, value: &Json) -> (r: ChatStep)
    ensures
        r@ == event_step(request_id@, value.tree()),
{
    let kind: &str = match value.text_field("type") {
        Some(kind) => kind,
        None => {
            return ChatStep::quiet();
        },
    };
    if text_eq(kind, "content_block_delta") {
        match value.get("delta") {
            Some(delta) => ChatStep { events: read_delta(request_id, delta), stop: false },
            None => ChatStep::quiet(),
        }
    } else if text_eq(kind, "message_stop") {
        ChatStep::done(request_id)
    } else if text_eq(kind, "error") {
        let message: &str = match value.get("error") {
            Some(error) => match error.text_field("message") {
                Some(text) => text,
                None => "unknown error",
            },
            None => "unknown error",
        };
        ChatStep::failed(request_id, message)
    } else {
        ChatStep::quiet()
    }
}

/// Whether an event is called `kind`.
pub open spec fn is_called(value: JsonTree, kind: Seq<char>) -> bool {
    value.get("type"@) == Some(JsonTree::Text(kind))
}

/// Whether an event adds `text` to the answer.
pub open spec fn adds(value: JsonTree, text: Seq<char>) -> bool {
    &&& is_called(value, "content_block_delta"@)
    &&& value.get("delta"@) matches Some(delta)
    &&& is_called(delta, "text_delta"@)
    &&& delta.get("text"@) == Some(JsonTree::Text(text))
}

/// Whether an event adds `text` to the reasoning trace.
pub open spec fn muses(value: JsonTree, text: Seq<char>) -> bool {
    &&& is_called(value, "content_block_delta"@)
    &&& value.get("delta"@) matches Some(delta)
    &&& is_called(delta, "thinking_delta"@)
    &&& delta.get("thinking"@) == Some(JsonTree::Text(text))
}

proof fn lemma_kinds_differ()
    ensures
        "text_delta"@ != "thinking_delta"@,
        "content_block_delta"@ != "message_stop"@,
        "content_block_delta"@ != "error"@,
        "message_stop"@ != "error"@,
{
    reveal_strlit("text_delta");
    reveal_strlit("thinking_delta");
    reveal_strlit("content_block_delta");
    reveal_strlit("message_stop");
    reveal_strlit("error");
    assert("text_delta"@.len() == 10 && "thinking_delta"@.len() == 14);
    assert("content_block_delta"@.len() == 19 && "message_stop"@.len() == 12);
    assert("error"@.len() == 5);
}

/// A piece of the answer reaches the user as such and a piece of the trace as
/// such, each character for character, under the request's id and without ending
/// the response.
pub proof fn law_pieces_arrive_as_sent(request: Seq<char>, value: JsonTree, text: Seq<char>)
    ensures
        adds(value, text) ==> !event_step(request, value).stop && event_step(request, value).events
            == seq![ChatStreamEventView::Token { request_id: request, content: text }],
        muses(value, text) ==> !event_step(request, value).stop && event_step(request, value).events
            == seq![ChatStreamEventView::Thinking { request_id: request, content: text }],
{
    lemma_kinds_differ();
}

/// The response ends where the service says so, and with an error where it
/// reports one, in its own words where it has any.
pub proof fn law_responses_end_where_they_say(request: Seq<char>, value: JsonTree)
    ensures
        is_called(value, "message_stop"@) ==> event_step(request, value).stop && event_step(
            request,
            value,
        ).events == seq![ChatStreamEventView::Done { request_id: request }],
        is_called(value, "error"@) ==> {
            let step = event_step(request, value);
            &&& step.stop
            &&& step.events.len() == 1
            &&& step.events[0] is Error
            &&& step.events[0].request() == request
            &&& step.events[0]->message == match value.get("error"@) {
                Some(error) => match error.get("message"@) {
                    Some(JsonTree::Text(text)) => text,
                    _ => "unknown error"@,
                },
                None => "unknown error"@,
            }
        },
        !is_called(value, "message_stop"@) && !is_called(value, "error"@) ==> !event_step(
            request,
            value,
        ).stop,
{
    lemma_kinds_differ();
}

/// Where nothing is added, nothing ends and no error is reported, nothing happens.
pub proof fn law_other_events_are_passed_over(request: Seq<char>, value: JsonTree)
    requires
        !is_called(value, "message_stop"@),
        !is_called(value, "error"@),
        forall|text: Seq<char>| !adds(value, text),
        forall|text: Seq<char>| !muses(value, text),
    ensures
        event_step(request, value).events.len() == 0,
        !event_step(request, value).stop,
{
    lemma_kinds_differ();
    if let Some(delta) = value.get("delta"@) {
        if let Some(text) = delta.text_field("text"@) {
            assert(!adds(value, text));
        }
        if let Some(text) = delta.text_field("thinking"@) {
            assert(!muses(value, text));
        }
    }
}

/// The request carries every message of the conversation as it was written: the
/// turns in order, each under its author's name, and the system's text apart. It
/// asks for a stream, and for thinking exactly where that is wanted.
pub proof fn law_requests_carry_the_conversation(
    model: Seq<char>,
    messages: Seq<ChatMessageView>,
    think: bool,
)
    ensures
        ({
            let others = messages.filter(|m: ChatMessageView| m.role != ChatRole::System);
            let body = request_body(model, messages, think);
            &&& body.model == model
            &&& body.stream
            &&& body.max_tokens == 4096
            &&& body.messages.len() == others.len()
            &&& forall|i: int|
                0 <= i < others.len() ==> (#[trigger] body.messages[i]).content
                    == others[i].content
            &&& forall|i: int|
                0 <= i < others.len() ==> (#[trigger] body.messages[i]).role
                    == if others[i].role == ChatRole::User {
                    "user"@
                } else {
                    "assistant"@
                }
            &&& body.system == system_text(messages)
            &&& body.thinking is Some <==> think
            &&& body.thinking matches Some(thinking) ==> thinking.kind == "adaptive"@
                && thinking.display == "summarized"@
        }),
{
    law_turns_are_sent_as_written(messages, "user"@, "assistant"@);
}

} // verus!
