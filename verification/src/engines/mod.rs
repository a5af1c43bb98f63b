//! What every engine shares: messages, settings, stream events and errors.
pub mod anthropic;
pub mod gemini;
pub mod ollama;
pub mod ollama_chat;
pub mod openai_compat;
pub mod pull;
pub mod sse;
pub mod stream;
pub mod wire;

use vstd::prelude::*;

verus! {

#[derive(Debug, Clone, Copy, PartialEq, Eq, Structural)]
pub enum ChatRole {
    System,
    User,
    Assistant,
}

/// One turn of a conversation.
#[derive(Debug)]
pub struct ChatMessage {
    pub role: ChatRole,
    pub content: String,
}

/// What a [`ChatMessage`] says.
pub struct ChatMessageView {
    pub role: ChatRole,
    pub content: Seq<char>,
}

impl View for ChatMessage {
    type V = ChatMessageView;

    open spec fn view(&self) -> ChatMessageView {
        ChatMessageView { role: self.role, content: self.content@ }
    }
}

impl DeepView for ChatMessage {
    type V = ChatMessageView;

    open spec fn deep_view(&self) -> ChatMessageView {
        self@
    }
}

impl Clone for ChatMessage {
    fn clone(&self) -> (r: Self)
        ensures
            r@ == self@,
    {
        ChatMessage { role: self.role, content: self.content.clone() }
    }
}

/// A model that an engine has available.
#[derive(Debug)]
pub struct ModelInfo {
    pub name: String,
    pub size_bytes: Option<u64>,
    pub parameter_size: Option<String>,
    pub quantization: Option<String>,
    /// Whether the engine advertises a thinking capability for this model.
    pub supports_thinking: bool,
}

/// What a [`ModelInfo`] says.
pub struct ModelInfoView {
    pub name: Seq<char>,
    pub size_bytes: Option<u64>,
    pub parameter_size: Option<Seq<char>>,
    pub quantization: Option<Seq<char>>,
    pub supports_thinking: bool,
}

impl View for ModelInfo {
    type V = ModelInfoView;

    open spec fn view(&self) -> ModelInfoView {
        ModelInfoView {
            name: self.name@,
            size_bytes: self.size_bytes,
            parameter_size: self.parameter_size.deep_view(),
            quantization: self.quantization.deep_view(),
            supports_thinking: self.supports_thinking,
        }
    }
}

impl DeepView for ModelInfo {
    type V = ModelInfoView;

    open spec fn deep_view(&self) -> ModelInfoView {
        self@
    }
}

/// One increment of a streaming chat response. `request_id` tells which of
/// several concurrent requests it belongs to.
#[derive(Debug)]
pub enum ChatStreamEvent {
    /// The request is admitted but waiting for enough of the RAM budget.
    Queued { request_id: String },
    /// A piece of the reasoning trace, apart from the answer.
    Thinking { request_id: String, content: String },
    /// A piece of the answer.
    Token { request_id: String, content: String },
    Done { request_id: String },
    /// The user stopped this request, which is no failure.
    Cancelled { request_id: String },
    Error { request_id: String, message: String },
}

/// What a [`ChatStreamEvent`] says.
pub enum ChatStreamEventView {
    Queued { request_id: Seq<char> },
    Thinking { request_id: Seq<char>, content: Seq<char> },
    Token { request_id: Seq<char>, content: Seq<char> },
    Done { request_id: Seq<char> },
    Cancelled { request_id: Seq<char> },
    Error { request_id: Seq<char>, message: Seq<char> },
}

impl ChatStreamEventView {
    /// The request that the event belongs to.
    pub open spec fn request(self) -> Seq<char> {
        match self {
            ChatStreamEventView::Queued { request_id } => request_id,
            ChatStreamEventView::Thinking { request_id, .. } => request_id,
            ChatStreamEventView::Token { request_id, .. } => request_id,
            ChatStreamEventView::Done { request_id } => request_id,
            ChatStreamEventView::Cancelled { request_id } => request_id,
            ChatStreamEventView::Error { request_id, .. } => request_id,
        }
    }

    /// Whether the event carries a piece of the response.
    pub open spec fn is_content(self) -> bool {
        self is Thinking || self is Token
    }

    /// Whether the event ends a response stream.
    pub open spec fn is_end(self) -> bool {
        self is Done || self is Error
    }
}

impl View for ChatStreamEvent {
    type V = ChatStreamEventView;

    open spec fn view(&self) -> ChatStreamEventView {
        match self {
            ChatStreamEvent::Queued { request_id } => ChatStreamEventView::Queued {
                request_id: request_id@,
            },
            ChatStreamEvent::Thinking { request_id, content } => ChatStreamEventView::Thinking {
                request_id: request_id@,
                content: content@,
            },
            ChatStreamEvent::Token { request_id, content } => ChatStreamEventView::Token {
                request_id: request_id@,
                content: content@,
            },
            ChatStreamEvent::Done { request_id } => ChatStreamEventView::Done {
                request_id: request_id@,
            },
            ChatStreamEvent::Cancelled { request_id } => ChatStreamEventView::Cancelled {
                request_id: request_id@,
            },
            ChatStreamEvent::Error { request_id, message } => ChatStreamEventView::Error {
                request_id: request_id@,
                message: message@,
            },
        }
    }
}

impl DeepView for ChatStreamEvent {
    type V = ChatStreamEventView;

    open spec fn deep_view(&self) -> ChatStreamEventView {
        self@
    }
}

/// A fractional setting, held as the bit pattern of the double-precision number
/// that it arrived as, so that it is forwarded exactly as the user chose it.
#[derive(Debug, Clone, Copy, PartialEq, Eq, Structural)]
pub struct Fraction {
    pub bits: u64,
}

/// Sampling settings of one model. A setting that is absent leaves the engine on
/// its own default.
#[derive(Debug, Clone, Copy, PartialEq, Eq, Structural)]
pub struct GenerationParams {
    /// Context window in tokens.
    pub num_ctx: Option<u32>,
    pub temperature: Option<Fraction>,
    pub top_k: Option<u32>,
    pub top_p: Option<Fraction>,
    pub min_p: Option<Fraction>,
    /// How far back to look for repetition: `-1` is the whole context, `0` turns
    /// the check off.
    pub repeat_last_n: Option<i32>,
    pub repeat_penalty: Option<Fraction>,
    pub presence_penalty: Option<Fraction>,
    pub frequency_penalty: Option<Fraction>,
}

impl GenerationParams {
    /// No setting at all.
    pub open spec fn none() -> GenerationParams {
        GenerationParams {
            num_ctx: None,
            temperature: None,
            top_k: None,
            top_p: None,
            min_p: None,
            repeat_last_n: None,
            repeat_penalty: None,
            presence_penalty: None,
            frequency_penalty: None,
        }
    }

    /// Whether the user has set nothing, so that a request carries no options
    /// rather than an empty set of them.
    pub fn is_empty(&self) -> (r: bool)
        ensures
            r == (*self == GenerationParams::none()),
    {
        self.num_ctx.is_none() && self.temperature.is_none() && self.top_k.is_none()
            && self.top_p.is_none() && self.min_p.is_none() && self.repeat_last_n.is_none()
            && self.repeat_penalty.is_none() && self.presence_penalty.is_none()
            && self.frequency_penalty.is_none()
    }
}

impl Default for GenerationParams {
    fn default() -> (r: Self)
        ensures
            r == GenerationParams::none(),
    {
        GenerationParams {
            num_ctx: None,
            temperature: None,
            top_k: None,
            top_p: None,
            min_p: None,
            repeat_last_n: None,
            repeat_penalty: None,
            presence_penalty: None,
            frequency_penalty: None,
        }
    }
}

/// Settings of one request.
#[derive(Debug, Clone, Copy, PartialEq, Eq, Structural)]
pub struct ChatOptions {
    /// Ask a model that can reason for a thinking trace before the answer.
    pub think: bool,
    /// Sampling settings, which only the local engine honours.
    pub params: GenerationParams,
}

impl Default for ChatOptions {
    fn default() -> (r: Self)
        ensures
            r == (ChatOptions { think: false, params: GenerationParams::none() }),
    {
        ChatOptions { think: false, params: GenerationParams::default() }
    }
}

/// Progress of a model download, tagged by the model's name.
#[derive(Debug)]
pub enum PullProgressEvent {
    Progress { model: String, status: String, completed: Option<u64>, total: Option<u64> },
    Done { model: String },
    Error { model: String, message: String },
}

/// What a [`PullProgressEvent`] says.
pub enum PullProgressEventView {
    Progress { model: Seq<char>, status: Seq<char>, completed: Option<u64>, total: Option<u64> },
    Done { model: Seq<char> },
    Error { model: Seq<char>, message: Seq<char> },
}

impl PullProgressEventView {
    /// The model that the event is about.
    pub open spec fn subject(self) -> Seq<char> {
        match self {
            PullProgressEventView::Progress { model, .. } => model,
            PullProgressEventView::Done { model } => model,
            PullProgressEventView::Error { model, .. } => model,
        }
    }
}

impl View for PullProgressEvent {
    type V = PullProgressEventView;

    open spec fn view(&self) -> PullProgressEventView {
        match self {
            PullProgressEvent::Progress { model, status, completed, total } => {
                PullProgressEventView::Progress {
                    model: model@,
                    status: status@,
                    completed: *completed,
                    total: *total,
                }
            },
            PullProgressEvent::Done { model } => PullProgressEventView::Done { model: model@ },
            PullProgressEvent::Error { model, message } => PullProgressEventView::Error {
                model: model@,
                message: message@,
            },
        }
    }
}

impl DeepView for PullProgressEvent {
    type V = PullProgressEventView;

    open spec fn deep_view(&self) -> PullProgressEventView {
        self@
    }
}

/// Why an engine gave no usable answer.
#[derive(Debug)]
pub enum EngineError {
    /// The address that could not be reached, and why.
    Unreachable(String, String),
    /// The engine answered with an error.
    Response(String),
    /// The engine's answer could not be understood.
    Parse(String),
}

/// What an [`EngineError`] says.
pub enum EngineErrorView {
    Unreachable(Seq<char>, Seq<char>),
    Response(Seq<char>),
    Parse(Seq<char>),
}

impl View for EngineError {
    type V = EngineErrorView;

    open spec fn view(&self) -> EngineErrorView {
        match self {
            EngineError::Unreachable(url, reason) => EngineErrorView::Unreachable(url@, reason@),
            EngineError::Response(text) => EngineErrorView::Response(text@),
            EngineError::Parse(text) => EngineErrorView::Parse(text@),
        }
    }
}

impl DeepView for EngineError {
    type V = EngineErrorView;

    open spec fn deep_view(&self) -> EngineErrorView {
        self@
    }
}

impl EngineErrorView {
    /// The message shown for the error.
    pub open spec fn message(self) -> Seq<char> {
        match self {
            EngineErrorView::Unreachable(url, reason) => "could not reach engine at "@ + url + ": "@
                + reason,
            EngineErrorView::Response(text) => "engine returned an error: "@ + text,
            EngineErrorView::Parse(text) => "failed to parse engine response: "@ + text,
        }
    }
}

impl EngineError {
    /// The message shown for the error.
    pub fn message(&self) -> (r: String)
        ensures
            r@ == self@.message(),
    {
        match self {
            EngineError::Unreachable(url, reason) => {
                "could not reach engine at ".to_string().concat(url.as_str()).concat(": ").concat(
                    reason.as_str(),
                )
            },
            EngineError::Response(text) => "engine returned an error: ".to_string().concat(
                text.as_str(),
            ),
            EngineError::Parse(text) => "failed to parse engine response: ".to_string().concat(
                text.as_str(),
            ),
        }
    }

    /// The error for an answer whose status line is not a success.
    pub fn rejected(status: &str, text: &str) -> (r: EngineError)
        ensures
            r@ == EngineErrorView::Response(status@ + ": "@ + text@),
    {
        EngineError::Response(status.to_string().concat(": ").concat(text))
    }
}

/// The message of an error holds what is known of it, as it was reported.
pub proof fn law_error_messages_keep_the_reason(url: Seq<char>, text: Seq<char>)
    ensures
        EngineErrorView::Unreachable(url, text).message() == "could not reach engine at "@ + (url
            + (": "@ + text)),
        text.is_suffix_of(EngineErrorView::Unreachable(url, text).message()),
        text.is_suffix_of(EngineErrorView::Response(text).message()),
        text.is_suffix_of(EngineErrorView::Parse(text).message()),
{
    let unreachable = EngineErrorView::Unreachable(url, text).message();
    assert(unreachable =~= "could not reach engine at "@ + (url + (": "@ + text)));
    let n = text.len() as int;
    assert(unreachable.subrange(unreachable.len() - n, unreachable.len() as int) =~= text);
    let response = EngineErrorView::Response(text).message();
    assert(response.subrange(response.len() - n, response.len() as int) =~= text);
    let parse = EngineErrorView::Parse(text).message();
    assert(parse.subrange(parse.len() - n, parse.len() as int) =~= text);
}

} // verus!
