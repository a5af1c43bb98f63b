//! The local engine, Ollama.
use vstd::prelude::*;

use crate::engines::wire::{named, wire_named, WireMessage, WireMessageView};
use crate::engines::{
    ChatMessage, ChatMessageView, ChatOptions, ChatRole, EngineError, EngineErrorView,
    GenerationParams, ModelInfo, ModelInfoView,
};
use crate::json::{dig, trees, Json, JsonTree};
use crate::outcome::outcome;
use crate::text::{
    chars_of, contains_text, decimal, is_blank, is_white_space, law_decimal_writes_the_number,
    law_trimming_takes_off_white_space_alone, leading, leading_end, lemma_leading, lemma_leading_is,
    lemma_nothing_to_trim, lemma_split_first, parse_u32, skip_leading, split, split_chars,
    take_leading, text_eq, trim, trim_bounds, u32_value, CharClass,
};
use crate::throughput::{
    law_samples_count_three_tenths, law_smoothing_stays_between, sample, smoothed, Throughput,
};

verus! {

/// A version as major, minor and patch number.
pub type Version = (u32, u32, u32);

/// The oldest engine whose interface is known to suffice.
pub const MINIMUM_VERSION: (u32, u32, u32) = (0, 9, 0);

/// The version that the dot-separated `parts` write. Major and minor are
/// numbers; of the patch only the digits that it begins with count, and a patch
/// that is missing or no number is zero.
pub open spec fn version_of_parts(parts: Seq<Seq<char>>) -> Option<Version> {
    if parts.len() < 2 {
        None
    } else {
        match (u32_value(parts[0]), u32_value(parts[1])) {
            (Some(major), Some(minor)) => {
                let patch = if parts.len() < 3 {
                    0
                } else {
                    match u32_value(take_leading(parts[2], CharClass::Digit)) {
                        Some(patch) => patch,
                        None => 0,
                    }
                };
                Some((major, minor, patch))
            },
            _ => None,
        }
    }
}

/// The version that `raw` writes, after white space and any leading `v`.
pub open spec fn version_of(raw: Seq<char>) -> Option<Version> {
    version_of_parts(split(skip_leading(trim(raw), CharClass::Just('v')), '.'))
}

/// Whether version `a` is `b` or newer.
pub open spec fn at_least(a: Version, b: Version) -> bool {
    a.0 > b.0 || (a.0 == b.0 && (a.1 > b.1 || (a.1 == b.1 && a.2 >= b.2)))
}

/// Whether version `a` is newer than `b`.
pub open spec fn newer(a: Version, b: Version) -> bool {
    !at_least(b, a)
}

/// The version that `raw` writes.
pub fn parse_version(raw: &str) -> (r: Option<Version>)
    ensures
        r == version_of(raw@),
{
    let chars: Vec<char> = chars_of(raw);
    let (start, end) = trim_bounds(chars.as_slice());
    let text = vstd::slice::slice_subrange(chars.as_slice(), start, end);
    assert(text@.skip(0) =~= text@);
    let at: usize = leading_end(text, 0, CharClass::Just('v'));
    let rest = vstd::slice::slice_subrange(text, at, text.len());
    assert(rest@ =~= skip_leading(trim(raw@), CharClass::Just('v')));
    let parts: Vec<Vec<char>> = split_chars(rest, '.');
    let ghost texts = parts.deep_view();
    assert forall|i: int| 0 <= i < parts@.len() implies texts[i] == (#[trigger] parts@[i])@ by {
        assert(parts@[i].deep_view() =~= parts@[i]@);
    }
    if parts.len() < 2 {
        return None;
    }
    let major: u32 = match parse_u32(parts[0].as_slice()) {
        Some(major) => major,
        None => {
            return None;
        },
    };
    let minor: u32 = match parse_u32(parts[1].as_slice()) {
        Some(minor) => minor,
        None => {
            return None;
        },
    };
    if parts.len() < 3 {
        return Some((major, minor, 0));
    }
    let last = parts[2].as_slice();
    assert(last@.skip(0) =~= last@);
    let digits: usize = leading_end(last, 0, CharClass::Digit);
    let number = vstd::slice::slice_subrange(last, 0, digits);
    assert(number@ =~= take_leading(texts[2], CharClass::Digit));
    let patch: u32 = match parse_u32(number) {
        Some(patch) => patch,
        None => 0,
    };
    Some((major, minor, patch))
}

/// Whether version `a` is `b` or newer.
pub fn is_at_least(a: Version, b: Version) -> (r: bool)
    ensures
        r == at_least(a, b),
{
    a.0 > b.0 || (a.0 == b.0 && (a.1 > b.1 || (a.1 == b.1 && a.2 >= b.2)))
}

/// Whether the engine is new enough. A version that cannot be read counts as
/// supported: it is more likely a newer format than an old engine.
pub fn version_is_supported(raw: &str) -> (r: bool)
    ensures
        r == match version_of(raw@) {
            Some(version) => at_least(version, (0, 9, 0)),
            None => true,
        },
{
    match parse_version(raw) {
        Some(version) => is_at_least(version, MINIMUM_VERSION),
        None => true,
    }
}

/// The fewest tokens that make a generation a measurement.
pub const MIN_TOKENS: u64 = 16;

/// The smallest model, in bytes, that represents the machine: a gigabyte.
pub const MIN_SIZE_BYTES: u64 = 1073741824;

/// The calibration after one more generation. A generation of few tokens, of no
/// duration or of a small model says nothing; any other replaces a missing
/// figure, and counts three tenths against a figure that is there.
pub open spec fn calibrated(
    before: Option<int>,
    size_bytes: u64,
    count: u64,
    duration_ns: u64,
) -> Option<int> {
    if count < MIN_TOKENS || duration_ns == 0 || size_bytes < MIN_SIZE_BYTES {
        before
    } else {
        let sample = sample(size_bytes, count, duration_ns);
        match before {
            Some(figure) => Some(smoothed(figure, sample)),
            None => Some(sample),
        }
    }
}

/// The engine's address, and what has been learned of the machine from it.
pub struct OllamaBackend {
    pub base_url: String,
    /// Weights read per second, learned from answers that this engine has
    /// finished.
    pub observed: Option<Throughput>,
}

impl OllamaBackend {
    pub fn new(base_url: String) -> (r: OllamaBackend)
        ensures
            r.base_url@ == base_url@,
            r.observed is None,
    {
        OllamaBackend { base_url, observed: None }
    }

    pub fn default_local() -> (r: OllamaBackend)
        ensures
            r.base_url@ == "http://localhost:11434"@,
            r.observed is None,
    {
        OllamaBackend::new("http://localhost:11434".to_string())
    }

    /// The calibration figure, where anything has been generated yet.
    pub fn observed_gb_per_sec(&self) -> (r: Option<Throughput>)
        ensures
            r == self.observed,
    {
        self.observed
    }

    /// Folds one completed generation into the calibration.
    pub fn record_generation(&mut self, size_bytes: u64, eval_count: u64, eval_duration_ns: u64)
        ensures
            final(self).base_url@ == old(self).base_url@,
            final(self).observed.deep_view() == calibrated(
                old(self).observed.deep_view(),
                size_bytes,
                eval_count,
                eval_duration_ns,
            ),
    {
        if eval_count < MIN_TOKENS || eval_duration_ns == 0 || size_bytes < MIN_SIZE_BYTES {
            return;
        }
        let sample: Throughput = Throughput::measure(size_bytes, eval_count, eval_duration_ns);
        self.observed = match &self.observed {
            Some(figure) => Some(figure.smooth(&sample)),
            None => Some(sample),
        };
    }

    /// The address of one part of the engine's interface.
    pub fn endpoint(&self, path: &str) -> (r: String)
        ensures
            r@ == self.base_url@ + path@,
    {
        self.base_url.clone().concat(path)
    }
}

/// An installed model as the engine lists it.
#[derive(Debug)]
pub struct TagModel {
    pub name: String,
    pub size: Option<u64>,
    pub details: Option<TagModelDetails>,
}

#[derive(Debug)]
pub struct TagModelDetails {
    pub parameter_size: Option<String>,
    pub quantization_level: Option<String>,
}

/// What a [`TagModel`] says.
pub struct TagModelView {
    pub name: Seq<char>,
    pub size: Option<u64>,
    pub details: Option<TagModelDetailsView>,
}

/// What a [`TagModelDetails`] says.
pub struct TagModelDetailsView {
    pub parameter_size: Option<Seq<char>>,
    pub quantization_level: Option<Seq<char>>,
}

impl DeepView for TagModelDetails {
    type V = TagModelDetailsView;

    open spec fn deep_view(&self) -> TagModelDetailsView {
        TagModelDetailsView {
            parameter_size: self.parameter_size.deep_view(),
            quantization_level: self.quantization_level.deep_view(),
        }
    }
}

impl View for TagModel {
    type V = TagModelView;

    open spec fn view(&self) -> TagModelView {
        TagModelView { name: self.name@, size: self.size, details: self.details.deep_view() }
    }
}

impl DeepView for TagModel {
    type V = TagModelView;

    open spec fn deep_view(&self) -> TagModelView {
        self@
    }
}

/// The size of the first of `models` that is called `name`, where it is known.
pub open spec fn size_of_model(models: Seq<TagModelView>, name: Seq<char>) -> Option<u64>
    decreases models.len(),
{
    if models.len() == 0 {
        None
    } else if models[0].name == name {
        models[0].size
    } else {
        size_of_model(models.drop_first(), name)
    }
}

/// What an installed model is listed as.
pub open spec fn model_info(model: TagModelView, supports_thinking: bool) -> ModelInfoView {
    ModelInfoView {
        name: model.name,
        size_bytes: model.size,
        parameter_size: match model.details {
            Some(details) => details.parameter_size,
            None => None,
        },
        quantization: match model.details {
            Some(details) => details.quantization_level,
            None => None,
        },
        supports_thinking,
    }
}

/// The texts among `items`, in order.
pub open spec fn texts_of(items: Seq<JsonTree>) -> Seq<Seq<char>>
    decreases items.len(),
{
    if items.len() == 0 {
        Seq::empty()
    } else {
        let before = texts_of(items.drop_last());
        match items.last().as_text() {
            Some(text) => before.push(text),
            None => before,
        }
    }
}

/// Whether the engine reports a loaded model that holds memory of a graphics
/// processor. No report counts as none.
pub open spec fn offloaded(report: Option<JsonTree>) -> bool {
    match report {
        Some(value) => match value.items_field("models"@) {
            Some(models) => exists|i: int|
                0 <= i < models.len() && ((#[trigger] models[i]).number_field("size_vram"@) matches Some(
                    bytes,
                ) && bytes > 0),
            None => false,
        },
        None => false,
    }
}

/// The body of a chat request.
#[derive(Debug)]
pub struct ChatRequest {
    pub model: String,
    pub messages: Vec<WireMessage>,
    pub stream: bool,
    /// Present only where thinking is asked for and the model can think.
    pub think: Option<bool>,
    /// Present only where the user has set something.
    pub options: Option<GenerationParams>,
}

/// What a [`ChatRequest`] says.
pub struct ChatRequestView {
    pub model: Seq<char>,
    pub messages: Seq<WireMessageView>,
    pub stream: bool,
    pub think: Option<bool>,
    pub options: Option<GenerationParams>,
}

impl View for ChatRequest {
    type V = ChatRequestView;

    open spec fn view(&self) -> ChatRequestView {
        ChatRequestView {
            model: self.model@,
            messages: self.messages.deep_view(),
            stream: self.stream,
            think: self.think,
            options: self.options,
        }
    }
}

/// The body of a request for a complete answer at once.
#[derive(Debug)]
pub struct ChatOnceRequest {
    pub model: String,
    pub messages: Vec<WireMessage>,
    pub stream: bool,
    pub think: bool,
    /// The form that the answer has to have.
    pub format: Option<String>,
}

/// What a [`ChatOnceRequest`] says.
pub struct ChatOnceRequestView {
    pub model: Seq<char>,
    pub messages: Seq<WireMessageView>,
    pub stream: bool,
    pub think: bool,
    pub format: Option<Seq<char>>,
}

impl View for ChatOnceRequest {
    type V = ChatOnceRequestView;

    open spec fn view(&self) -> ChatOnceRequestView {
        ChatOnceRequestView {
            model: self.model@,
            messages: self.messages.deep_view(),
            stream: self.stream,
            think: self.think,
            format: self.format.deep_view(),
        }
    }
}

/// The chat request for a conversation.
pub open spec fn chat_body(
    model: Seq<char>,
    messages: Seq<ChatMessageView>,
    options: ChatOptions,
    can_think: bool,
) -> ChatRequestView {
    ChatRequestView {
        model,
        messages: named(messages),
        stream: true,
        think: if options.think && can_think {
            Some(true)
        } else {
            None
        },
        options: if options.params == GenerationParams::none() {
            None
        } else {
            Some(options.params)
        },
    }
}

/// The request for a complete answer at once.
pub open spec fn chat_once_body(
    model: Seq<char>,
    messages: Seq<ChatMessageView>,
    force_json: bool,
) -> ChatOnceRequestView {
    ChatOnceRequestView {
        model,
        messages: named(messages),
        stream: false,
        think: false,
        format: if force_json {
            Some("json"@)
        } else {
            None
        },
    }
}

/// The text of a complete answer.
pub open spec fn answer_of(value: JsonTree) -> Result<Seq<char>, EngineErrorView> {
    match dig(value.get("message"@), "content"@) {
        Some(content) => match content.as_text() {
            Some(text) => Ok(text),
            None => Err(EngineErrorView::Parse("no message.content in response"@)),
        },
        None => Err(EngineErrorView::Parse("no message.content in response"@)),
    }
}

/// Leaving out models with other names does not change which size is found.
proof fn lemma_size_skip(models: Seq<TagModelView>, name: Seq<char>, n: int)
    requires
        0 <= n <= models.len(),
        forall|i: int| 0 <= i < n ==> (#[trigger] models[i]).name != name,
    ensures
        size_of_model(models, name) == size_of_model(models.skip(n), name),
    decreases n,
{
    if n == 0 {
        assert(models.skip(0) =~= models);
    } else {
        let rest = models.drop_first();
        assert forall|i: int| 0 <= i < n - 1 implies (#[trigger] rest[i]).name != name by {
            assert(rest[i] == models[i + 1]);
        }
        lemma_size_skip(rest, name, n - 1);
        assert(rest.skip(n - 1) =~= models.skip(n));
    }
}

impl OllamaBackend {
    /// Whether the engine is using a graphics processor, by its own report of
    /// what it has loaded.
    pub fn gpu_offload_detected(report: Option<&Json>) -> (r: bool)
        ensures
            r == offloaded(
                match report {
                    Some(value) => Some(value.tree()),
                    None => None,
                },
            ),
    {
        let value: &Json = match report {
            Some(value) => value,
            None => {
                return false;
            },
        };
        let models: &Vec<Json> = match value.items_field("models") {
            Some(models) => models,
            None => {
                return false;
            },
        };
        let n: usize = models.len();
        let ghost items = trees(models@);
        for i in 0..n
            invariant
                n == models@.len(),
                items == trees(models@),
                report == Some(value),
                value.tree().items_field("models"@) == Some(items),
                forall|k: int|
                    0 <= k < i ==> !((#[trigger] items[k]).number_field("size_vram"@) matches Some(
                        bytes,
                    ) && bytes > 0),
        {
            assert(items[i as int] == models@[i as int].tree());
            if let Some(bytes) = models[i].number_field("size_vram") {
                if bytes > 0 {
                    return true;
                }
            }
        }
        false
    }

    /// The size on disk of an installed model.
    pub fn model_size_bytes(models: &[TagModel], model: &str) -> (r: Option<u64>)
        ensures
            r == size_of_model(models.deep_view(), model@),
    {
        let n: usize = models.len();
        let ghost all = models.deep_view();
        for i in 0..n
            invariant
                n == models@.len(),
                all == models.deep_view(),
                forall|k: int| 0 <= k < i ==> (#[trigger] all[k]).name != model@,
        {
            assert(all[i as int] == models@[i as int]@);
            if text_eq(models[i].name.as_str(), model) {
                proof {
                    lemma_size_skip(all, model@, i as int);
                    assert(all.skip(i as int)[0] == all[i as int]);
                }
                return models[i].size;
            }
        }
        proof {
            lemma_size_skip(all, model@, n as int);
        }
        None
    }

    /// The capabilities that the engine advertises for a model.
    pub fn capabilities(value: &Json) -> (r: Vec<String>)
        ensures
            r.deep_view() == match value.tree().items_field("capabilities"@) {
                Some(items) => texts_of(items),
                None => Seq::empty(),
            },
    {
        let mut r: Vec<String> = Vec::new();
        assert(r.deep_view() =~= Seq::empty());
        let items: &Vec<Json> = match value.items_field("capabilities") {
            Some(items) => items,
            None => {
                return r;
            },
        };
        let n: usize = items.len();
        let ghost all = trees(items@);
        assert(all.take(0) =~= Seq::empty());
        for i in 0..n
            invariant
                n == items@.len(),
                all == trees(items@),
                r.deep_view() == texts_of(all.take(i as int)),
        {
            let ghost before = r.deep_view();
            proof {
                assert(all.take(i + 1).drop_last() =~= all.take(i as int));
                assert(all.take(i + 1).last() == items@[i as int].tree());
            }
            if let Some(text) = items[i].as_str() {
                r.push(text.to_string());
                assert(r.deep_view() =~= before.push(text@));
            }
        }
        assert(all.take(n as int) =~= all);
        r
    }

    /// Whether a model may be asked to think. Not knowing its capabilities counts
    /// as no: asking in vain fails the whole request.
    pub fn supports_thinking(capabilities: Option<&Vec<String>>) -> (r: bool)
        ensures
            r == match capabilities {
                Some(texts) => texts.deep_view().contains("thinking"@),
                None => false,
            },
    {
        match capabilities {
            Some(texts) => contains_text(texts.as_slice(), "thinking"),
            None => false,
        }
    }

    /// The installed models, with what was found out of each about thinking.
    pub fn list_models(models: Vec<TagModel>, thinking: &[bool]) -> (r: Vec<ModelInfo>)
        ensures
            r@.len() == if models@.len() <= thinking@.len() {
                models@.len()
            } else {
                thinking@.len()
            },
            forall|i: int|
                0 <= i < r@.len() ==> (#[trigger] r@[i])@ == model_info(models@[i]@, thinking@[i]),
    {
        let mut r: Vec<ModelInfo> = Vec::new();
        let ghost given = models@;
        let known: usize = thinking.len();
        let mut i: usize = 0;
        for model in it: models
            invariant
                it.seq() == given,
                known == thinking@.len(),
                i == if it.index() <= known {
                    it.index() as int
                } else {
                    known as int
                },
                r@.len() == i,
                forall|k: int|
                    0 <= k < i ==> (#[trigger] r@[k])@ == model_info(given[k]@, thinking@[k]),
        {
            if i < known {
                let ghost said = model@;
                let (parameter_size, quantization) = match model.details {
                    Some(details) => (details.parameter_size, details.quantization_level),
                    None => (None, None),
                };
                let info = ModelInfo {
                    name: model.name,
                    size_bytes: model.size,
                    parameter_size,
                    quantization,
                    supports_thinking: thinking[i],
                };
                assert(info@ == model_info(said, thinking@[i as int]));
                r.push(info);
                i = i + 1;
            }
        }
        r
    }

    /// The body of a chat request. Thinking is left out where the model cannot
    /// think, rather than failing it, and so are settings where none is set.
    pub fn chat_request(
        model: &str,
        messages: &[ChatMessage],
        options: ChatOptions,
        can_think: bool,
    ) -> (r: ChatRequest)
        ensures
            r@ == (ChatRequestView {
                model: model@,
                messages: named(messages.deep_view()),
                stream: true,
                think: if options.think && can_think {
                    Some(true)
                } else {
                    None
                },
                options: if options.params == GenerationParams::none() {
                    None
                } else {
                    Some(options.params)
                },
            }),
            r@ == chat_body(model@, messages.deep_view(), options, can_think),
            r.messages@.len() == messages@.len(),
            forall|i: int|
                0 <= i < r.messages@.len() ==> (#[trigger] r.messages@[i]).content@
                    == messages@[i].content@,
    {
        ChatRequest {
            model: model.to_string(),
            messages: wire_named(messages),
            stream: true,
            think: if options.think && can_think {
                Some(true)
            } else {
                None
            },
            options: if options.params.is_empty() {
                None
            } else {
                Some(options.params)
            },
        }
    }

    /// The body of a request for a complete answer at once, without thinking.
    pub fn chat_once_request(model: &str, messages: &[ChatMessage], force_json: bool) -> (r:
        ChatOnceRequest)
        ensures
            r@ == (ChatOnceRequestView {
                model: model@,
                messages: named(messages.deep_view()),
                stream: false,
                think: false,
                format: if force_json {
                    Some("json"@)
                } else {
                    None
                },
            }),
            r@ == chat_once_body(model@, messages.deep_view(), force_json),
            r.messages@.len() == messages@.len(),
            forall|i: int|
                0 <= i < r.messages@.len() ==> (#[trigger] r.messages@[i]).content@
                    == messages@[i].content@,
    {
        ChatOnceRequest {
            model: model.to_string(),
            messages: wire_named(messages),
            stream: false,
            think: false,
            format: if force_json {
                Some("json".to_string())
            } else {
                None
            },
        }
    }

    /// The text of a complete answer.
    pub fn chat_once(value: &Json) -> (r: Result<String, EngineError>)
        ensures
            outcome(r) == answer_of(value.tree()),
    {
        let text: Option<&str> = match value.get("message") {
            Some(message) => message.text_field("content"),
            None => None,
        };
        match text {
            Some(text) => Ok(text.to_string()),
            None => Err(EngineError::Parse("no message.content in response".to_string())),
        }
    }
}

/// The body of the request that unloads a model: a generation without a prompt
/// that is to be kept for no time.
#[derive(Debug)]
pub struct UnloadRequest {
    pub model: String,
    pub keep_alive: u32,
}

/// The request that unloads a model.
pub fn unload_request(model: &str) -> (r: UnloadRequest)
    ensures
        r.model@ == model@,
        r.keep_alive == 0,
{
    UnloadRequest { model: model.to_string(), keep_alive: 0 }
}

/// Calibration is smoothed: with a figure to start from, one more generation
/// leaves it where it was, or between there and the new measurement.
pub proof fn law_calibration_is_smoothed(
    figure: int,
    size_bytes: u64,
    count: u64,
    duration_ns: u64,
)
    ensures
        ({
            let sample = sample(size_bytes, count, duration_ns);
            calibrated(Some(figure), size_bytes, count, duration_ns) matches Some(after) && (after
                == figure || figure <= after <= sample || sample <= after <= figure)
        }),
{
    law_smoothing_stays_between(figure, sample(size_bytes, count, duration_ns));
}

/// How a version is written.
pub open spec fn version_text(version: Version) -> Seq<char> {
    decimal(version.0 as nat) + "."@ + decimal(version.1 as nat) + "."@ + decimal(
        version.2 as nat,
    )
}

/// Reading a version undoes writing it.
pub proof fn law_written_versions_are_read_back(version: Version)
    ensures
        version_of(version_text(version)) == Some(version),
{
    let a = decimal(version.0 as nat);
    let b = decimal(version.1 as nat);
    let c = decimal(version.2 as nat);
    let s = version_text(version);
    law_decimal_writes_the_number(version.0 as nat);
    law_decimal_writes_the_number(version.1 as nat);
    law_decimal_writes_the_number(version.2 as nat);
    reveal_strlit(".");
    assert(s[0] == a[0] && CharClass::Digit.has(a[0]));
    assert(s.last() == c.last() && CharClass::Digit.has(c[c.len() - 1]));
    lemma_nothing_to_trim(s);
    assert(leading(s, CharClass::Just('v')) == 0);
    assert(skip_leading(s, CharClass::Just('v')) =~= s);
    assert(s =~= a.push('.') + (b.push('.') + c));
    lemma_split_first(a, b.push('.') + c, '.');
    lemma_split_first(b, c, '.');
    lemma_split_first(c, Seq::empty(), '.');
    lemma_leading_is(c, CharClass::Digit, c.len() as int);
    assert(take_leading(c, CharClass::Digit) =~= c);
    let parts = split(s, '.');
    assert(parts.len() == 3 && parts[0] == a && parts[1] == b && parts[2] == c);
}

/// A version is never an update to itself, and of two versions at most one is
/// newer than the other.
pub proof fn law_newer_is_strict(a: Version, b: Version)
    ensures
        !newer(a, a),
        !(newer(a, b) && newer(b, a)),
        a == b || newer(a, b) || newer(b, a),
{
}

/// A generation counts exactly where it had sixteen tokens or more, took any time,
/// and was of a model of a gigabyte or more. The first that counts is the figure;
/// each later one counts three tenths.
pub proof fn law_only_real_generations_count(
    before: Option<int>,
    size_bytes: u64,
    count: u64,
    duration_ns: u64,
)
    ensures
        count < 16 || duration_ns == 0 || size_bytes < 1_073_741_824 ==> calibrated(
            before,
            size_bytes,
            count,
            duration_ns,
        ) == before,
        count >= 16 && duration_ns > 0 && size_bytes >= 1_073_741_824 ==> {
            let measured = sample(size_bytes, count, duration_ns);
            &&& calibrated(before, size_bytes, count, duration_ns) matches Some(after)
            &&& before is None ==> after == measured
            &&& before matches Some(figure) ==> 10 * after <= 7 * figure + 3 * measured < 10 * after
                + 10
        },
{
    if let Some(figure) = before {
        law_samples_count_three_tenths(figure, sample(size_bytes, count, duration_ns));
    }
}

/// The version behind white space and any number of `v`.
proof fn lemma_undressed(before: Seq<char>, vees: Seq<char>, s: Seq<char>, after: Seq<char>)
    requires
        is_blank(before),
        is_blank(after),
        forall|i: int| 0 <= i < vees.len() ==> #[trigger] vees[i] == 'v',
        s.len() > 0,
        CharClass::Digit.has(s[0]),
        !is_white_space(s.last()),
    ensures
        skip_leading(trim(before + (vees + s) + after), CharClass::Just('v')) == s,
{
    let body = vees + s;
    let class = CharClass::Just('v');
    assert(body.last() == s.last());
    if vees.len() > 0 {
        assert(body[0] == vees[0]);
    } else {
        assert(body[0] == s[0]);
    }
    law_trimming_takes_off_white_space_alone(before, body, after);
    assert forall|i: int| 0 <= i < vees.len() implies class.has(#[trigger] body[i]) by {
        assert(body[i] == vees[i]);
    }
    assert(body[vees.len() as int] == s[0]);
    lemma_leading_is(body, class, vees.len() as int);
    assert(body.skip(vees.len() as int) =~= s);
}

/// The digits that the first part of a text begins with.
proof fn lemma_leading_digits(digits: Seq<char>, suffix: Seq<char>)
    requires
        forall|i: int| 0 <= i < digits.len() ==> CharClass::Digit.has(#[trigger] digits[i]),
        suffix.len() > 0 ==> !CharClass::Digit.has(suffix[0]),
    ensures
        split(digits + suffix, '.').len() > 0,
        take_leading(split(digits + suffix, '.')[0], CharClass::Digit) == digits,
{
    let all = digits + suffix;
    let class = CharClass::AnyBut('.');
    lemma_leading(all, class);
    let n = leading(all, class) as int;
    let first = all.take(n);
    if n < digits.len() {
        assert(all[n] == digits[n]);
    }
    assert forall|i: int| 0 <= i < digits.len() implies CharClass::Digit.has(
        #[trigger] first[i],
    ) by {
        assert(first[i] == digits[i]);
    }
    if digits.len() < first.len() {
        assert(first[digits.len() as int] == suffix[0]);
    }
    lemma_leading_is(first, CharClass::Digit, digits.len() as int);
    assert(first.take(digits.len() as int) =~= digits);
    if n >= all.len() {
        assert(first =~= all);
    }
}

/// A version is read however it is dressed: after white space and any number of
/// `v`, and with anything behind the digits of its patch number.
pub proof fn law_dressed_versions_are_read(
    before: Seq<char>,
    vees: Seq<char>,
    version: Version,
    suffix: Seq<char>,
    after: Seq<char>,
)
    requires
        is_blank(before),
        is_blank(after),
        forall|i: int| 0 <= i < vees.len() ==> #[trigger] vees[i] == 'v',
        suffix.len() > 0 ==> !CharClass::Digit.has(suffix[0]) && !is_white_space(suffix.last()),
    ensures
        version_of(before + (vees + (version_text(version) + suffix)) + after) == Some(version),
{
    let a = decimal(version.0 as nat);
    let b = decimal(version.1 as nat);
    let c = decimal(version.2 as nat);
    let s = version_text(version) + suffix;
    let tail = c + suffix;
    law_decimal_writes_the_number(version.0 as nat);
    law_decimal_writes_the_number(version.1 as nat);
    law_decimal_writes_the_number(version.2 as nat);
    reveal_strlit(".");
    assert(s =~= a.push('.') + (b.push('.') + tail));
    assert(s[0] == a[0] && CharClass::Digit.has(a[0]));
    if suffix.len() > 0 {
        assert(s.last() == suffix.last());
    } else {
        assert(s.last() == c[c.len() - 1] && CharClass::Digit.has(c[c.len() - 1]));
    }
    lemma_undressed(before, vees, s, after);
    lemma_split_first(a, b.push('.') + tail, '.');
    lemma_split_first(b, tail, '.');
    lemma_leading_digits(c, suffix);
    let parts = split(s, '.');
    assert(parts[0] == a && parts[1] == b && parts[2] == split(tail, '.')[0]);
}

/// A version without a patch number has patch zero, and one without a minor number
/// is none.
pub proof fn law_short_versions_are_read(major: u32, minor: u32)
    ensures
        version_of(decimal(major as nat) + seq!['.'] + decimal(minor as nat)) == Some(
            (major, minor, 0u32),
        ),
        version_of(decimal(major as nat)) is None,
{
    let a = decimal(major as nat);
    let b = decimal(minor as nat);
    let s = a + seq!['.'] + b;
    law_decimal_writes_the_number(major as nat);
    law_decimal_writes_the_number(minor as nat);
    assert(s[0] == a[0] && CharClass::Digit.has(a[0]));
    assert(CharClass::Digit.has(a[a.len() - 1]));
    assert(s.last() == b.last() && CharClass::Digit.has(b[b.len() - 1]));
    lemma_nothing_to_trim(s);
    lemma_nothing_to_trim(a);
    assert(leading(s, CharClass::Just('v')) == 0);
    assert(leading(a, CharClass::Just('v')) == 0);
    assert(skip_leading(s, CharClass::Just('v')) =~= s);
    assert(skip_leading(a, CharClass::Just('v')) =~= a);
    assert(s =~= a.push('.') + b);
    lemma_split_first(a, b, '.');
    lemma_split_first(b, Seq::empty(), '.');
}

/// The size that is found is that of the first model of the name, and there is none
/// where no model has it.
pub proof fn law_sizes_are_found_by_name(models: Seq<TagModelView>, name: Seq<char>, n: int)
    requires
        0 <= n <= models.len(),
        forall|i: int| 0 <= i < n ==> (#[trigger] models[i]).name != name,
        n < models.len() ==> models[n].name == name,
    ensures
        size_of_model(models, name) == if n < models.len() {
            models[n].size
        } else {
            None
        },
{
    lemma_size_skip(models, name, n);
    if n < models.len() {
        assert(models.skip(n)[0] == models[n]);
    }
}

/// An installed model is listed with what the engine says of it.
pub proof fn law_models_are_listed_as_reported(model: TagModelView, supports_thinking: bool)
    ensures
        ({
            let info = model_info(model, supports_thinking);
            &&& info.name == model.name
            &&& info.size_bytes == model.size
            &&& info.supports_thinking == supports_thinking
            &&& model.details matches Some(details) ==> info.parameter_size
                == details.parameter_size && info.quantization == details.quantization_level
            &&& model.details is None ==> info.parameter_size is None && info.quantization is None
        }),
{
}

/// The capabilities are the texts that the engine lists, all of them and in order.
pub proof fn law_every_capability_is_read(items: Seq<JsonTree>)
    ensures
        ({
            let texts = items.filter(|item: JsonTree| item is Text);
            &&& texts_of(items).len() == texts.len()
            &&& forall|i: int|
                0 <= i < texts.len() ==> JsonTree::Text(#[trigger] texts_of(items)[i]) == texts[i]
        }),
    decreases items.len(),
{
    reveal(Seq::filter);
    if items.len() > 0 {
        law_every_capability_is_read(items.drop_last());
    }
}

/// The engine uses a graphics processor where one of its models holds any of that
/// memory, however little, and not where none does.
pub proof fn law_any_video_memory_counts(value: JsonTree, models: Seq<JsonTree>, i: int, bytes: u64)
    requires
        value.get("models"@) == Some(JsonTree::Array(models)),
    ensures
        0 <= i < models.len() && bytes > 0 && models[i].get("size_vram"@) == Some(
            JsonTree::Number(Some(bytes)),
        ) ==> offloaded(Some(value)),
        (forall|k: int|
            0 <= k < models.len() ==> !((#[trigger] models[k]).get("size_vram"@) matches Some(
                JsonTree::Number(Some(held)),
            ) && held > 0)) ==> !offloaded(Some(value)),
        !offloaded(None),
{
    if 0 <= i < models.len() && bytes > 0 && models[i].get("size_vram"@) == Some(
        JsonTree::Number(Some(bytes)),
    ) {
        assert(models[i].number_field("size_vram"@) == Some(bytes));
    }
    if offloaded(Some(value)) {
        let k = choose|k: int|
            0 <= k < models.len() && ((#[trigger] models[k]).number_field("size_vram"@) matches Some(
                held,
            ) && held > 0);
        let held = models[k].number_field("size_vram"@)->0;
        assert(models[k].get("size_vram"@) == Some(JsonTree::Number(Some(held))));
    }
}

/// A complete answer is the content of its message, character for character; a
/// reply without one is an error.
pub proof fn law_answers_arrive_as_sent(value: JsonTree, message: JsonTree, text: Seq<char>)
    ensures
        value.get("message"@) == Some(message) && message.get("content"@) == Some(
            JsonTree::Text(text),
        ) ==> answer_of(value) == Ok::<Seq<char>, EngineErrorView>(text),
        value.get("message"@) is None ==> answer_of(value) is Err,
        value.get("message"@) == Some(message) && !(message.get("content"@) matches Some(
            JsonTree::Text(_),
        )) ==> answer_of(value) is Err,
{
}

/// Whether the messages of a request are those of a conversation: each in its place,
/// under its role's name and as it was written.
pub open spec fn carries(sent: Seq<WireMessageView>, messages: Seq<ChatMessageView>) -> bool {
    &&& sent.len() == messages.len()
    &&& forall|i: int|
        0 <= i < messages.len() ==> (#[trigger] sent[i]).content == messages[i].content
    &&& forall|i: int|
        0 <= i < messages.len() ==> (#[trigger] sent[i]).role == match messages[i].role {
            ChatRole::System => "system"@,
            ChatRole::User => "user"@,
            ChatRole::Assistant => "assistant"@,
        }
}

/// A chat request carries the conversation and the user's settings as they are. It
/// asks for thinking exactly where that is wanted of a model that can think, and
/// carries settings exactly where any is set.
pub proof fn law_chats_are_asked_for_as_set(
    model: Seq<char>,
    messages: Seq<ChatMessageView>,
    options: ChatOptions,
    can_think: bool,
)
    ensures
        ({
            let body = chat_body(model, messages, options, can_think);
            &&& body.model == model
            &&& carries(body.messages, messages)
            &&& body.stream
            &&& body.think == Some(true) <==> options.think && can_think
            &&& body.think is None <==> !(options.think && can_think)
            &&& body.options matches Some(params) ==> params == options.params
            &&& body.options is None <==> {
                let params = options.params;
                &&& params.num_ctx is None
                &&& params.temperature is None
                &&& params.top_k is None
                &&& params.top_p is None
                &&& params.min_p is None
                &&& params.repeat_last_n is None
                &&& params.repeat_penalty is None
                &&& params.presence_penalty is None
                &&& params.frequency_penalty is None
            }
        }),
{
}

/// A request for a complete answer carries the conversation as it is, without
/// thinking and without a stream, and fixes the form of the answer exactly where
/// that is wanted.
pub proof fn law_complete_answers_are_asked_for(
    model: Seq<char>,
    messages: Seq<ChatMessageView>,
    force_json: bool,
)
    ensures
        ({
            let body = chat_once_body(model, messages, force_json);
            &&& body.model == model
            &&& carries(body.messages, messages)
            &&& !body.stream
            &&& !body.think
            &&& body.format == Some("json"@) <==> force_json
            &&& body.format is None <==> !force_json
        }),
{
}

} // verus!
