use local_agents_ops::engines::anthropic::AnthropicBackend;
use local_agents_ops::engines::gemini::GeminiBackend;
use local_agents_ops::engines::ollama::{
    parse_version, unload_request, version_is_supported, OllamaBackend, TagModel, TagModelDetails,
};
use local_agents_ops::engines::openai_compat::OpenAiCompatBackend;
use local_agents_ops::engines::wire::WireMessage;
use local_agents_ops::engines::{
    ChatMessage, ChatOptions, ChatRole, EngineError, Fraction, GenerationParams,
};
use local_agents_ops::json::parse_json;
use local_agents_ops::throughput::{Throughput, BYTE_PER_SEC, GB_PER_SEC};

const GIB: u64 = 1024 * 1024 * 1024;

fn message(role: ChatRole, content: &str) -> ChatMessage {
    ChatMessage { role, content: content.to_string() }
}

fn conversation() -> Vec<ChatMessage> {
    vec![
        message(ChatRole::System, "be brief"),
        message(ChatRole::User, "hi"),
        message(ChatRole::Assistant, "hello"),
        message(ChatRole::System, "be kind"),
        message(ChatRole::User, "bye"),
    ]
}

fn wire(messages: &[WireMessage]) -> Vec<(&str, &str)> {
    messages.iter().map(|m| (m.role.as_str(), m.content.as_str())).collect()
}

fn thinking() -> ChatOptions {
    ChatOptions { think: true, params: GenerationParams::default() }
}

fn words(engine: &OllamaBackend) -> (u128, u128) {
    engine.observed_gb_per_sec().unwrap().words()
}

#[test]
fn versions_are_read() {
    assert_eq!(parse_version("0.23.2"), Some((0, 23, 2)));
    assert_eq!(parse_version("0.24.0-rc1"), Some((0, 24, 0)));
    assert_eq!(parse_version(" v1.2.3\n"), Some((1, 2, 3)));
    assert_eq!(parse_version("vv1.2"), Some((1, 2, 0)));
    assert_eq!(parse_version("1.2.x"), Some((1, 2, 0)));
    assert_eq!(parse_version("1.2.99999999999"), Some((1, 2, 0)));
    assert_eq!(parse_version("1.2.3.4"), Some((1, 2, 3)));
    assert_eq!(parse_version("+1.+2.3"), Some((1, 2, 3)));
    assert_eq!(parse_version("4294967295.0.0"), Some((u32::MAX, 0, 0)));
    assert_eq!(parse_version("4294967296.0.0"), None);
    assert_eq!(parse_version("1"), None);
    assert_eq!(parse_version("1.2-rc1"), None);
    assert_eq!(parse_version("-1.2"), None);
    assert_eq!(parse_version(""), None);
    assert_eq!(parse_version("."), None);
}

#[test]
fn written_versions_are_read_back() {
    for version in [(0, 0, 0), (0, 9, 0), (1, 23, 456), (u32::MAX, u32::MAX, u32::MAX)] {
        let text = format!("{}.{}.{}", version.0, version.1, version.2);
        assert_eq!(parse_version(&text), Some(version));
    }
}

#[test]
fn the_minimum_version_is_supported() {
    assert!(version_is_supported("0.9.0"));
    assert!(version_is_supported("0.9.1"));
    assert!(version_is_supported("1.0.0"));
    assert!(!version_is_supported("0.8.99"));
    assert!(!version_is_supported("0.1.200"));
    // More likely a newer format than an ancient engine.
    assert!(version_is_supported("nightly"));
}

#[test]
fn throughput_is_learned_from_generations() {
    let mut engine = OllamaBackend::default_local();
    assert_eq!(engine.observed_gb_per_sec(), None);
    // 20 tokens of 2GB each in two seconds.
    engine.record_generation(2 * GIB, 20, 2_000_000_000);
    assert_eq!(engine.observed_gb_per_sec(), Some(Throughput::from_units(20 * GB_PER_SEC)));
    // A sample of 30GB/s counts three tenths.
    engine.record_generation(3 * GIB, 20, 2_000_000_000);
    assert_eq!(engine.observed_gb_per_sec(), Some(Throughput::from_units(23 * GB_PER_SEC)));
    assert_eq!(engine.base_url, "http://localhost:11434");
}

#[test]
fn fractions_of_a_byte_count() {
    let mut engine = OllamaBackend::default_local();
    // A third of a byte per second is not lost.
    engine.record_generation(GIB, 20, 3_000_000_000);
    let exact = 20 * GB_PER_SEC / 3;
    assert_eq!(engine.observed_gb_per_sec(), Some(Throughput::from_units(exact)));
    engine.record_generation(GIB, 40, 3_000_000_000);
    assert_eq!(
        engine.observed_gb_per_sec(),
        Some(Throughput::from_units((exact * 7 + 40 * GB_PER_SEC / 3 * 3) / 10))
    );
}

#[test]
fn a_smoothed_figure_stays_between() {
    let low = Throughput::measure(GIB, 16, 1_000_000_000);
    let high = Throughput::measure(u64::MAX, u64::MAX, 1);
    for (figure, sample) in [(low, high), (high, low), (low, low)] {
        let smoothed = figure.smooth(&sample).words();
        assert!(low.words() <= smoothed && smoothed <= high.words());
    }
    assert_eq!(low.smooth(&low), low);
}

#[test]
fn small_samples_do_not_calibrate() {
    let mut engine = OllamaBackend::new("http://x".to_string());
    engine.record_generation(GIB - 1, 100, 1_000_000_000);
    assert_eq!(engine.observed_gb_per_sec(), None);
    engine.record_generation(GIB, 15, 1_000_000_000);
    assert_eq!(engine.observed_gb_per_sec(), None);
    engine.record_generation(GIB, 16, 0);
    assert_eq!(engine.observed_gb_per_sec(), None);
    engine.record_generation(GIB, 16, 1_000_000_000);
    assert_eq!(engine.observed_gb_per_sec(), Some(Throughput::from_units(16 * GB_PER_SEC)));
}

#[test]
fn an_absurd_generation_does_not_overflow() {
    let mut engine = OllamaBackend::default_local();
    engine.record_generation(GIB, 32, 1);
    assert_eq!(words(&engine), (32_000_000_000, 0));
    let mut engine = OllamaBackend::default_local();
    engine.record_generation(u64::MAX, u64::MAX, 1);
    // (2^64 - 1)^2 * 10^9 bytes a second.
    let most = (u64::MAX as u128) * (u64::MAX as u128);
    let whole = most / GIB as u128 * 1_000_000_000
        + most % GIB as u128 * 1_000_000_000 / GIB as u128;
    let over = most % GIB as u128 * 1_000_000_000 % GIB as u128;
    assert_eq!(words(&engine), (whole, over * BYTE_PER_SEC));
    // The same again leaves the figure where it is.
    engine.record_generation(u64::MAX, u64::MAX, 1);
    assert_eq!(words(&engine), (whole, over * BYTE_PER_SEC));
    // A sample of 10^9 * (2^64 - 1) bytes a second counts three tenths.
    engine.record_generation(u64::MAX, u64::MAX, u64::MAX);
    let before = whole as f64;
    let sample = u64::MAX as f64 * 1e9 / GIB as f64;
    let after = words(&engine).0 as f64;
    assert!((after / (before * 0.7 + sample * 0.3) - 1.0).abs() < 1e-12);
    let mut slow = OllamaBackend::default_local();
    slow.record_generation(GIB, 16, u64::MAX);
    let expected = 16.0 * GIB as f64 * 1e9 / u64::MAX as f64;
    let (whole, part) = words(&slow);
    assert_eq!(whole, 0);
    assert_eq!(part as f64 / BYTE_PER_SEC as f64, expected);
}

#[test]
fn video_memory_in_use_counts_as_acceleration() {
    let detect = |text: &str| OllamaBackend::gpu_offload_detected(Some(&parse_json(text).unwrap()));
    assert!(detect(r#"{"models":[{"size_vram":0},{"size_vram":1}]}"#));
    assert!(!detect(r#"{"models":[{"size_vram":0},{}]}"#));
    assert!(!detect(r#"{"models":[{"size_vram":"1"},{"size_vram":-1}]}"#));
    assert!(!detect(r#"{"models":[]}"#));
    assert!(!detect(r#"{"models":{}}"#));
    assert!(!detect("[]"));
    assert!(!OllamaBackend::gpu_offload_detected(None));
}

fn tag(name: &str, size: Option<u64>) -> TagModel {
    TagModel { name: name.to_string(), size, details: None }
}

#[test]
fn the_size_of_a_model_is_that_of_the_first_of_its_name() {
    let models = vec![tag("a", None), tag("b", Some(2)), tag("b", Some(3))];
    assert_eq!(OllamaBackend::model_size_bytes(&models, "b"), Some(2));
    assert_eq!(OllamaBackend::model_size_bytes(&models, "a"), None);
    assert_eq!(OllamaBackend::model_size_bytes(&models, "c"), None);
    assert_eq!(OllamaBackend::model_size_bytes(&[], "a"), None);
}

#[test]
fn capabilities_tell_whether_a_model_thinks() {
    let of = |text: &str| OllamaBackend::capabilities(&parse_json(text).unwrap());
    let plain = of(r#"{"capabilities":["completion",7,"tools"]}"#);
    assert_eq!(plain, vec!["completion", "tools"]);
    assert!(!OllamaBackend::supports_thinking(Some(&plain)));
    let thinker = of(r#"{"capabilities":["completion","thinking"]}"#);
    assert!(OllamaBackend::supports_thinking(Some(&thinker)));
    assert!(of(r#"{"capabilities":"thinking"}"#).is_empty());
    assert!(of("{}").is_empty());
    // An engine that does not answer counts as no.
    assert!(!OllamaBackend::supports_thinking(None));
}

#[test]
fn a_model_that_cannot_think_is_not_asked_to() {
    let messages = conversation();
    let body = OllamaBackend::chat_request("m", &messages, thinking(), false);
    assert_eq!(body.think, None);
    assert_eq!(body.model, "m");
    assert!(body.stream);
    assert_eq!(body.options, None);
    assert_eq!(
        wire(&body.messages),
        vec![
            ("system", "be brief"),
            ("user", "hi"),
            ("assistant", "hello"),
            ("system", "be kind"),
            ("user", "bye"),
        ]
    );
    let body = OllamaBackend::chat_request("m", &messages, ChatOptions::default(), true);
    assert_eq!(body.think, None);
}

#[test]
fn a_model_that_thinks_is_asked_to() {
    let body = OllamaBackend::chat_request("m", &conversation(), thinking(), true);
    assert_eq!(body.think, Some(true));
}

#[test]
fn settings_are_sent_only_where_one_is_set() {
    let mut options = ChatOptions::default();
    assert!(options.params.is_empty());
    options.params.temperature = Some(Fraction { bits: 0.7f64.to_bits() });
    assert!(!options.params.is_empty());
    let body = OllamaBackend::chat_request("m", &[], options, true);
    let sent = body.options.unwrap();
    assert_eq!(sent.temperature.map(|f| f64::from_bits(f.bits)), Some(0.7));
    assert_eq!(sent.num_ctx, None);

    let each = [
        GenerationParams { num_ctx: Some(1), ..GenerationParams::default() },
        GenerationParams { top_k: Some(1), ..GenerationParams::default() },
        GenerationParams { top_p: Some(Fraction { bits: 0 }), ..GenerationParams::default() },
        GenerationParams { min_p: Some(Fraction { bits: 0 }), ..GenerationParams::default() },
        GenerationParams { repeat_last_n: Some(-1), ..GenerationParams::default() },
        GenerationParams { repeat_penalty: Some(Fraction { bits: 0 }), ..GenerationParams::default() },
        GenerationParams { presence_penalty: Some(Fraction { bits: 0 }), ..GenerationParams::default() },
        GenerationParams { frequency_penalty: Some(Fraction { bits: 0 }), ..GenerationParams::default() },
    ];
    assert!(each.iter().all(|params| !params.is_empty()));
}

#[test]
fn a_single_answer_is_asked_for_and_read() {
    let body = OllamaBackend::chat_once_request("m", &conversation()[1..2], true);
    assert_eq!(body.format.as_deref(), Some("json"));
    assert!(!body.stream);
    assert!(!body.think);
    assert_eq!(wire(&body.messages), vec![("user", "hi")]);
    assert_eq!(OllamaBackend::chat_once_request("m", &[], false).format, None);

    let read = |text: &str| OllamaBackend::chat_once(&parse_json(text).unwrap());
    assert_eq!(read(r#"{"message":{"content":"x"}}"#).unwrap(), "x");
    for bad in [r#"{"message":{"content":1}}"#, r#"{"message":"x"}"#, "{}", "null"] {
        assert_eq!(
            read(bad).unwrap_err().message(),
            "failed to parse engine response: no message.content in response"
        );
    }
}

#[test]
fn installed_models_are_listed() {
    let models = vec![
        TagModel {
            name: "a".to_string(),
            size: Some(1),
            details: Some(TagModelDetails {
                parameter_size: Some("3B".to_string()),
                quantization_level: Some("Q4".to_string()),
            }),
        },
        tag("b", None),
    ];
    let listed = OllamaBackend::list_models(models, &[true, false]);
    assert_eq!(listed.len(), 2);
    assert_eq!(listed[0].name, "a");
    assert_eq!(listed[0].size_bytes, Some(1));
    assert_eq!(listed[0].parameter_size.as_deref(), Some("3B"));
    assert_eq!(listed[0].quantization.as_deref(), Some("Q4"));
    assert!(listed[0].supports_thinking);
    assert_eq!(listed[1].name, "b");
    assert_eq!(listed[1].parameter_size, None);
    assert!(!listed[1].supports_thinking);
}

#[test]
fn a_model_is_unloaded_by_keeping_it_for_no_time() {
    let body = unload_request("m");
    assert_eq!(body.model, "m");
    assert_eq!(body.keep_alive, 0);
    assert_eq!(
        OllamaBackend::new("http://x".to_string()).endpoint("/api/generate"),
        "http://x/api/generate"
    );
}

#[test]
fn system_messages_stand_apart_for_messages() {
    let backend = AnthropicBackend::new("k".to_string(), "model-1".to_string());
    let body = backend.request("m", &conversation(), thinking());
    assert_eq!(body.model, "m");
    assert_eq!(body.max_tokens, 4096);
    assert!(body.stream);
    assert_eq!(body.system.as_deref(), Some("be brief\n\nbe kind"));
    assert_eq!(
        wire(&body.messages),
        vec![("user", "hi"), ("assistant", "hello"), ("user", "bye")]
    );
    let thinking = body.thinking.unwrap();
    assert_eq!((thinking.kind.as_str(), thinking.display.as_str()), ("adaptive", "summarized"));

    let plain = backend.request("m", &[message(ChatRole::User, "hi")], ChatOptions::default());
    assert_eq!(plain.system, None);
    assert!(plain.thinking.is_none());
    assert_eq!(backend.list_models()[0].name, "model-1");
    assert!(!backend.list_models()[0].supports_thinking);
}

#[test]
fn completions_carry_every_role() {
    let backend = OpenAiCompatBackend::new(
        "https://api.x.ai/v1".to_string(),
        "k".to_string(),
        "grok-4.3".to_string(),
    );
    assert_eq!(backend.chat_url(), "https://api.x.ai/v1/chat/completions");
    let body = backend.request("m", &conversation(), thinking());
    assert_eq!(body.model, "m");
    assert!(body.stream);
    assert_eq!(body.messages.len(), 5);
    assert_eq!(wire(&body.messages)[0], ("system", "be brief"));
    let models = backend.list_models();
    assert_eq!(models.len(), 1);
    assert_eq!(models[0].name, "grok-4.3");
    assert_eq!(models[0].size_bytes, None);
    assert!(!models[0].supports_thinking);
}

#[test]
fn gemini_calls_the_assistant_a_model() {
    let backend = GeminiBackend::new("k".to_string());
    assert_eq!(
        backend.chat_url("m"),
        "https://generativelanguage.googleapis.com/v1beta/models/m:streamGenerateContent?alt=sse"
    );
    let body = backend.request(&conversation(), ChatOptions::default());
    assert_eq!(
        wire(&body.contents),
        vec![("user", "hi"), ("model", "hello"), ("user", "bye")]
    );
    assert_eq!(body.system_instruction.as_deref(), Some("be brief\n\nbe kind"));
    // No system message, and a blank one, are no instruction.
    assert_eq!(
        backend.request(&conversation()[1..3], ChatOptions::default()).system_instruction,
        None
    );
    assert_eq!(
        backend
            .request(&[message(ChatRole::System, "")], ChatOptions::default())
            .system_instruction,
        None
    );
    assert_eq!(backend.list_models()[0].name, "gemini-3.6-flash");
}

#[test]
fn engine_errors_have_messages() {
    assert_eq!(
        EngineError::Unreachable("u".to_string(), "r".to_string()).message(),
        "could not reach engine at u: r"
    );
    assert_eq!(
        EngineError::rejected("500 Internal Server Error", "oops").message(),
        "engine returned an error: 500 Internal Server Error: oops"
    );
    assert_eq!(
        EngineError::Parse("p".to_string()).message(),
        "failed to parse engine response: p"
    );
}
