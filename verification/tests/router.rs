use local_agents_ops::engines::{ChatMessage, ChatRole, EngineError};
use local_agents_ops::router::{
    conclude, deterministic_trim, parse_decision, provider_label, role_label, route_and_compress,
    shortcut_decision, RouteStep, INSTRUCTIONS, MAX_HISTORY_MESSAGES, SHORTCUT_MAX_CHARS,
};

fn providers() -> Vec<String> {
    vec!["anthropic".to_string(), "openai".to_string()]
}

#[test]
fn short_opening_question_skips_the_model_call() {
    let decision = shortcut_decision(&providers(), &[], "Rustの所有権とは？")
        .expect("a short opening question should shortcut");
    assert!(decision.shortcut);
    // The question has to survive verbatim: paraphrasing a short prompt is
    // how proper nouns and the actual subject get lost.
    assert_eq!(decision.compressed_prompt, "Rustの所有権とは？");
    assert_eq!(decision.providers, providers());
}

#[test]
fn existing_conversation_still_goes_to_the_parent_model() {
    let history = [ChatMessage {
        role: ChatRole::User,
        content: "前の質問".to_string(),
    }];
    assert!(shortcut_decision(&providers(), &history, "短い質問").is_none());
}

#[test]
fn long_question_still_goes_to_the_parent_model() {
    let long = "あ".repeat(SHORTCUT_MAX_CHARS + 1);
    assert!(shortcut_decision(&providers(), &[], &long).is_none());
}

/// Counted in characters, not bytes.
#[test]
fn threshold_counts_characters_not_bytes() {
    let multibyte = "あ".repeat(SHORTCUT_MAX_CHARS);
    assert!(multibyte.len() > SHORTCUT_MAX_CHARS);
    assert!(shortcut_decision(&providers(), &[], &multibyte).is_some());
}

/// "Send this to nobody" is the cheapest outcome the router can produce and
/// has to survive as a decision.
#[test]
fn declining_every_provider_is_a_decision_not_an_error() {
    let decision = parse_decision(r#"{"providers": [], "compressed_prompt": ""}"#, &providers())
        .expect("an empty provider list is a legitimate answer");
    assert!(decision.providers.is_empty());
}

/// Same when the model names only providers that weren't on offer.
#[test]
fn unknown_provider_names_filter_down_to_sending_nothing() {
    let decision = parse_decision(
        r#"{"providers": ["some-service-we-do-not-have"], "compressed_prompt": "x"}"#,
        &providers(),
    )
    .expect("filtered-out providers should not be an error");
    assert!(decision.providers.is_empty());
}

/// Choosing providers but leaving nothing to send them is broken output.
#[test]
fn choosing_providers_with_no_prompt_is_still_an_error() {
    assert!(parse_decision(
        r#"{"providers": ["openai"], "compressed_prompt": "   "}"#,
        &providers()
    )
    .is_err());
}

#[test]
fn malformed_output_is_still_an_error() {
    assert!(parse_decision("not json at all", &providers()).is_err());
    assert!(parse_decision(r#"{"compressed_prompt": "x"}"#, &providers()).is_err());
}

fn said(role: ChatRole, content: &str) -> ChatMessage {
    ChatMessage {
        role,
        content: content.to_string(),
    }
}

#[test]
fn only_the_last_messages_are_shown() {
    let history: Vec<ChatMessage> = (0..9)
        .map(|i| said(ChatRole::User, &format!(" question\n {i} ")))
        .collect();
    let shown = deterministic_trim(&history);
    assert_eq!(shown.len(), MAX_HISTORY_MESSAGES);
    assert_eq!(shown[0].content, "question 3");
    assert_eq!(shown[5].content, "question 8");
    assert_eq!(deterministic_trim(&history[..2]).len(), 2);
    assert!(deterministic_trim(&[]).is_empty());
}

#[test]
fn the_parent_model_is_asked_in_these_words() {
    let history = [said(ChatRole::User, "a  b"), said(ChatRole::Assistant, "c")];
    let candidates = vec!["gemini".to_string(), "anthropic".to_string(), "other".to_string()];
    match route_and_compress(&candidates, &history, "新しい?", "Assistant") {
        RouteStep::Ask(messages) => {
            assert_eq!(messages.len(), 1);
            assert_eq!(messages[0].role, ChatRole::User);
            assert_eq!(
                messages[0].content,
                format!(
                    "{INSTRUCTIONS}\n\n候補サービス:\n- gemini (Gemini)\n- anthropic (Assistant)\n- other (other)\n\nこれまでのユーザーの発言:\nユーザー: a b\nアシスタント: c\n\n新しい質問:\n新しい?"
                )
            );
        }
        RouteStep::Decided(_) => panic!("a conversation needs the parent model"),
    }
}

#[test]
fn a_long_opening_question_has_no_history_to_show() {
    let long = "x".repeat(SHORTCUT_MAX_CHARS + 1);
    match route_and_compress(&[], &[], &long, "Assistant") {
        RouteStep::Ask(messages) => {
            assert!(messages[0].content.contains("これまでのユーザーの発言:\n(まだ会話の最初です)\n\n新しい質問:\nx"));
        }
        RouteStep::Decided(_) => panic!("a long question needs the parent model"),
    }
    match route_and_compress(&providers(), &[], "短い質問", "Assistant") {
        RouteStep::Decided(decision) => assert!(decision.shortcut),
        RouteStep::Ask(_) => panic!("a short opening question needs no model"),
    }
}

#[test]
fn providers_are_called_by_their_names() {
    assert_eq!(provider_label("openai", "Assistant"), "ChatGPT");
    assert_eq!(provider_label("gemini", "Assistant"), "Gemini");
    assert_eq!(provider_label("xai", "Assistant"), "Grok");
    assert_eq!(provider_label("anthropic", "Assistant"), "Assistant");
    assert_eq!(provider_label("else", "Assistant"), "else");
    assert_eq!(role_label(ChatRole::System), "システム");
}

#[test]
fn a_decision_keeps_the_order_of_the_answer() {
    let decision = parse_decision(
        r#" {"providers": ["openai", 3, "nobody", "anthropic"], "compressed_prompt": " ask "} "#,
        &providers(),
    )
    .unwrap();
    assert_eq!(decision.providers, vec!["openai", "anthropic"]);
    assert_eq!(decision.compressed_prompt, " ask ");
    assert!(!decision.shortcut);
}

#[test]
fn router_errors_have_messages() {
    let failed = |raw: &str| parse_decision(raw, &providers()).unwrap_err().message();
    assert_eq!(
        failed(r#"{"compressed_prompt": "x"}"#),
        "could not parse router output: missing providers array"
    );
    assert_eq!(
        failed(r#"{"providers": ["openai", "anthropic"], "compressed_prompt": " \n"}"#),
        "could not parse router output: chose 2 provider(s) but left compressed_prompt empty"
    );
    let text = failed(" nope");
    assert!(text.starts_with("could not parse router output: "));
    assert!(text.ends_with(":  nope"));

    let unreachable = conclude(
        Err(EngineError::Response("busy".to_string())),
        &providers(),
    );
    assert_eq!(
        unreachable.unwrap_err().message(),
        "engine error: engine returned an error: busy"
    );
    let decided = conclude(Ok(r#"{"providers": []}"#.to_string()), &providers()).unwrap();
    assert!(decided.providers.is_empty());
}
