//! Deciding which online services a question is worth sending to, and in which
//! words.
use vstd::prelude::*;

use crate::engines::{ChatMessage, ChatMessageView, ChatRole, EngineError, EngineErrorView};
use crate::json::{json_of_text, parse_json, trees, Json, JsonTree};
use crate::outcome::outcome;
use crate::text::{
    chars_of, collapse_white_space, contains_text, decimal, decimal_text, is_blank,
    is_single_spaced, is_white_space, join, law_collapsing_keeps_the_words,
    law_only_blank_texts_vanish, law_trimming_takes_off_white_space_alone, lemma_join_push,
    text_eq, trim, trimmed, words,
};

verus! {

/// Which services to call, and with which question.
#[derive(Debug)]
pub struct RouterDecision {
    pub providers: Vec<String>,
    pub compressed_prompt: String,
    /// Whether the decision was made without asking the parent model.
    pub shortcut: bool,
}

/// What a [`RouterDecision`] says.
pub struct RouterDecisionView {
    pub providers: Seq<Seq<char>>,
    pub compressed_prompt: Seq<char>,
    pub shortcut: bool,
}

impl View for RouterDecision {
    type V = RouterDecisionView;

    open spec fn view(&self) -> RouterDecisionView {
        RouterDecisionView {
            providers: self.providers.deep_view(),
            compressed_prompt: self.compressed_prompt@,
            shortcut: self.shortcut,
        }
    }
}

impl DeepView for RouterDecision {
    type V = RouterDecisionView;

    open spec fn deep_view(&self) -> RouterDecisionView {
        self@
    }
}

/// Why there is no decision.
#[derive(Debug)]
pub enum RouterError {
    Engine(EngineError),
    Parse(String),
}

/// What a [`RouterError`] says.
pub enum RouterErrorView {
    Engine(EngineErrorView),
    Parse(Seq<char>),
}

impl View for RouterError {
    type V = RouterErrorView;

    open spec fn view(&self) -> RouterErrorView {
        match self {
            RouterError::Engine(e) => RouterErrorView::Engine(e@),
            RouterError::Parse(text) => RouterErrorView::Parse(text@),
        }
    }
}

impl DeepView for RouterError {
    type V = RouterErrorView;

    open spec fn deep_view(&self) -> RouterErrorView {
        self@
    }
}

impl RouterErrorView {
    /// The message shown for the error.
    pub open spec fn message(self) -> Seq<char> {
        match self {
            RouterErrorView::Engine(e) => "engine error: "@ + e.message(),
            RouterErrorView::Parse(text) => "could not parse router output: "@ + text,
        }
    }
}

impl RouterError {
    /// The message shown for the error.
    pub fn message(&self) -> (r: String)
        ensures
            r@ == self@.message(),
    {
        match self {
            RouterError::Engine(e) => "engine error: ".to_string().concat(e.message().as_str()),
            RouterError::Parse(text) => "could not parse router output: ".to_string().concat(
                text.as_str(),
            ),
        }
    }
}

/// How many messages of the history the parent model is shown.
pub const MAX_HISTORY_MESSAGES: usize = 6;

/// The longest question, in characters, that is passed on as it is.
pub const SHORTCUT_MAX_CHARS: usize = 400;

/// The decision that needs no model: a short question at the start of a
/// conversation goes to every candidate as it is.
pub open spec fn shortcut(
    candidates: Seq<Seq<char>>,
    history: Seq<ChatMessageView>,
    question: Seq<char>,
) -> Option<RouterDecisionView> {
    if history.len() > 0 || question.len() > SHORTCUT_MAX_CHARS {
        None
    } else {
        Some(
            RouterDecisionView {
                providers: candidates,
                compressed_prompt: question,
                shortcut: true,
            },
        )
    }
}

/// A copy of a list of texts.
fn copy_texts(texts: &[String]) -> (r: Vec<String>)
    ensures
        r.deep_view() == texts.deep_view(),
{
    let n: usize = texts.len();
    let mut r: Vec<String> = Vec::new();
    for i in 0..n
        invariant
            n == texts@.len(),
            r@.len() == i,
            forall|k: int| 0 <= k < i ==> (#[trigger] r@[k])@ == texts@[k]@,
    {
        r.push(texts[i].clone());
    }
    assert(r.deep_view() =~= texts.deep_view());
    r
}

/// Decides without the parent model, where there is nothing for it to do.
pub fn shortcut_decision(
    candidate_providers: &[String],
    history: &[ChatMessage],
    new_message: &str,
) -> (r: Option<RouterDecision>)
    ensures
        r.deep_view() == shortcut(
            candidate_providers.deep_view(),
            history.deep_view(),
            new_message@,
        ),
{
    if history.len() > 0 || chars_of(new_message).len() > SHORTCUT_MAX_CHARS {
        return None;
    }
    Some(
        RouterDecision {
            providers: copy_texts(candidate_providers),
            compressed_prompt: new_message.to_string(),
            shortcut: true,
        },
    )
}

/// A message with its white space collapsed.
pub open spec fn collapsed(message: ChatMessageView) -> ChatMessageView {
    ChatMessageView { role: message.role, content: join(words(message.content), seq![' ']) }
}

/// The last messages of a history, each with its white space collapsed.
pub open spec fn recent(history: Seq<ChatMessageView>) -> Seq<ChatMessageView> {
    let start = if history.len() > MAX_HISTORY_MESSAGES {
        history.len() - MAX_HISTORY_MESSAGES
    } else {
        0
    };
    history.skip(start).map_values(|m: ChatMessageView| collapsed(m))
}

/// Shrinks a history before a model sees it.
pub fn deterministic_trim(history: &[ChatMessage]) -> (r: Vec<ChatMessage>)
    ensures
        r.deep_view() == recent(history.deep_view()),
{
    let n: usize = history.len();
    let start: usize = n.saturating_sub(MAX_HISTORY_MESSAGES);
    let mut r: Vec<ChatMessage> = Vec::new();
    for i in start..n
        invariant
            n == history@.len(),
            start <= n,
            r@.len() == i - start,
            forall|k: int|
                0 <= k < i - start ==> (#[trigger] r@[k])@ == collapsed(history@[start + k]@),
    {
        r.push(
            ChatMessage {
                role: history[i].role,
                content: collapse_white_space(history[i].content.as_str()),
            },
        );
    }
    assert(r.deep_view() =~= recent(history.deep_view()));
    r
}

/// What a provider is called in the instructions, where Anthropic's assistant is
/// called `assistant`.
pub open spec fn label_of(id: Seq<char>, assistant: Seq<char>) -> Seq<char> {
    if id == "anthropic"@ {
        assistant
    } else if id == "openai"@ {
        "ChatGPT"@
    } else if id == "gemini"@ {
        "Gemini"@
    } else if id == "xai"@ {
        "Grok"@
    } else {
        id
    }
}

/// What a provider is called in the instructions.
pub fn provider_label(id: &str, assistant: &str) -> (r: String)
    ensures
        r@ == label_of(id@, assistant@),
{
    if text_eq(id, "anthropic") {
        assistant.to_string()
    } else if text_eq(id, "openai") {
        "ChatGPT".to_string()
    } else if text_eq(id, "gemini") {
        "Gemini".to_string()
    } else if text_eq(id, "xai") {
        "Grok".to_string()
    } else {
        id.to_string()
    }
}

/// What a role is called in the instructions.
pub open spec fn role_word(role: ChatRole) -> Seq<char> {
    match role {
        ChatRole::User => "ユーザー"@,
        ChatRole::Assistant => "アシスタント"@,
        ChatRole::System => "システム"@,
    }
}

/// What a role is called in the instructions.
pub fn role_label(role: ChatRole) -> (r: &'static str)
    ensures
        r@ == role_word(role),
{
    match role {
        ChatRole::User => "ユーザー",
        ChatRole::Assistant => "アシスタント",
        ChatRole::System => "システム",
    }
}

/// The candidates as the parent model is shown them, one on a line.
pub open spec fn candidate_lines(candidates: Seq<Seq<char>>, assistant: Seq<char>) -> Seq<char> {
    join(
        candidates.map_values(|id: Seq<char>| "- "@ + id + " ("@ + label_of(id, assistant) + ")"@),
        "\n"@,
    )
}

/// The history as the parent model is shown it, one message on a line.
pub open spec fn history_lines(history: Seq<ChatMessageView>) -> Seq<char> {
    if history.len() == 0 {
        "(まだ会話の最初です)"@
    } else {
        join(
            history.map_values(|m: ChatMessageView| role_word(m.role) + ": "@ + m.content),
            "\n"@,
        )
    }
}

/// What the parent model is told before the question at hand.
pub const INSTRUCTIONS: &'static str = "あなたは複数の有料オンラインAIサービスへの問い合わせを管理する司令塔です。コストを抑えるため以下を厳守してください。\n1. 候補サービスのうち、この質問に答える上で本当に呼び出す価値があるものだけを選ぶ(全部選ぶ必要はない)\n2. どのサービスも呼び出す価値がないと判断したら、providersを空配列[]にする(それが最も安い結果であり、正しい判断です)\n3. compressed_promptには「新しい質問」を送信する形で書く。短く簡潔ならそのままコピーする(固有名詞や主題を落とすと意味が変わってしまうため)\n4. 過去のやり取りは各サービスへ別途そのまま送られる。compressed_promptに過去の内容を混ぜてはいけない\n5. 出力は次のJSON形式のみ。前置きや説明は一切書かない:\n{\"providers\": [\"id\", ...], \"compressed_prompt\": \"(送信する質問文)\"}";

/// The question that the parent model is asked.
pub open spec fn router_prompt(
    candidates: Seq<Seq<char>>,
    history: Seq<ChatMessageView>,
    question: Seq<char>,
    assistant: Seq<char>,
) -> Seq<char> {
    INSTRUCTIONS@ + "\n\n候補サービス:\n"@ + candidate_lines(candidates, assistant)
        + "\n\nこれまでのユーザーの発言:\n"@ + history_lines(recent(history))
        + "\n\n新しい質問:\n"@ + question
}

fn list_candidates(candidates: &[String], assistant: &str) -> (r: String)
    ensures
        r@ == candidate_lines(candidates.deep_view(), assistant@),
{
    let n: usize = candidates.len();
    let ghost lines = candidates.deep_view().map_values(
        |id: Seq<char>| "- "@ + id + " ("@ + label_of(id, assistant@) + ")"@,
    );
    let mut r = String::new();
    assert(lines.take(0) =~= Seq::empty());
    for i in 0..n
        invariant
            n == candidates@.len(),
            lines == candidates.deep_view().map_values(
                |id: Seq<char>| "- "@ + id + " ("@ + label_of(id, assistant@) + ")"@,
            ),
            r@ == join(lines.take(i as int), "\n"@),
    {
        let id: &str = candidates[i].as_str();
        let line: String = "- ".to_string().concat(id).concat(" (").concat(
            provider_label(id, assistant).as_str(),
        ).concat(")");
        proof {
            assert(lines[i as int] == line@);
            assert(lines.take(i + 1) =~= lines.take(i as int).push(line@));
            lemma_join_push(lines.take(i as int), line@, "\n"@);
        }
        r = if i == 0 {
            line
        } else {
            r.concat("\n").concat(line.as_str())
        };
    }
    assert(lines.take(n as int) =~= lines);
    r
}

fn list_history(history: &[ChatMessage]) -> (r: String)
    ensures
        r@ == history_lines(history.deep_view()),
{
    let n: usize = history.len();
    if n == 0 {
        return "(まだ会話の最初です)".to_string();
    }
    let ghost lines = history.deep_view().map_values(
        |m: ChatMessageView| role_word(m.role) + ": "@ + m.content,
    );
    let mut r = String::new();
    assert(lines.take(0) =~= Seq::empty());
    for i in 0..n
        invariant
            n == history@.len(),
            lines == history.deep_view().map_values(
                |m: ChatMessageView| role_word(m.role) + ": "@ + m.content,
            ),
            r@ == join(lines.take(i as int), "\n"@),
    {
        let line: String = role_label(history[i].role).to_string().concat(": ").concat(
            history[i].content.as_str(),
        );
        proof {
            assert(lines[i as int] == line@);
            assert(lines.take(i + 1) =~= lines.take(i as int).push(line@));
            lemma_join_push(lines.take(i as int), line@, "\n"@);
        }
        r = if i == 0 {
            line
        } else {
            r.concat("\n").concat(line.as_str())
        };
    }
    assert(lines.take(n as int) =~= lines);
    r
}

/// What is to be done for a question.
#[derive(Debug)]
pub enum RouteStep {
    /// The decision is made.
    Decided(RouterDecision),
    /// The parent model is to be sent these messages, for an answer in JSON.
    Ask(Vec<ChatMessage>),
}

/// What a [`RouteStep`] says.
pub enum RouteStepView {
    Decided(RouterDecisionView),
    Ask(Seq<ChatMessageView>),
}

impl View for RouteStep {
    type V = RouteStepView;

    open spec fn view(&self) -> RouteStepView {
        match self {
            RouteStep::Decided(decision) => RouteStepView::Decided(decision@),
            RouteStep::Ask(messages) => RouteStepView::Ask(messages.deep_view()),
        }
    }
}

/// What is to be done for a question.
pub open spec fn route(
    candidates: Seq<Seq<char>>,
    history: Seq<ChatMessageView>,
    question: Seq<char>,
    assistant: Seq<char>,
) -> RouteStepView {
    match shortcut(candidates, history, question) {
        Some(decision) => RouteStepView::Decided(decision),
        None => RouteStepView::Ask(
            seq![
                ChatMessageView {
                    role: ChatRole::User,
                    content: router_prompt(candidates, history, question, assistant),
                },
            ],
        ),
    }
}

/// Decides a question on the spot, or prepares what the parent model is asked:
/// which of the candidates are worth calling, and how to phrase the question.
pub fn route_and_compress(
    candidate_providers: &[String],
    history: &[ChatMessage],
    new_message: &str,
    assistant: &str,
) -> (r: RouteStep)
    ensures
        r@ == route(
            candidate_providers.deep_view(),
            history.deep_view(),
            new_message@,
            assistant@,
        ),
{
    if let Some(decision) = shortcut_decision(candidate_providers, history, new_message) {
        return RouteStep::Decided(decision);
    }
    let recent_history: Vec<ChatMessage> = deterministic_trim(history);
    let prompt: String = INSTRUCTIONS.to_string().concat("\n\n候補サービス:\n").concat(
        list_candidates(candidate_providers, assistant).as_str(),
    ).concat("\n\nこれまでのユーザーの発言:\n").concat(
        list_history(recent_history.as_slice()).as_str(),
    ).concat("\n\n新しい質問:\n").concat(new_message);
    let mut messages: Vec<ChatMessage> = Vec::new();
    messages.push(ChatMessage { role: ChatRole::User, content: prompt });
    assert(messages.deep_view() =~= seq![messages@[0]@]);
    RouteStep::Ask(messages)
}

/// The texts among `items` that are candidates, in order.
pub open spec fn chosen(items: Seq<JsonTree>, candidates: Seq<Seq<char>>) -> Seq<Seq<char>>
    decreases items.len(),
{
    if items.len() == 0 {
        Seq::empty()
    } else {
        let before = chosen(items.drop_last(), candidates);
        match items.last().as_text() {
            Some(id) if candidates.contains(id) => before.push(id),
            _ => before,
        }
    }
}

/// What the parent model's answer decides. Naming no candidate is a decision to
/// send nothing; naming some without a question is an error.
pub open spec fn decision_of(value: JsonTree, candidates: Seq<Seq<char>>) -> Result<
    RouterDecisionView,
    RouterErrorView,
> {
    match value.items_field("providers"@) {
        None => Err(RouterErrorView::Parse("missing providers array"@)),
        Some(items) => {
            let providers = chosen(items, candidates);
            let prompt = match value.text_field("compressed_prompt"@) {
                Some(text) => text,
                None => Seq::empty(),
            };
            if providers.len() == 0 {
                Ok(
                    RouterDecisionView {
                        providers,
                        compressed_prompt: Seq::empty(),
                        shortcut: false,
                    },
                )
            } else if trim(prompt).len() == 0 {
                Err(
                    RouterErrorView::Parse(
                        "chose "@ + decimal(providers.len())
                            + " provider(s) but left compressed_prompt empty"@,
                    ),
                )
            } else {
                Ok(RouterDecisionView { providers, compressed_prompt: prompt, shortcut: false })
            }
        },
    }
}

/// What the text of the parent model's answer decides.
pub open spec fn decision_of_text(raw: Seq<char>, candidates: Seq<Seq<char>>) -> Result<
    RouterDecisionView,
    RouterErrorView,
> {
    match json_of_text(trim(raw)) {
        Ok(value) => decision_of(value, candidates),
        Err(message) => Err(RouterErrorView::Parse(message + ": "@ + raw)),
    }
}

fn choose_providers(items: &[Json], candidates: &[String]) -> (r: Vec<String>)
    ensures
        r.deep_view() == chosen(trees(items@), candidates.deep_view()),
{
    let n: usize = items.len();
    let ghost all = trees(items@);
    let mut r: Vec<String> = Vec::new();
    assert(all.take(0) =~= Seq::empty());
    assert(r.deep_view() =~= Seq::empty());
    for i in 0..n
        invariant
            n == items@.len(),
            all == trees(items@),
            r.deep_view() == chosen(all.take(i as int), candidates.deep_view()),
    {
        let ghost before = r.deep_view();
        proof {
            assert(all.take(i + 1).drop_last() =~= all.take(i as int));
            assert(all.take(i + 1).last() == items@[i as int].tree());
        }
        if let Some(id) = items[i].as_str() {
            if contains_text(candidates, id) {
                r.push(id.to_string());
                assert(r.deep_view() =~= before.push(id@));
            }
        }
    }
    assert(all.take(n as int) =~= all);
    r
}

/// Reads a decision from the parent model's answer.
pub fn decide(value: &Json, candidates: &[String]) -> (r: Result<RouterDecision, RouterError>)
    ensures
        outcome(r) == decision_of(value.tree(), candidates.deep_view()),
{
    let items: &Vec<Json> = match value.items_field("providers") {
        Some(items) => items,
        None => {
            return Err(RouterError::Parse("missing providers array".to_string()));
        },
    };
    let providers: Vec<String> = choose_providers(items.as_slice(), candidates);
    if providers.len() == 0 {
        return Ok(
            RouterDecision { providers, compressed_prompt: String::new(), shortcut: false },
        );
    }
    let prompt: String = match value.text_field("compressed_prompt") {
        Some(text) => text.to_string(),
        None => String::new(),
    };
    if trimmed(prompt.as_str()).as_str().is_empty() {
        let message: String = "chose ".to_string().concat(
            decimal_text(providers.len() as u64).as_str(),
        ).concat(" provider(s) but left compressed_prompt empty");
        return Err(RouterError::Parse(message));
    }
    Ok(RouterDecision { providers, compressed_prompt: prompt, shortcut: false })
}

/// Reads a decision from the text of the parent model's answer.
pub fn parse_decision(raw: &str, candidates: &[String]) -> (r: Result<RouterDecision, RouterError>)
    ensures
        outcome(r) == decision_of_text(raw@, candidates.deep_view()),
{
    match parse_json(trimmed(raw).as_str()) {
        Ok(value) => decide(&value, candidates),
        Err(message) => Err(RouterError::Parse(message.concat(": ").concat(raw))),
    }
}

/// The decision once the parent model has answered or failed.
pub fn conclude(reply: Result<String, EngineError>, candidates: &[String]) -> (r: Result<
    RouterDecision,
    RouterError,
>)
    ensures
        outcome(r) == match outcome(reply) {
            Ok(raw) => decision_of_text(raw, candidates.deep_view()),
            Err(e) => Err(RouterErrorView::Engine(e)),
        },
{
    match reply {
        Ok(raw) => parse_decision(raw.as_str(), candidates),
        Err(e) => Err(RouterError::Engine(e)),
    }
}

proof fn lemma_chosen(items: Seq<JsonTree>, candidates: Seq<Seq<char>>)
    ensures
        forall|i: int|
            0 <= i < chosen(items, candidates).len() ==> candidates.contains(
                #[trigger] chosen(items, candidates)[i],
            ),
    decreases items.len(),
{
    if items.len() > 0 {
        lemma_chosen(items.drop_last(), candidates);
        let before = chosen(items.drop_last(), candidates);
        assert forall|i: int| 0 <= i < chosen(items, candidates).len() implies candidates.contains(
            #[trigger] chosen(items, candidates)[i],
        ) by {
            if i < before.len() {
                assert(candidates.contains(before[i]));
            }
        }
    }
}

/// Whatever the parent model answers, only candidates are called, and the
/// decision does not pass for one made without it. Calling nobody is a decision
/// with nothing to send, never an error; calling someone comes with a question
/// that is not blank.
pub proof fn law_decisions_are_sound(raw: Seq<char>, candidates: Seq<Seq<char>>)
    ensures
        decision_of_text(raw, candidates) matches Ok(decision) ==> {
            &&& !decision.shortcut
            &&& forall|i: int|
                0 <= i < decision.providers.len() ==> candidates.contains(
                    #[trigger] decision.providers[i],
                )
            &&& decision.providers.len() == 0 ==> decision.compressed_prompt.len() == 0
            &&& decision.providers.len() > 0 ==> trim(decision.compressed_prompt).len() > 0
        },
{
    if let Ok(value) = json_of_text(trim(raw)) {
        if let Some(items) = value.items_field("providers"@) {
            lemma_chosen(items, candidates);
        }
    }
}

proof fn lemma_nobody(items: Seq<JsonTree>, candidates: Seq<Seq<char>>)
    requires
        forall|i: int|
            0 <= i < items.len() ==> ((#[trigger] items[i]).as_text() matches Some(id)
                ==> !candidates.contains(id)),
    ensures
        chosen(items, candidates) == Seq::<Seq<char>>::empty(),
    decreases items.len(),
{
    if items.len() > 0 {
        let rest = items.drop_last();
        assert forall|i: int| 0 <= i < rest.len() implies ((#[trigger] rest[i]).as_text() matches
            Some(id) ==> !candidates.contains(id)) by {
            assert(rest[i] == items[i]);
        }
        lemma_nobody(rest, candidates);
        assert(items.last() == items[items.len() - 1]);
    }
}

/// An answer that names no candidate is a decision to send nothing, whatever
/// else it says.
pub proof fn law_naming_nobody_is_a_decision(
    value: JsonTree,
    items: Seq<JsonTree>,
    candidates: Seq<Seq<char>>,
)
    requires
        value.items_field("providers"@) == Some(items),
        forall|i: int|
            0 <= i < items.len() ==> ((#[trigger] items[i]).as_text() matches Some(id)
                ==> !candidates.contains(id)),
    ensures
        decision_of(value, candidates) == Ok::<RouterDecisionView, RouterErrorView>(
            RouterDecisionView {
                providers: Seq::empty(),
                compressed_prompt: Seq::empty(),
                shortcut: false,
            },
        ),
{
    lemma_nobody(items, candidates);
}

/// The parent model is asked exactly where there is a conversation or the
/// question is long; without it, every candidate gets the question as it is.
pub proof fn law_shortcut_keeps_every_candidate(
    candidates: Seq<Seq<char>>,
    history: Seq<ChatMessageView>,
    question: Seq<char>,
    assistant: Seq<char>,
)
    ensures
        route(candidates, history, question, assistant) is Ask <==> history.len() > 0 || question.len()
            > SHORTCUT_MAX_CHARS,
        route(candidates, history, question, assistant) is Ask <==> history.len() > 0 || question.len()
            > 400,
        route(candidates, history, question, assistant) matches RouteStepView::Decided(decision)
            ==> decision.providers == candidates && decision.compressed_prompt == question
            && decision.shortcut,
{
}

/// However long the conversation, the parent model is shown the last
/// [`MAX_HISTORY_MESSAGES`] messages at most, in order and under their roles.
pub proof fn law_history_is_bounded(history: Seq<ChatMessageView>)
    ensures
        recent(history).len() == if history.len() < MAX_HISTORY_MESSAGES {
            history.len()
        } else {
            MAX_HISTORY_MESSAGES as nat
        },
        forall|i: int|
            0 <= i < recent(history).len() ==> (#[trigger] recent(history)[i]).role
                == history[history.len() - recent(history).len() + i].role,
{
}

/// The items of an answer that name a candidate.
pub open spec fn naming(items: Seq<JsonTree>, candidates: Seq<Seq<char>>) -> Seq<JsonTree> {
    items.filter(|item: JsonTree| item matches JsonTree::Text(id) && candidates.contains(id))
}

proof fn lemma_chosen_are_named(items: Seq<JsonTree>, candidates: Seq<Seq<char>>)
    ensures
        chosen(items, candidates).len() == naming(items, candidates).len(),
        forall|i: int|
            0 <= i < naming(items, candidates).len() ==> JsonTree::Text(
                #[trigger] chosen(items, candidates)[i],
            ) == naming(items, candidates)[i],
    decreases items.len(),
{
    reveal(Seq::filter);
    if items.len() > 0 {
        lemma_chosen_are_named(items.drop_last(), candidates);
    }
}

/// Every candidate that the parent model names is called, and nobody else: the
/// providers of a decision are the items that name a candidate, as many as there
/// are and in their order.
pub proof fn law_every_candidate_named_is_called(
    value: JsonTree,
    items: Seq<JsonTree>,
    candidates: Seq<Seq<char>>,
)
    requires
        value.get("providers"@) == Some(JsonTree::Array(items)),
    ensures
        decision_of(value, candidates) matches Ok(decision) ==> {
            let named = naming(items, candidates);
            &&& decision.providers.len() == named.len()
            &&& forall|i: int|
                0 <= i < named.len() ==> JsonTree::Text(#[trigger] decision.providers[i])
                    == named[i]
            &&& forall|i: int, id: Seq<char>|
                0 <= i < items.len() && #[trigger] items[i] == JsonTree::Text(id)
                    && #[trigger] candidates.contains(id) ==> decision.providers.contains(id)
        },
{
    lemma_chosen_are_named(items, candidates);
    if let Ok(decision) = decision_of(value, candidates) {
        let pred = |item: JsonTree|
            item matches JsonTree::Text(id) && candidates.contains(id);
        let named = naming(items, candidates);
        assert forall|i: int, id: Seq<char>|
            0 <= i < items.len() && #[trigger] items[i] == JsonTree::Text(id)
                && #[trigger] candidates.contains(id) implies decision.providers.contains(id) by {
            items.lemma_filter_contains(pred, i);
            let k = named.index_of(items[i]);
            assert(JsonTree::Text(decision.providers[k]) == named[k]);
        }
    }
}

/// There is a decision exactly where the answer lists providers and, if any of
/// them is a candidate, words that are not blank. The words are passed on as they
/// are, character for character.
pub proof fn law_the_question_is_passed_on_as_phrased(
    value: JsonTree,
    items: Seq<JsonTree>,
    candidates: Seq<Seq<char>>,
    question: Seq<char>,
)
    requires
        value.get("providers"@) == Some(JsonTree::Array(items)),
        value.get("compressed_prompt"@) == Some(JsonTree::Text(question)),
        naming(items, candidates).len() > 0,
    ensures
        decision_of(value, candidates) is Ok <==> !is_blank(question),
        decision_of(value, candidates) matches Ok(decision) ==> decision.compressed_prompt
            == question && !decision.shortcut,
        decision_of(value, candidates) matches Err(error) ==> error is Parse,
{
    lemma_chosen_are_named(items, candidates);
    law_only_blank_texts_vanish(question);
}

/// An answer that lists no providers is no decision, and neither is one that names
/// a candidate without words for it.
pub proof fn law_incomplete_answers_are_no_decision(
    value: JsonTree,
    items: Seq<JsonTree>,
    candidates: Seq<Seq<char>>,
)
    ensures
        !(value.get("providers"@) matches Some(JsonTree::Array(_))) ==> decision_of(
            value,
            candidates,
        ) == Err::<RouterDecisionView, RouterErrorView>(
            RouterErrorView::Parse("missing providers array"@),
        ),
        value.get("providers"@) == Some(JsonTree::Array(items)) && naming(items, candidates).len()
            > 0 && !(value.get("compressed_prompt"@) matches Some(JsonTree::Text(_)))
            ==> decision_of(value, candidates) is Err,
{
    lemma_chosen_are_named(items, candidates);
    law_only_blank_texts_vanish(Seq::empty());
}

/// White space around the parent model's answer does not matter, and an answer
/// that is no JSON is reported in full.
pub proof fn law_answers_are_read_without_white_space(
    before: Seq<char>,
    data: Seq<char>,
    after: Seq<char>,
    candidates: Seq<Seq<char>>,
)
    requires
        is_blank(before),
        is_blank(after),
        data.len() == 0 || (!is_white_space(data[0]) && !is_white_space(data.last())),
    ensures
        match json_of_text(data) {
            Ok(value) => decision_of_text(before + data + after, candidates) == decision_of(
                value,
                candidates,
            ),
            Err(reason) => decision_of_text(before + data + after, candidates) == Err::<
                RouterDecisionView,
                RouterErrorView,
            >(RouterErrorView::Parse(reason + ": "@ + (before + data + after))),
        },
{
    law_trimming_takes_off_white_space_alone(before, data, after);
}

/// What the parent model is shown of the conversation are its last six messages,
/// each under its role and with all its words in order, one space apart.
pub proof fn law_history_keeps_its_words(history: Seq<ChatMessageView>, i: int)
    requires
        0 <= i < recent(history).len(),
    ensures
        recent(history).len() == if history.len() < 6 {
            history.len()
        } else {
            6
        },
        ({
            let shown = recent(history)[i];
            let said = history[history.len() - recent(history).len() + i];
            &&& shown.role == said.role
            &&& words(shown.content) == words(said.content)
            &&& is_single_spaced(shown.content)
        }),
{
    let said = history[history.len() - recent(history).len() + i];
    assert(recent(history)[i] == collapsed(said));
    law_collapsing_keeps_the_words(said.content);
}

/// The parent model is asked in a single message of the user's, which begins with
/// the instructions, ends with the question as it was written, and holds the
/// candidates and the recent history between them.
pub proof fn law_the_parent_model_is_asked_everything(
    candidates: Seq<Seq<char>>,
    history: Seq<ChatMessageView>,
    question: Seq<char>,
    assistant: Seq<char>,
)
    ensures
        route(candidates, history, question, assistant) matches RouteStepView::Ask(messages) ==> {
            let before = INSTRUCTIONS@ + "\n\n候補サービス:\n"@ + candidate_lines(candidates, assistant);
            let behind = "\n\nこれまでのユーザーの発言:\n"@ + history_lines(recent(history))
                + "\n\n新しい質問:\n"@ + question;
            &&& messages.len() == 1
            &&& messages[0].role == ChatRole::User
            &&& messages[0].content == before + behind
        },
{
    let before = INSTRUCTIONS@ + "\n\n候補サービス:\n"@ + candidate_lines(candidates, assistant);
    let behind = "\n\nこれまでのユーザーの発言:\n"@ + history_lines(recent(history))
        + "\n\n新しい質問:\n"@ + question;
    assert(router_prompt(candidates, history, question, assistant) =~= before + behind);
}

/// One more candidate is listed on a line of its own behind those before it, with
/// its id as it is.
pub proof fn law_every_candidate_is_listed(
    candidates: Seq<Seq<char>>,
    id: Seq<char>,
    assistant: Seq<char>,
)
    ensures
        ({
            let line = "- "@ + id + " ("@ + label_of(id, assistant) + ")"@;
            candidate_lines(candidates.push(id), assistant) == if candidates.len() == 0 {
                line
            } else {
                candidate_lines(candidates, assistant) + "\n"@ + line
            }
        }),
        id != "anthropic"@ && id != "openai"@ && id != "gemini"@ && id != "xai"@ ==> label_of(
            id,
            assistant,
        ) == id,
{
    let write = |id: Seq<char>| "- "@ + id + " ("@ + label_of(id, assistant) + ")"@;
    let lines = candidates.map_values(write);
    assert(candidates.push(id).map_values(write) =~= lines.push(write(id)));
    lemma_join_push(lines, write(id), "\n"@);
}

/// One more message is shown on a line of its own behind those before it, with its
/// content as it is.
pub proof fn law_every_message_is_shown(history: Seq<ChatMessageView>, message: ChatMessageView)
    ensures
        ({
            let line = role_word(message.role) + ": "@ + message.content;
            history_lines(history.push(message)) == if history.len() == 0 {
                line
            } else {
                history_lines(history) + "\n"@ + line
            }
        }),
{
    let write = |m: ChatMessageView| role_word(m.role) + ": "@ + m.content;
    let lines = history.map_values(write);
    assert(history.push(message).map_values(write) =~= lines.push(write(message)));
    lemma_join_push(lines, write(message), "\n"@);
}

/// The parent model can tell from the history who said what.
pub proof fn law_roles_are_told_apart(a: ChatRole, b: ChatRole)
    ensures
        role_word(a) == role_word(b) <==> a == b,
        role_word(ChatRole::User) == "ユーザー"@,
{
    reveal_strlit("ユーザー");
    reveal_strlit("アシスタント");
    reveal_strlit("システム");
    assert("ユーザー"@[0] == 'ユ' && "システム"@[0] == 'シ' && "アシスタント"@[0] == 'ア');
}

} // verus!
