//! What the user can ask for: chats, downloads, keys, updates and
//! recommendations, and the memory budget that local models share.
use vstd::prelude::*;

use crate::catalog::{
    recommend, recommended, resident, resident_gb, CatalogEntry, Gigabytes, HardwareProfile, GB,
    RUNTIME_OVERHEAD_MULTIPLIER,
};
use crate::engines::anthropic::{AnthropicBackend, Assistant};
use crate::engines::gemini::GeminiBackend;
use crate::engines::ollama::{
    at_least, is_at_least, law_written_versions_are_read_back, newer, parse_version,
    version_is_supported, version_of, version_text, Version, MINIMUM_VERSION,
};
use crate::engines::openai_compat::OpenAiCompatBackend;
use crate::engines::{
    ChatOptions, ChatStreamEvent, ChatStreamEventView, EngineError, GenerationParams,
};
use crate::outcome::outcome;
use crate::router::label_of;
use crate::text::{contains_text, decimal_text, text_eq};
use crate::updater::{PackageManager, DOWNLOAD_PAGE_URL};

verus! {

/// Permits to the gigabyte: fine enough that a reservation is close to what a
/// model occupies, coarse enough that the counts stay small.
pub const PERMITS_PER_GB: u128 = 8;

/// How many models are recommended.
pub const RECOMMENDATION_LIMIT: usize = 10;

/// The permits that cover an amount of memory.
pub open spec fn permits_covering(amount: int) -> int {
    (amount * PERMITS_PER_GB + GB - 1) / GB as int
}

/// The whole permits that an amount of memory holds.
pub open spec fn permits_in(amount: int) -> int {
    amount * PERMITS_PER_GB / GB as int
}

/// `n`, or the nearest number from 1 to `total`.
pub open spec fn clamped(n: int, total: u32) -> u32 {
    if n < 1 {
        1
    } else if n > total {
        total
    } else {
        n as u32
    }
}

/// The permits that a model of the given size reserves: what covers it once
/// loaded, but at least one, so that the budget fills up, and at most all, so
/// that a model larger than the budget can still run on its own.
pub open spec fn reserved_for(size_gb: u128, total: u32) -> u32 {
    clamped(permits_covering(resident(size_gb)), total)
}

/// The memory budget that local models share. Two at once are not slower than
/// one after the other; more than the memory holds is.
#[derive(Debug, Clone, Copy)]
pub struct AppState {
    /// The budget in permits.
    pub total_local_permits: u32,
    /// Whether every local request reserves the whole budget, so that one runs
    /// at a time.
    pub serialize_local: bool,
}

/// The whole permits in an amount of memory.
fn whole_permits(amount: Gigabytes) -> (r: u128)
    ensures
        r == permits_in(amount as int),
{
    let per: u128 = GB / PERMITS_PER_GB;
    assert(per == 13_421_772_800);
    amount / per
}

/// The permits that a model of the given size on disk reserves.
pub fn permits_for_size_gb(size_gb: Gigabytes, total_permits: u32) -> (r: u32)
    requires
        total_permits >= 1,
    ensures
        r == reserved_for(size_gb, total_permits),
{
    if size_gb > u128::MAX / RUNTIME_OVERHEAD_MULTIPLIER {
        return total_permits;
    }
    let amount: u128 = resident_gb(size_gb);
    let per: u128 = GB / PERMITS_PER_GB;
    assert(per == 13_421_772_800);
    let whole: u128 = amount / per;
    let needed: u128 = if amount % per == 0 {
        whole
    } else {
        whole + 1
    };
    assert(needed == permits_covering(amount as int));
    if needed < 1 {
        1
    } else if needed > total_permits as u128 {
        total_permits
    } else {
        needed as u32
    }
}

impl AppState {
    /// Whether there is a permit at all, without which nothing could run.
    pub open spec fn well_formed(self) -> bool {
        self.total_local_permits >= 1
    }

    /// The permits that a model reserves, by its size on disk where that is
    /// known. A model of unknown size reserves one rather than hold up all
    /// others.
    pub open spec fn reservation(self, size_bytes: Option<u64>) -> u32 {
        if self.serialize_local {
            self.total_local_permits
        } else {
            match size_bytes {
                Some(bytes) => reserved_for((bytes * 100) as u128, self.total_local_permits),
                None => 1,
            }
        }
    }

    /// The state for a budget, in which nothing runs. There is at least one
    /// permit.
    pub fn new(ram_budget_gb: Gigabytes) -> (r: AppState)
        ensures
            r.well_formed(),
            r.total_local_permits == clamped(permits_in(ram_budget_gb as int), u32::MAX),
            r.total_local_permits > 1 ==> r.total_local_permits * GB <= ram_budget_gb * 8,
            r.total_local_permits < u32::MAX ==> ram_budget_gb * 8 < (r.total_local_permits + 1)
                * GB,
            !r.serialize_local,
    {
        let permits: u128 = whole_permits(ram_budget_gb);
        let total_local_permits: u32 = if permits < 1 {
            1
        } else if permits > u32::MAX as u128 {
            u32::MAX
        } else {
            permits as u32
        };
        AppState { total_local_permits, serialize_local: false }
    }

    /// See [`AppState::reservation`].
    pub fn permits_for(&self, size_bytes: Option<u64>) -> (r: u32)
        requires
            self.well_formed(),
        ensures
            r == self.reservation(size_bytes),
    {
        if self.serialize_local {
            return self.total_local_permits;
        }
        match size_bytes {
            Some(bytes) => permits_for_size_gb(bytes as u128 * 100, self.total_local_permits),
            None => 1,
        }
    }

    /// The permits that a model needs, and whether they are free right now. A
    /// request that has to wait says so before it does.
    pub fn plan_reservation(&self, size_bytes: Option<u64>, available: usize) -> (r: (u32, bool))
        requires
            self.well_formed(),
        ensures
            r.0 == self.reservation(size_bytes),
            r.1 == (available >= self.reservation(size_bytes)),
            r.1 == (available >= r.0),
    {
        let needed: u32 = self.permits_for(size_bytes);
        (needed, available >= needed as usize)
    }

    /// Turns one-at-a-time execution on or off for the requests to come.
    pub fn set_serialize_local(&mut self, serialize: bool)
        ensures
            final(self).serialize_local == serialize,
            final(self).total_local_permits == old(self).total_local_permits,
    {
        self.serialize_local = serialize;
    }

    /// Whether the engine may be updated. An update stops the engine, so it is
    /// refused while any permit is taken.
    pub fn check_idle(&self, available: usize) -> (r: Result<(), String>)
        ensures
            outcome(r) == if available < self.total_local_permits {
                Err("ローカルモデルの実行中です。完了するか中断してから更新してください。"@)
            } else {
                Ok(())
            },
            r is Ok <==> available >= self.total_local_permits,
    {
        if available < self.total_local_permits as usize {
            Err(
                "ローカルモデルの実行中です。完了するか中断してから更新してください。".to_string(),
            )
        } else {
            Ok(())
        }
    }
}

/// The package manager to update the engine with, or where to update it by hand.
pub fn update_ollama(manager: Option<PackageManager>) -> (r: Result<PackageManager, String>)
    ensures
        match manager {
            Some(manager) => r == Ok::<PackageManager, String>(manager),
            None => r matches Err(message) && message@
                == "このマシンで自動更新に使えるパッケージマネージャが見つかりませんでした。"@
                + DOWNLOAD_PAGE_URL@ + " から手動で更新してください。"@,
        },
{
    match manager {
        Some(manager) => Ok(manager),
        None => Err(
            "このマシンで自動更新に使えるパッケージマネージャが見つかりませんでした。".to_string().concat(
                DOWNLOAD_PAGE_URL,
            ).concat(" から手動で更新してください。"),
        ),
    }
}

/// The recommendations that the user is shown.
pub fn recommend_models(profile: &HardwareProfile) -> (r: Vec<CatalogEntry>)
    ensures
        r.deep_view() == recommended(profile@, RECOMMENDATION_LIMIT),
        r.deep_view() == recommended(profile@, 10),
{
    recommend(profile, RECOMMENDATION_LIMIT)
}

/// An online provider.
#[derive(Debug)]
pub struct ProviderInfo {
    pub id: String,
    pub label: String,
    pub default_model: String,
    /// Whether there is a key for it.
    pub configured: bool,
}

/// What a [`ProviderInfo`] says.
pub struct ProviderInfoView {
    pub id: Seq<char>,
    pub label: Seq<char>,
    pub default_model: Seq<char>,
    pub configured: bool,
}

impl View for ProviderInfo {
    type V = ProviderInfoView;

    open spec fn view(&self) -> ProviderInfoView {
        ProviderInfoView {
            id: self.id@,
            label: self.label@,
            default_model: self.default_model@,
            configured: self.configured,
        }
    }
}

impl DeepView for ProviderInfo {
    type V = ProviderInfoView;

    open spec fn deep_view(&self) -> ProviderInfoView {
        self@
    }
}

/// The online providers, given the ids of those that have a key.
pub open spec fn providers(
    assistant: Assistant,
    configured: Seq<Seq<char>>,
) -> Seq<ProviderInfoView> {
    seq![
        ProviderInfoView {
            id: "anthropic"@,
            label: assistant.name@,
            default_model: assistant.model@,
            configured: configured.contains("anthropic"@),
        },
        ProviderInfoView {
            id: "openai"@,
            label: "ChatGPT"@,
            default_model: "gpt-5.6"@,
            configured: configured.contains("openai"@),
        },
        ProviderInfoView {
            id: "gemini"@,
            label: "Gemini"@,
            default_model: "gemini-3.6-flash"@,
            configured: configured.contains("gemini"@),
        },
        ProviderInfoView {
            id: "xai"@,
            label: "Grok"@,
            default_model: "grok-4.3"@,
            configured: configured.contains("xai"@),
        },
    ]
}

fn provider_info(
    id: &str,
    label: String,
    default_model: String,
    configured: &[String],
) -> (r: ProviderInfo)
    ensures
        r@ == (ProviderInfoView {
            id: id@,
            label: label@,
            default_model: default_model@,
            configured: configured.deep_view().contains(id@),
        }),
{
    ProviderInfo {
        id: id.to_string(),
        label,
        default_model,
        configured: contains_text(configured, id),
    }
}

/// The online providers, given the ids of those that have a key.
pub fn list_providers(assistant: &Assistant, configured: &[String]) -> (r: Vec<ProviderInfo>)
    ensures
        r.deep_view() == providers(*assistant, configured.deep_view()),
{
    let mut r: Vec<ProviderInfo> = Vec::new();
    r.push(
        provider_info("anthropic", assistant.name.clone(), assistant.model.clone(), configured),
    );
    r.push(
        provider_info("openai", "ChatGPT".to_string(), "gpt-5.6".to_string(), configured),
    );
    r.push(
        provider_info("gemini", "Gemini".to_string(), "gemini-3.6-flash".to_string(), configured),
    );
    r.push(provider_info("xai", "Grok".to_string(), "grok-4.3".to_string(), configured));
    assert(r.deep_view() =~= providers(*assistant, configured.deep_view()));
    r
}

/// The engine's version, and what can be done about it.
#[derive(Debug)]
pub struct EngineVersion {
    pub version: String,
    pub supported: bool,
    pub minimum: String,
    /// The newest release, where it could be looked up.
    pub latest: Option<String>,
    pub update_available: bool,
    /// How the engine can be updated, if it can.
    pub package_manager: Option<PackageManager>,
    pub download_page: String,
}

/// What an [`EngineVersion`] says.
pub struct EngineVersionView {
    pub version: Seq<char>,
    pub supported: bool,
    pub minimum: Seq<char>,
    pub latest: Option<Seq<char>>,
    pub update_available: bool,
    pub package_manager: Option<PackageManager>,
    pub download_page: Seq<char>,
}

impl View for EngineVersion {
    type V = EngineVersionView;

    open spec fn view(&self) -> EngineVersionView {
        EngineVersionView {
            version: self.version@,
            supported: self.supported,
            minimum: self.minimum@,
            latest: self.latest.deep_view(),
            update_available: self.update_available,
            package_manager: self.package_manager,
            download_page: self.download_page@,
        }
    }
}

impl DeepView for EngineVersion {
    type V = EngineVersionView;

    open spec fn deep_view(&self) -> EngineVersionView {
        self@
    }
}

/// Whether a newer version than the one installed is known. Where either cannot
/// be read, none is.
pub open spec fn has_update(version: Seq<char>, latest: Option<Seq<char>>) -> bool {
    match latest {
        Some(latest) => match (version_of(version), version_of(latest)) {
            (Some(installed), Some(newest)) => newer(newest, installed),
            _ => false,
        },
        None => false,
    }
}

/// What is said of an engine of the given version.
pub open spec fn engine_version(
    version: Seq<char>,
    latest: Option<Seq<char>>,
    package_manager: Option<PackageManager>,
) -> EngineVersionView {
    EngineVersionView {
        version,
        supported: match version_of(version) {
            Some(installed) => at_least(installed, MINIMUM_VERSION),
            None => true,
        },
        minimum: version_text(MINIMUM_VERSION),
        latest,
        update_available: has_update(version, latest),
        package_manager,
        download_page: DOWNLOAD_PAGE_URL@,
    }
}

/// The engine's version alongside whether it is new enough. Only an engine that
/// does not tell its version is an error: that the newest release or a package
/// manager could not be found hides nothing else.
pub fn ollama_version(
    version: Result<String, EngineError>,
    latest: Result<String, String>,
    package_manager: Option<PackageManager>,
) -> (r: Result<EngineVersion, String>)
    ensures
        outcome(r) == match outcome(version) {
            Ok(version) => Ok(
                engine_version(
                    version,
                    match outcome(latest) {
                        Ok(latest) => Some(latest),
                        Err(_) => None,
                    },
                    package_manager,
                ),
            ),
            Err(error) => Err(error.message()),
        },
{
    let version: String = match version {
        Ok(version) => version,
        Err(error) => {
            return Err(error.message());
        },
    };
    let latest: Option<String> = match latest {
        Ok(latest) => Some(latest),
        Err(_) => None,
    };
    let update_available: bool = match &latest {
        Some(latest) => match (
            parse_version(version.as_str()),
            parse_version(latest.as_str()),
        ) {
            (Some(installed), Some(newest)) => !is_at_least(installed, newest),
            _ => false,
        },
        None => false,
    };
    let minimum: String = decimal_text(MINIMUM_VERSION.0 as u64).concat(".").concat(
        decimal_text(MINIMUM_VERSION.1 as u64).as_str(),
    ).concat(".").concat(decimal_text(MINIMUM_VERSION.2 as u64).as_str());
    Ok(
        EngineVersion {
            supported: version_is_supported(version.as_str()),
            version,
            minimum,
            latest,
            update_available,
            package_manager,
            download_page: DOWNLOAD_PAGE_URL.to_string(),
        },
    )
}

/// The settings of a chat, which thinks only where that is asked for.
pub fn chat_options(think: Option<bool>) -> (r: ChatOptions)
    ensures
        r == (ChatOptions { think: think == Some(true), params: GenerationParams::none() }),
{
    ChatOptions {
        think: match think {
            Some(think) => think,
            None => false,
        },
        params: GenerationParams::default(),
    }
}

/// Who answers a chat online.
pub enum Target {
    Anthropic(AnthropicBackend),
    OpenAiCompat(OpenAiCompatBackend),
    Gemini(GeminiBackend),
}

/// What a [`Target`] says.
pub enum TargetView {
    Anthropic { api_key: Seq<char>, default_model: Seq<char> },
    OpenAiCompat { base_url: Seq<char>, api_key: Seq<char>, default_model: Seq<char> },
    Gemini { api_key: Seq<char> },
}

impl View for Target {
    type V = TargetView;

    open spec fn view(&self) -> TargetView {
        match self {
            Target::Anthropic(backend) => TargetView::Anthropic {
                api_key: backend.api_key@,
                default_model: backend.default_model@,
            },
            Target::OpenAiCompat(backend) => TargetView::OpenAiCompat {
                base_url: backend.base_url@,
                api_key: backend.api_key@,
                default_model: backend.default_model@,
            },
            Target::Gemini(backend) => TargetView::Gemini { api_key: backend.api_key@ },
        }
    }
}

impl DeepView for Target {
    type V = TargetView;

    open spec fn deep_view(&self) -> TargetView {
        self@
    }
}

/// How a chat begins.
pub enum SendStep {
    /// Reserve memory, then run on the local engine.
    Reserve,
    /// Read the provider's key, then see [`send_with_key`].
    LookUpKey,
    /// Give up, for the reason given.
    Fail(String),
}

/// What a [`SendStep`] says.
pub enum SendStepView {
    Reserve,
    LookUpKey,
    Fail(Seq<char>),
}

impl View for SendStep {
    type V = SendStepView;

    open spec fn view(&self) -> SendStepView {
        match self {
            SendStep::Reserve => SendStepView::Reserve,
            SendStep::LookUpKey => SendStepView::LookUpKey,
            SendStep::Fail(message) => SendStepView::Fail(message@),
        }
    }
}

/// Why a chat with a provider that is not known is given up.
pub open spec fn unknown_provider(provider: Seq<char>) -> Seq<char> {
    "unknown provider: "@ + provider
}

/// How a chat with a provider begins. Only local models draw on the memory
/// budget; online ones never wait behind anything.
pub open spec fn first_step(provider: Seq<char>) -> SendStepView {
    if provider == "ollama"@ {
        SendStepView::Reserve
    } else if provider == "anthropic"@ || provider == "openai"@ || provider == "xai"@ || provider
        == "gemini"@ {
        SendStepView::LookUpKey
    } else {
        SendStepView::Fail(unknown_provider(provider))
    }
}

/// How a chat with an online provider goes on once its key has been looked up.
pub open spec fn keyed_step(
    provider: Seq<char>,
    key: Option<Seq<char>>,
    assistant: Assistant,
) -> Result<TargetView, Seq<char>> {
    if provider == "anthropic"@ {
        match key {
            Some(api_key) => Ok(
                TargetView::Anthropic { api_key, default_model: assistant.model@ },
            ),
            None => Err("Anthropic APIキーが未設定です"@),
        }
    } else if provider == "openai"@ {
        match key {
            Some(api_key) => Ok(
                TargetView::OpenAiCompat {
                    base_url: "https://api.openai.com/v1"@,
                    api_key,
                    default_model: "gpt-5.6"@,
                },
            ),
            None => Err("OpenAI APIキーが未設定です"@),
        }
    } else if provider == "xai"@ {
        match key {
            Some(api_key) => Ok(
                TargetView::OpenAiCompat {
                    base_url: "https://api.x.ai/v1"@,
                    api_key,
                    default_model: "grok-4.3"@,
                },
            ),
            None => Err("xAI APIキーが未設定です"@),
        }
    } else if provider == "gemini"@ {
        match key {
            Some(api_key) => Ok(TargetView::Gemini { api_key }),
            None => Err("Gemini APIキーが未設定です"@),
        }
    } else {
        Err(unknown_provider(provider))
    }
}

/// How a chat begins.
pub fn send_chat(provider: &str) -> (r: SendStep)
    ensures
        r@ == first_step(provider@),
{
    if text_eq(provider, "ollama") {
        SendStep::Reserve
    } else if text_eq(provider, "anthropic") || text_eq(provider, "openai") || text_eq(
        provider,
        "xai",
    ) || text_eq(provider, "gemini") {
        SendStep::LookUpKey
    } else {
        SendStep::Fail("unknown provider: ".to_string().concat(provider))
    }
}

/// How a chat with an online provider goes on, given its key.
pub fn send_with_key(provider: &str, key: Option<String>, assistant: &Assistant) -> (r: Result<
    Target,
    String,
>)
    ensures
        outcome(r) == keyed_step(provider@, key.deep_view(), *assistant),
{
    if text_eq(provider, "anthropic") {
        match key {
            Some(key) => Ok(
                Target::Anthropic(AnthropicBackend::new(key, assistant.model.clone())),
            ),
            None => Err("Anthropic APIキーが未設定です".to_string()),
        }
    } else if text_eq(provider, "openai") {
        match key {
            Some(key) => Ok(
                Target::OpenAiCompat(
                    OpenAiCompatBackend::new(
                        "https://api.openai.com/v1".to_string(),
                        key,
                        "gpt-5.6".to_string(),
                    ),
                ),
            ),
            None => Err("OpenAI APIキーが未設定です".to_string()),
        }
    } else if text_eq(provider, "xai") {
        match key {
            Some(key) => Ok(
                Target::OpenAiCompat(
                    OpenAiCompatBackend::new(
                        "https://api.x.ai/v1".to_string(),
                        key,
                        "grok-4.3".to_string(),
                    ),
                ),
            ),
            None => Err("xAI APIキーが未設定です".to_string()),
        }
    } else if text_eq(provider, "gemini") {
        match key {
            Some(key) => Ok(Target::Gemini(GeminiBackend::new(key))),
            None => Err("Gemini APIキーが未設定です".to_string()),
        }
    } else {
        Err("unknown provider: ".to_string().concat(provider))
    }
}

/// What is announced of a local chat before it reserves its permits: that it is
/// queued, where they are not free.
pub fn announce_wait(request_id: &str, immediate: bool) -> (r: Option<ChatStreamEvent>)
    ensures
        r.deep_view() == if immediate {
            None
        } else {
            Some(ChatStreamEventView::Queued { request_id: request_id@ })
        },
{
    if immediate {
        None
    } else {
        Some(ChatStreamEvent::Queued { request_id: request_id.to_string() })
    }
}

/// How a chat came to its end.
pub enum ChatEnd {
    /// It ran to its end.
    Finished(Result<(), EngineError>),
    /// It was given up before it ran, for the reason given.
    Refused(String),
    /// The user stopped it.
    Stopped,
}

/// What is announced of a chat that ended, and what its caller is told. One that
/// the user stopped is no failure.
pub fn chat_ended(request_id: &str, end: ChatEnd) -> (r: (
    Option<ChatStreamEvent>,
    Result<(), String>,
))
    ensures
        r.0.deep_view() == if end is Stopped {
            Some(ChatStreamEventView::Cancelled { request_id: request_id@ })
        } else {
            None
        },
        outcome(r.1) == match end {
            ChatEnd::Finished(Err(error)) => Err(error@.message()),
            ChatEnd::Refused(message) => Err(message@),
            _ => Ok(()),
        },
        r.0 is Some <==> end is Stopped,
        r.1 is Ok <==> end is Stopped || (end matches ChatEnd::Finished(Ok(_))),
{
    match end {
        ChatEnd::Finished(Ok(())) => (None, Ok(())),
        ChatEnd::Finished(Err(error)) => (None, Err(error.message())),
        ChatEnd::Refused(message) => (None, Err(message)),
        ChatEnd::Stopped => (
            Some(ChatStreamEvent::Cancelled { request_id: request_id.to_string() }),
            Ok(()),
        ),
    }
}

/// Every local request reserves something, and no more than there is: once all
/// permits are free, it can run.
pub proof fn law_every_request_can_run(state: AppState, size_bytes: Option<u64>)
    requires
        state.well_formed(),
    ensures
        1 <= state.reservation(size_bytes) <= state.total_local_permits,
{
}

/// A larger model reserves no less than a smaller one.
pub proof fn law_larger_models_reserve_no_less(state: AppState, a: u64, b: u64)
    requires
        state.well_formed(),
        a <= b,
    ensures
        state.reservation(Some(a)) <= state.reservation(Some(b)),
{
}

/// A model that occupies the whole budget or more reserves exactly the whole
/// budget.
pub proof fn law_oversized_models_run_alone(state: AppState, bytes: u64)
    requires
        state.well_formed(),
        resident((bytes * 100) as u128) * PERMITS_PER_GB >= state.total_local_permits * GB,
    ensures
        state.reservation(Some(bytes)) == state.total_local_permits,
{
}

/// What a list of models reserves in all.
pub open spec fn reserved_by_all(state: AppState, sizes: Seq<u64>) -> int
    decreases sizes.len(),
{
    if sizes.len() == 0 {
        0
    } else {
        reserved_by_all(state, sizes.drop_last()) + state.reservation(Some(sizes.last()))
    }
}

/// What a list of models occupies in all, once loaded.
pub open spec fn occupied_by_all(sizes: Seq<u64>) -> int
    decreases sizes.len(),
{
    if sizes.len() == 0 {
        0
    } else {
        occupied_by_all(sizes.drop_last()) + resident((sizes.last() * 100) as u128)
    }
}

proof fn lemma_reservations_cover(state: AppState, sizes: Seq<u64>)
    requires
        state.well_formed(),
        forall|i: int|
            0 <= i < sizes.len() ==> resident((#[trigger] sizes[i] * 100) as u128) * PERMITS_PER_GB
                <= state.total_local_permits * GB,
    ensures
        occupied_by_all(sizes) * PERMITS_PER_GB <= reserved_by_all(state, sizes) * GB,
    decreases sizes.len(),
{
    if sizes.len() > 0 {
        let rest = sizes.drop_last();
        assert forall|i: int| 0 <= i < rest.len() implies resident(
            (#[trigger] rest[i] * 100) as u128,
        ) * PERMITS_PER_GB <= state.total_local_permits * GB by {
            assert(rest[i] == sizes[i]);
        }
        lemma_reservations_cover(state, rest);
        assert(sizes.last() == sizes[sizes.len() - 1]);
    }
}

/// Models of known size that each fit in the budget, and that hold their
/// reservations at the same time, fit in the budget together.
pub proof fn law_admitted_models_fit_together(
    state: AppState,
    ram_budget_gb: Gigabytes,
    sizes: Seq<u64>,
)
    requires
        state.total_local_permits == clamped(permits_in(ram_budget_gb as int), u32::MAX),
        permits_in(ram_budget_gb as int) >= 1,
        forall|i: int|
            0 <= i < sizes.len() ==> resident((#[trigger] sizes[i] * 100) as u128) * PERMITS_PER_GB
                <= state.total_local_permits * GB,
        reserved_by_all(state, sizes) <= state.total_local_permits,
    ensures
        occupied_by_all(sizes) <= ram_budget_gb,
{
    lemma_reservations_cover(state, sizes);
}

/// While local requests are serialised, one that holds its reservation leaves
/// nothing free, so that any other has to wait.
pub proof fn law_serialised_requests_run_alone(
    state: AppState,
    first: Option<u64>,
    second: Option<u64>,
    available: int,
)
    requires
        state.well_formed(),
        state.serialize_local,
        available <= state.total_local_permits - state.reservation(first),
    ensures
        state.reservation(first) == state.total_local_permits,
        available < state.reservation(second),
{
}

/// While any local request holds its reservation, not all permits are free: an
/// update can tell that the engine works.
pub proof fn law_running_work_holds_up_updates(
    state: AppState,
    size_bytes: Option<u64>,
    available: int,
)
    requires
        state.well_formed(),
        available <= state.total_local_permits - state.reservation(size_bytes),
    ensures
        available < state.total_local_permits,
{
}

/// A chat waits for memory exactly where its provider is the local engine.
pub proof fn law_online_providers_never_wait(provider: Seq<char>)
    ensures
        first_step(provider) is Reserve <==> provider == "ollama"@,
{
}

/// Every provider that the user is shown can be called: its key is looked up,
/// with a key the chat runs, and without one it fails.
pub proof fn law_listed_providers_can_be_called(
    assistant: Assistant,
    configured: Seq<Seq<char>>,
    i: int,
    key: Option<Seq<char>>,
)
    requires
        0 <= i < providers(assistant, configured).len(),
    ensures
        first_step(providers(assistant, configured)[i].id) is LookUpKey,
        key is Some ==> keyed_step(providers(assistant, configured)[i].id, key, assistant) is Ok,
        key is None ==> keyed_step(providers(assistant, configured)[i].id, key, assistant) is Err,
        providers(assistant, configured)[i].label == label_of(
            providers(assistant, configured)[i].id,
            assistant.name@,
        ),
{
    reveal_strlit("ollama");
    reveal_strlit("anthropic");
    reveal_strlit("openai");
    reveal_strlit("xai");
    reveal_strlit("gemini");
    assert("ollama"@[0] == 'o' && "ollama"@[1] == 'l');
    assert("openai"@[0] == 'o' && "openai"@[1] == 'p');
    assert("gemini"@[0] == 'g');
    let all = providers(assistant, configured);
    assert(i == 0 || i == 1 || i == 2 || i == 3);
    assert(all[0].id == "anthropic"@);
    assert(all[1].id == "openai"@);
    assert(all[2].id == "gemini"@);
    assert(all[3].id == "xai"@);
}

/// A model of known size reserves what covers it and no more: the least number of
/// permits, of an eighth of a gigabyte each, that hold its size and six tenths
/// more, as far as there are permits.
pub proof fn law_models_reserve_no_more_than_they_need(state: AppState, bytes: u64)
    requires
        state.well_formed(),
        !state.serialize_local,
    ensures
        ({
            let reserved = state.reservation(Some(bytes));
            &&& 1 <= reserved <= state.total_local_permits
            &&& reserved < state.total_local_permits ==> reserved * 134_217_728 * 10 >= bytes * 16
            &&& reserved > 1 ==> (reserved - 1) * 134_217_728 * 10 < bytes * 16
        }),
{
}

/// A model whose size is not known holds up as little as can be.
pub proof fn law_models_of_unknown_size_reserve_one_permit(state: AppState)
    requires
        !state.serialize_local,
    ensures
        state.reservation(None) == 1,
{
}

/// Two models that fit in the budget together, with a permit to spare for each,
/// run side by side: where one holds its reservation, the other need not wait.
pub proof fn law_models_that_fit_run_side_by_side(state: AppState, first: u64, second: u64)
    requires
        state.well_formed(),
        !state.serialize_local,
        first * 16 + second * 16 <= (state.total_local_permits - 2) * 134_217_728 * 10,
    ensures
        state.total_local_permits - state.reservation(Some(first)) >= state.reservation(
            Some(second),
        ),
{
    law_models_reserve_no_more_than_they_need(state, first);
    law_models_reserve_no_more_than_they_need(state, second);
}

/// The budget is cut into as many whole permits as it holds, of an eighth of a
/// gigabyte each, but at least one and no more than can be counted.
pub proof fn law_the_budget_is_cut_into_whole_permits(ram_budget_gb: Gigabytes)
    ensures
        ({
            let total = clamped(permits_in(ram_budget_gb as int), u32::MAX);
            &&& total >= 1
            &&& total > 1 ==> total * 13_421_772_800 <= ram_budget_gb
            &&& total < u32::MAX ==> ram_budget_gb < (total + 1) * 13_421_772_800
        }),
{
}

/// A provider is called with the key that was found, in the model that the user is
/// shown for it, and at its own address.
pub proof fn law_providers_are_called_as_listed(
    assistant: Assistant,
    configured: Seq<Seq<char>>,
    i: int,
    key: Seq<char>,
)
    requires
        0 <= i < providers(assistant, configured).len(),
    ensures
        ({
            let listed = providers(assistant, configured)[i];
            &&& listed.configured <==> configured.contains(listed.id)
            &&& keyed_step(listed.id, Some(key), assistant) matches Ok(target) && match target {
                TargetView::Anthropic { api_key, default_model } => {
                    &&& listed.id == "anthropic"@
                    &&& api_key == key
                    &&& default_model == listed.default_model
                    &&& default_model == assistant.model@
                },
                TargetView::OpenAiCompat { base_url, api_key, default_model } => {
                    &&& listed.id == "openai"@ || listed.id == "xai"@
                    &&& api_key == key
                    &&& default_model == listed.default_model
                    &&& base_url == if listed.id == "openai"@ {
                        "https://api.openai.com/v1"@
                    } else {
                        "https://api.x.ai/v1"@
                    }
                },
                TargetView::Gemini { api_key } => listed.id == "gemini"@ && api_key == key,
            }
        }),
{
    reveal_strlit("anthropic");
    reveal_strlit("openai");
    reveal_strlit("xai");
    reveal_strlit("gemini");
    assert("openai"@[0] == 'o');
    assert("gemini"@[0] == 'g');
    let all = providers(assistant, configured);
    assert(i == 0 || i == 1 || i == 2 || i == 3);
    assert(all[0].id == "anthropic"@);
    assert(all[1].id == "openai"@);
    assert(all[2].id == "gemini"@);
    assert(all[3].id == "xai"@);
}

/// Every provider is listed once.
pub proof fn law_every_provider_is_listed_once(
    assistant: Assistant,
    configured: Seq<Seq<char>>,
    provider: Seq<char>,
)
    ensures
        forall|i: int, j: int|
            0 <= i < j < providers(assistant, configured).len() ==> (#[trigger] providers(
                assistant,
                configured,
            )[i]).id != (#[trigger] providers(assistant, configured)[j]).id,
        first_step(provider) is LookUpKey ==> exists|i: int|
            0 <= i < providers(assistant, configured).len() && (#[trigger] providers(
                assistant,
                configured,
            )[i]).id == provider,
{
    reveal_strlit("anthropic");
    reveal_strlit("openai");
    reveal_strlit("xai");
    reveal_strlit("gemini");
    assert("openai"@[0] == 'o');
    assert("gemini"@[0] == 'g');
    let all = providers(assistant, configured);
    assert(all[0].id == "anthropic"@);
    assert(all[1].id == "openai"@);
    assert(all[2].id == "gemini"@);
    assert(all[3].id == "xai"@);
}

/// A chat with a provider that is not known is given up, and says which it was.
pub proof fn law_unknown_providers_are_named(
    provider: Seq<char>,
    key: Option<Seq<char>>,
    assistant: Assistant,
)
    requires
        provider != "ollama"@,
        provider != "anthropic"@,
        provider != "openai"@,
        provider != "xai"@,
        provider != "gemini"@,
    ensures
        first_step(provider) == SendStepView::Fail("unknown provider: "@ + provider),
        keyed_step(provider, key, assistant) == Err::<TargetView, Seq<char>>(
            "unknown provider: "@ + provider,
        ),
{
}

/// An update is offered exactly where the newest release comes after the version
/// installed, by major, then minor, then patch number, and an engine is supported
/// exactly from 0.9.0 on.
pub proof fn law_updates_are_later_versions(
    installed: Version,
    newest: Version,
    package_manager: Option<PackageManager>,
)
    ensures
        ({
            let said = engine_version(
                version_text(installed),
                Some(version_text(newest)),
                package_manager,
            );
            &&& said.version == version_text(installed)
            &&& said.latest == Some(version_text(newest))
            &&& said.package_manager == package_manager
            &&& said.update_available <==> newest.0 > installed.0 || (newest.0 == installed.0 && (
            newest.1 > installed.1 || (newest.1 == installed.1 && newest.2 > installed.2)))
            &&& said.supported <==> installed.0 > 0 || installed.1 >= 9
            &&& version_of(said.minimum) == Some((0u32, 9u32, 0u32))
        }),
{
    law_written_versions_are_read_back(installed);
    law_written_versions_are_read_back(newest);
    law_written_versions_are_read_back(MINIMUM_VERSION);
}

/// A version that cannot be read holds nobody up: the engine counts as supported
/// and no update is offered. Neither is one where the newest release is not known.
pub proof fn law_unreadable_versions_pass(
    version: Seq<char>,
    latest: Option<Seq<char>>,
    package_manager: Option<PackageManager>,
)
    ensures
        version_of(version) is None ==> engine_version(version, latest, package_manager).supported
            && !engine_version(version, latest, package_manager).update_available,
        latest is None ==> !engine_version(version, latest, package_manager).update_available,
{
}

/// Without a key a chat with a provider is given up, and the provider is named.
pub proof fn law_missing_keys_are_named(assistant: Assistant)
    ensures
        keyed_step("anthropic"@, None, assistant) == Err::<TargetView, Seq<char>>(
            "Anthropic"@ + " APIキーが未設定です"@,
        ),
        keyed_step("openai"@, None, assistant) == Err::<TargetView, Seq<char>>(
            "OpenAI"@ + " APIキーが未設定です"@,
        ),
        keyed_step("xai"@, None, assistant) == Err::<TargetView, Seq<char>>(
            "xAI"@ + " APIキーが未設定です"@,
        ),
        keyed_step("gemini"@, None, assistant) == Err::<TargetView, Seq<char>>(
            "Gemini"@ + " APIキーが未設定です"@,
        ),
{
    reveal_strlit("anthropic");
    reveal_strlit("openai");
    reveal_strlit("xai");
    reveal_strlit("gemini");
    assert("openai"@[0] == 'o');
    assert("gemini"@[0] == 'g');
    assert("xai"@.len() == 3 && "openai"@.len() == 6 && "anthropic"@.len() == 9);
    reveal_strlit(" APIキーが未設定です");
    reveal_strlit("Anthropic");
    reveal_strlit("OpenAI");
    reveal_strlit("xAI");
    reveal_strlit("Gemini");
    reveal_strlit("Anthropic APIキーが未設定です");
    reveal_strlit("OpenAI APIキーが未設定です");
    reveal_strlit("xAI APIキーが未設定です");
    reveal_strlit("Gemini APIキーが未設定です");
    assert("Anthropic APIキーが未設定です"@ =~= "Anthropic"@ + " APIキーが未設定です"@);
    assert("OpenAI APIキーが未設定です"@ =~= "OpenAI"@ + " APIキーが未設定です"@);
    assert("xAI APIキーが未設定です"@ =~= "xAI"@ + " APIキーが未設定です"@);
    assert("Gemini APIキーが未設定です"@ =~= "Gemini"@ + " APIキーが未設定です"@);
}

} // verus!
