//! The models on offer, and which of them a machine can run.
use vstd::prelude::*;

use crate::selection::{
    by_weight, count_of, fast_end, law_every_vendor_gets_a_turn, law_lighter_vendors_come_first,
    law_lightest_first, law_spread_keeps_all, law_vendors_lead_with_their_lightest,
    law_vendors_take_fair_turns, lemma_filter_is_prefix, lighter_leads, lightest_first,
    sort_by_weight, spread, spread_over_vendors, trim_slow, usable, vendors,
};
use crate::throughput::{Speed, SpeedView, Throughput, BYTE_PER_SEC, MIN_USABLE_TOKENS_PER_SEC};

verus! {

/// An amount of memory, as a fixed-point number with [`GB`] units to the
/// gigabyte: a unit is a hundredth of a byte.
pub type Gigabytes = u128;

/// One gigabyte.
pub const GB: u128 = 107_374_182_400;

/// Tenths of a model's size that it occupies once loaded. Weights need more
/// memory than their file: context buffers and the runtime come on top.
pub const RUNTIME_OVERHEAD_MULTIPLIER: u128 = 16;

/// Tenths of the memory that loaded models may occupy. The rest is left to the
/// system and to other programs.
pub const RAM_BUDGET_FRACTION: u128 = 7;

/// However slow the machine, this many models that fit are offered. An empty
/// list would leave no way to install the small model that works.
pub const MIN_RECOMMENDATIONS: usize = 3;

/// What is known of the machine.
#[derive(Debug)]
pub struct HardwareProfile {
    pub os: String,
    pub total_ram_gb: Gigabytes,
    pub logical_cores: usize,
    /// Whether the engine was seen to place weights in video memory. Unknown
    /// counts as not.
    pub accelerated: bool,
    /// Weights read per second, learned from answers that the engine has
    /// finished on this machine.
    pub observed_gb_per_sec: Option<Throughput>,
}

/// What a [`HardwareProfile`] says.
pub struct HardwareProfileView {
    pub os: Seq<char>,
    pub total_ram_gb: u128,
    pub logical_cores: usize,
    pub accelerated: bool,
    pub observed_gb_per_sec: Option<int>,
}

impl View for HardwareProfile {
    type V = HardwareProfileView;

    open spec fn view(&self) -> HardwareProfileView {
        HardwareProfileView {
            os: self.os@,
            total_ram_gb: self.total_ram_gb,
            logical_cores: self.logical_cores,
            accelerated: self.accelerated,
            observed_gb_per_sec: self.observed_gb_per_sec.deep_view(),
        }
    }
}

/// One model on offer.
#[derive(Debug)]
pub struct CatalogEntry {
    pub tag: String,
    /// Who trained it.
    pub origin: String,
    pub label: String,
    pub size_gb: Gigabytes,
    /// What is read per token. A mixture of experts reads a fraction of its
    /// size, any other model all of it.
    pub active_size_gb: Gigabytes,
    pub role: String,
    pub description: String,
    /// Expected speed on this machine, where there is a measurement to derive it
    /// from.
    pub est_tokens_per_sec: Option<Speed>,
}

/// What a [`CatalogEntry`] says.
pub struct CatalogEntryView {
    pub tag: Seq<char>,
    pub origin: Seq<char>,
    pub label: Seq<char>,
    pub size_gb: u128,
    pub active_size_gb: u128,
    pub role: Seq<char>,
    pub description: Seq<char>,
    pub est_tokens_per_sec: Option<SpeedView>,
}

impl View for CatalogEntry {
    type V = CatalogEntryView;

    open spec fn view(&self) -> CatalogEntryView {
        CatalogEntryView {
            tag: self.tag@,
            origin: self.origin@,
            label: self.label@,
            size_gb: self.size_gb,
            active_size_gb: self.active_size_gb,
            role: self.role@,
            description: self.description@,
            est_tokens_per_sec: self.est_tokens_per_sec.deep_view(),
        }
    }
}

impl DeepView for CatalogEntry {
    type V = CatalogEntryView;

    open spec fn deep_view(&self) -> CatalogEntryView {
        self@
    }
}

impl Clone for CatalogEntry {
    fn clone(&self) -> (r: CatalogEntry)
        ensures
            r@ == self@,
    {
        CatalogEntry {
            tag: self.tag.clone(),
            origin: self.origin.clone(),
            label: self.label.clone(),
            size_gb: self.size_gb,
            active_size_gb: self.active_size_gb,
            role: self.role.clone(),
            description: self.description.clone(),
            est_tokens_per_sec: self.est_tokens_per_sec,
        }
    }
}

/// Memory that loaded models may occupy at once.
pub open spec fn budget_of(total_ram_gb: u128) -> int {
    total_ram_gb * RAM_BUDGET_FRACTION / 10
}

/// What a model of the given size occupies once loaded.
pub open spec fn resident(size_gb: u128) -> int {
    size_gb * RUNTIME_OVERHEAD_MULTIPLIER / 10
}

/// The speed that the machine should sustain for a model that reads
/// `active_size_gb` per token. None before the engine has generated
/// anything to measure, and none where video memory does the work: a figure
/// from a model that fits there says little about one that does not.
pub open spec fn estimate(profile: HardwareProfileView, active_size_gb: u128) -> Option<SpeedView> {
    if profile.accelerated || active_size_gb == 0 {
        None
    } else {
        match profile.observed_gb_per_sec {
            Some(throughput) => Some(SpeedView { throughput, active_size_gb }),
            None => None,
        }
    }
}

/// What the machine looks like, given what the system reports of it.
pub open spec fn profile_of(
    os: Seq<char>,
    total_ram_bytes: u64,
    logical_cores: Option<usize>,
    accelerated: bool,
    observed_gb_per_sec: Option<int>,
) -> HardwareProfileView {
    HardwareProfileView {
        os,
        total_ram_gb: (total_ram_bytes * 100) as u128,
        logical_cores: match logical_cores {
            Some(cores) => cores,
            None => 1,
        },
        accelerated,
        observed_gb_per_sec,
    }
}

/// What the machine looks like, given what the system reports of it. A machine
/// that does not tell its number of cores counts as having one.
pub fn detect_hardware(
    os: &str,
    total_ram_bytes: u64,
    logical_cores: Option<usize>,
    accelerated: bool,
    observed_gb_per_sec: Option<Throughput>,
) -> (r: HardwareProfile)
    ensures
        r@ == (HardwareProfileView {
            os: os@,
            total_ram_gb: (total_ram_bytes * 100) as u128,
            logical_cores: match logical_cores {
                Some(cores) => cores,
                None => 1,
            },
            accelerated,
            observed_gb_per_sec: observed_gb_per_sec.deep_view(),
        }),
        r@ == profile_of(
            os@,
            total_ram_bytes,
            logical_cores,
            accelerated,
            observed_gb_per_sec.deep_view(),
        ),
{
    HardwareProfile {
        os: os.to_string(),
        total_ram_gb: total_ram_bytes as u128 * 100,
        logical_cores: match logical_cores {
            Some(cores) => cores,
            None => 1,
        },
        accelerated,
        observed_gb_per_sec,
    }
}

/// Memory that loaded models may occupy at once.
pub fn ram_budget_gb(profile: &HardwareProfile) -> (r: Gigabytes)
    ensures
        r == budget_of(profile.total_ram_gb),
{
    let total: u128 = profile.total_ram_gb;
    total / 10 * RAM_BUDGET_FRACTION + total % 10 * RAM_BUDGET_FRACTION / 10
}

/// What a model is expected to occupy once loaded.
pub fn resident_gb(total_size_gb: Gigabytes) -> (r: Gigabytes)
    requires
        resident(total_size_gb) <= u128::MAX,
    ensures
        r == resident(total_size_gb),
{
    total_size_gb / 10 * RUNTIME_OVERHEAD_MULTIPLIER + total_size_gb % 10
        * RUNTIME_OVERHEAD_MULTIPLIER / 10
}

/// See [`estimate`].
pub fn estimate_tokens_per_sec(profile: &HardwareProfile, active_size_gb: Gigabytes) -> (r: Option<
    Speed,
>)
    ensures
        r.deep_view() == estimate(profile@, active_size_gb),
{
    if profile.accelerated || active_size_gb == 0 {
        return None;
    }
    match profile.observed_gb_per_sec {
        Some(throughput) => Some(Speed { throughput, active_size_gb }),
        None => None,
    }
}

/// A model of which nothing has been measured. Sizes are in tenths of a
/// gigabyte.
pub open spec fn listed(
    tag: Seq<char>,
    origin: Seq<char>,
    label: Seq<char>,
    size: u16,
    active: u16,
    role: Seq<char>,
    description: Seq<char>,
) -> CatalogEntryView {
    CatalogEntryView {
        tag,
        origin,
        label,
        size_gb: (size * GB / 10) as u128,
        active_size_gb: (active * GB / 10) as u128,
        role,
        description,
        est_tokens_per_sec: None,
    }
}

/// The models on offer. Sizes are those of the published files; what a mixture
/// of experts reads per token is its size times the share of its parameters
/// that are active.
pub open spec fn catalog() -> Seq<CatalogEntryView> {
    seq![
        listed("qwen3.5:9b"@, "Alibaba"@, "Qwen3.5 9B"@, 66, 66, "general"@, "軽量な汎用モデル"@),
        listed("qwen3:4b"@, "Alibaba"@, "Qwen3 4B"@, 23, 23, "reasoning"@, "軽量ながらthinking対応"@),
        listed("qwen3.6:35b-a3b"@, "Alibaba"@, "Qwen3.6 35B-A3B"@, 230, 20, "general"@, "MoEで効率的な大型モデル"@),
        listed("qwen3-coder:30b"@, "Alibaba"@, "Qwen3 Coder 30B"@, 190, 20, "code"@, "コード生成特化のMoEモデル"@),
        listed("gemma3:4b"@, "Google"@, "Gemma3 4B"@, 33, 33, "router"@, "超軽量、ルーター役に最適"@),
        listed("gemma3:12b"@, "Google"@, "Gemma3 12B"@, 81, 81, "general"@, "バランス型・マルチモーダル対応"@),
        listed("gemma3:27b"@, "Google"@, "Gemma3 27B"@, 170, 170, "general"@, "マルチモーダル対応の大型モデル"@),
        listed("mistral-small:22b"@, "Mistral AI"@, "Mistral Small 22B"@, 130, 130, "general"@, "フランスMistral AI製、128K文脈"@),
        listed("mistral-nemo"@, "Mistral AI"@, "Mistral Nemo 12B"@, 71, 71, "general"@, "軽量・128K文脈"@),
        listed("llama3.1:8b"@, "Meta"@, "Llama 3.1 8B"@, 49, 49, "general"@, "定番の汎用モデル"@),
        listed("llama3.2:3b"@, "Meta"@, "Llama 3.2 3B"@, 20, 20, "router"@, "超軽量、ルーター役に最適"@),
        listed("llama3.3:70b"@, "Meta"@, "Llama 3.3 70B"@, 430, 430, "general"@, "大規模・高精度"@),
        listed("deepseek-r1:8b"@, "DeepSeek"@, "DeepSeek-R1 8B"@, 52, 52, "reasoning"@, "推論特化・軽量"@),
        listed("deepseek-r1:32b"@, "DeepSeek"@, "DeepSeek-R1 32B"@, 200, 200, "reasoning"@, "推論特化・高精度"@),
        listed("deepseek-coder-v2:16b"@, "DeepSeek"@, "DeepSeek-Coder-V2 16B"@, 83, 13, "code"@, "コード特化のMoE・CPUでも高速"@),
        listed("phi4:14b"@, "Microsoft"@, "Phi-4 14B"@, 91, 91, "general"@, "コンパクトながら高性能"@),
        listed("phi4-mini"@, "Microsoft"@, "Phi-4 mini 3.8B"@, 23, 23, "general"@, "超軽量な汎用モデル"@),
        listed("gpt-oss:20b"@, "OpenAI"@, "gpt-oss 20B"@, 130, 36, "general"@, "OpenAIのオープンウェイトモデル"@),
        listed("granite3.3:8b"@, "IBM"@, "Granite 3.3 8B"@, 46, 46, "general"@, "IBM製・商用利用しやすいライセンス"@),
    ]
}

fn entry(
    tag: &str,
    origin: &str,
    label: &str,
    size: u16,
    active: u16,
    role: &str,
    description: &str,
) -> (r: CatalogEntry)
    ensures
        r@ == listed(tag@, origin@, label@, size, active, role@, description@),
{
    CatalogEntry {
        tag: tag.to_string(),
        origin: origin.to_string(),
        label: label.to_string(),
        size_gb: size as u128 * GB / 10,
        active_size_gb: active as u128 * GB / 10,
        role: role.to_string(),
        description: description.to_string(),
        est_tokens_per_sec: None,
    }
}

/// The models on offer.
pub fn full_catalog() -> (r: Vec<CatalogEntry>)
    ensures
        r.deep_view() == catalog(),
{
    let mut all: Vec<CatalogEntry> = Vec::new();
    all.push(entry("qwen3.5:9b", "Alibaba", "Qwen3.5 9B", 66, 66, "general", "軽量な汎用モデル"));
    all.push(entry("qwen3:4b", "Alibaba", "Qwen3 4B", 23, 23, "reasoning", "軽量ながらthinking対応"));
    all.push(entry("qwen3.6:35b-a3b", "Alibaba", "Qwen3.6 35B-A3B", 230, 20, "general", "MoEで効率的な大型モデル"));
    all.push(entry("qwen3-coder:30b", "Alibaba", "Qwen3 Coder 30B", 190, 20, "code", "コード生成特化のMoEモデル"));
    all.push(entry("gemma3:4b", "Google", "Gemma3 4B", 33, 33, "router", "超軽量、ルーター役に最適"));
    all.push(entry("gemma3:12b", "Google", "Gemma3 12B", 81, 81, "general", "バランス型・マルチモーダル対応"));
    all.push(entry("gemma3:27b", "Google", "Gemma3 27B", 170, 170, "general", "マルチモーダル対応の大型モデル"));
    all.push(entry("mistral-small:22b", "Mistral AI", "Mistral Small 22B", 130, 130, "general", "フランスMistral AI製、128K文脈"));
    all.push(entry("mistral-nemo", "Mistral AI", "Mistral Nemo 12B", 71, 71, "general", "軽量・128K文脈"));
    all.push(entry("llama3.1:8b", "Meta", "Llama 3.1 8B", 49, 49, "general", "定番の汎用モデル"));
    all.push(entry("llama3.2:3b", "Meta", "Llama 3.2 3B", 20, 20, "router", "超軽量、ルーター役に最適"));
    all.push(entry("llama3.3:70b", "Meta", "Llama 3.3 70B", 430, 430, "general", "大規模・高精度"));
    all.push(entry("deepseek-r1:8b", "DeepSeek", "DeepSeek-R1 8B", 52, 52, "reasoning", "推論特化・軽量"));
    all.push(entry("deepseek-r1:32b", "DeepSeek", "DeepSeek-R1 32B", 200, 200, "reasoning", "推論特化・高精度"));
    all.push(entry("deepseek-coder-v2:16b", "DeepSeek", "DeepSeek-Coder-V2 16B", 83, 13, "code", "コード特化のMoE・CPUでも高速"));
    all.push(entry("phi4:14b", "Microsoft", "Phi-4 14B", 91, 91, "general", "コンパクトながら高性能"));
    all.push(entry("phi4-mini", "Microsoft", "Phi-4 mini 3.8B", 23, 23, "general", "超軽量な汎用モデル"));
    all.push(entry("gpt-oss:20b", "OpenAI", "gpt-oss 20B", 130, 36, "general", "OpenAIのオープンウェイトモデル"));
    all.push(entry("granite3.3:8b", "IBM", "Granite 3.3 8B", 46, 46, "general", "IBM製・商用利用しやすいライセンス"));
    all
}

/// Whether a model fits in the memory set aside for models. One that does not
/// would be evicted and loaded again, or make the machine page.
pub open spec fn fits(profile: HardwareProfileView, e: CatalogEntryView) -> bool {
    resident(e.size_gb) <= budget_of(profile.total_ram_gb)
}

/// A model with the speed that is expected of it.
pub open spec fn estimated(profile: HardwareProfileView, e: CatalogEntryView) -> CatalogEntryView {
    CatalogEntryView { est_tokens_per_sec: estimate(profile, e.active_size_gb), ..e }
}

/// The models that fit, with the speed that is expected of them.
pub open spec fn fitting(profile: HardwareProfileView, all: Seq<CatalogEntryView>) -> Seq<
    CatalogEntryView,
> {
    all.filter(|e: CatalogEntryView| fits(profile, e)).map_values(
        |e: CatalogEntryView| estimated(profile, e),
    )
}

/// The models worth offering: those that fit, lightest first, without the slow
/// end.
pub open spec fn worthwhile(profile: HardwareProfileView) -> Seq<CatalogEntryView> {
    fast_end(lightest_first(fitting(profile, catalog())))
}

/// The recommendations: the models worth offering, spread over vendors, up to
/// `limit` of them.
pub open spec fn recommended(profile: HardwareProfileView, limit: usize) -> Seq<CatalogEntryView> {
    let all = spread(worthwhile(profile));
    if limit < all.len() {
        all.take(limit as int)
    } else {
        all
    }
}

/// Whether a model of the given size fits in the given budget.
fn fits_in(size_gb: Gigabytes, budget: Gigabytes) -> (r: bool)
    requires
        budget * 10 <= u128::MAX * 7,
    ensures
        r == (resident(size_gb) <= budget),
{
    if size_gb > u128::MAX / RUNTIME_OVERHEAD_MULTIPLIER * 10 {
        return false;
    }
    resident_gb(size_gb) <= budget
}

/// See [`fitting`].
fn fitting_entries(profile: &HardwareProfile, all: &Vec<CatalogEntry>) -> (r: Vec<CatalogEntry>)
    ensures
        r.deep_view() == fitting(profile@, all.deep_view()),
{
    let budget: u128 = ram_budget_gb(profile);
    let ghost every = all.deep_view();
    let ghost pred = |e: CatalogEntryView| fits(profile@, e);
    let ghost with = |e: CatalogEntryView| estimated(profile@, e);
    let n: usize = all.len();
    let mut r: Vec<CatalogEntry> = Vec::new();
    proof {
        reveal(Seq::filter);
    }
    assert(r.deep_view() =~= every.take(0).filter(pred).map_values(with));
    for i in 0..n
        invariant
            n == all@.len(),
            every == all.deep_view(),
            budget == budget_of(profile.total_ram_gb),
            pred == (|e: CatalogEntryView| fits(profile@, e)),
            with == (|e: CatalogEntryView| estimated(profile@, e)),
            r.deep_view() == every.take(i as int).filter(pred).map_values(with),
    {
        let ghost before = r.deep_view();
        let ghost e = every[i as int];
        proof {
            reveal(Seq::filter);
            assert(every.take(i + 1).drop_last() =~= every.take(i as int));
            assert(every.take(i + 1).last() == e);
        }
        if fits_in(all[i].size_gb, budget) {
            let mut chosen: CatalogEntry = all[i].clone();
            chosen.est_tokens_per_sec = estimate_tokens_per_sec(profile, chosen.active_size_gb);
            r.push(chosen);
            assert(r.deep_view() =~= before.push(estimated(profile@, e)));
            assert(r.deep_view() =~= every.take(i + 1).filter(pred).map_values(with));
        }
    }
    assert(every.take(n as int) =~= every);
    r
}

/// Recommends up to `limit` models that the machine can run, cheapest first, and
/// one vendor after the other, so that the list is not dominated by whoever has
/// the most entries.
///
/// Memory decides by what a model occupies; it always does. Speed decides by
/// what a model reads per token, once there is a measurement, and never leaves
/// fewer than [`MIN_RECOMMENDATIONS`].
pub fn recommend(profile: &HardwareProfile, limit: usize) -> (r: Vec<CatalogEntry>)
    ensures
        r.deep_view() == recommended(profile@, limit),
{
    let all: Vec<CatalogEntry> = full_catalog();
    let fit: Vec<CatalogEntry> = fitting_entries(profile, &all);
    let worth: Vec<CatalogEntry> = trim_slow(sort_by_weight(&fit));
    let mut r: Vec<CatalogEntry> = spread_over_vendors(&worth);
    r.truncate(limit);
    assert(r.deep_view() =~= recommended(profile@, limit));
    r
}

/// Whether an entry is one of the given models that fits, with the speed that
/// is expected of it.
pub open spec fn runnable(
    profile: HardwareProfileView,
    all: Seq<CatalogEntryView>,
    e: CatalogEntryView,
) -> bool {
    exists|i: int|
        0 <= i < all.len() && fits(profile, #[trigger] all[i]) && e == estimated(profile, all[i])
}

proof fn lemma_fitting(profile: HardwareProfileView, all: Seq<CatalogEntryView>)
    ensures
        forall|k: int|
            0 <= k < fitting(profile, all).len() ==> runnable(
                profile,
                all,
                #[trigger] fitting(profile, all)[k],
            ),
{
    let pred = |e: CatalogEntryView| fits(profile, e);
    let chosen = all.filter(pred);
    assert forall|k: int| 0 <= k < fitting(profile, all).len() implies runnable(
        profile,
        all,
        #[trigger] fitting(profile, all)[k],
    ) by {
        all.lemma_filter_pred(pred, k);
        all.lemma_filter_contains_rev(pred, chosen[k]);
        let i = all.index_of(chosen[k]);
        assert(fits(profile, all[i]));
    }
}

proof fn lemma_member_of_permutation(
    a: Seq<CatalogEntryView>,
    b: Seq<CatalogEntryView>,
    k: int,
) -> (i: int)
    requires
        a.to_multiset() == b.to_multiset(),
        0 <= k < a.len(),
    ensures
        0 <= i < b.len(),
        b[i] == a[k],
{
    vstd::seq_lib::to_multiset_contains(a, a[k]);
    vstd::seq_lib::to_multiset_contains(b, a[k]);
    assert(a.contains(a[k]));
    b.index_of(a[k])
}

/// Every recommendation is a model on offer that fits in memory, and carries the
/// speed that is expected of it on this machine.
pub proof fn law_recommendations_fit(profile: HardwareProfileView, limit: usize)
    ensures
        forall|k: int|
            0 <= k < recommended(profile, limit).len() ==> runnable(
                profile,
                catalog(),
                #[trigger] recommended(profile, limit)[k],
            ),
{
    let fit = fitting(profile, catalog());
    let sorted = lightest_first(fit);
    let worth = worthwhile(profile);
    law_lightest_first(fit);
    law_spread_keeps_all(worth);
    lemma_fitting(profile, catalog());
    assert forall|k: int| 0 <= k < recommended(profile, limit).len() implies runnable(
        profile,
        catalog(),
        #[trigger] recommended(profile, limit)[k],
    ) by {
        let a = lemma_member_of_permutation(spread(worth), worth, k);
        assert(worth[a] == sorted[a]);
        let b = lemma_member_of_permutation(sorted, fit, a);
        assert(fit[b] == recommended(profile, limit)[k]);
    }
}

/// There are as many recommendations as there are models worth offering, up to
/// `limit`, and however slow the machine, at least [`MIN_RECOMMENDATIONS`] of
/// those that fit are worth offering.
pub proof fn law_never_an_empty_list(profile: HardwareProfileView, limit: usize)
    ensures
        recommended(profile, limit).len() <= limit,
        recommended(profile, limit).len() == worthwhile(profile).len() || recommended(
            profile,
            limit,
        ).len() == limit,
        worthwhile(profile).len() >= MIN_RECOMMENDATIONS || worthwhile(profile).len() == fitting(
            profile,
            catalog(),
        ).len(),
{
    law_lightest_first(fitting(profile, catalog()));
    law_spread_keeps_all(worthwhile(profile));
}

/// Of two recommendations of one vendor the lighter comes first.
pub proof fn law_lightest_of_each_vendor_first(profile: HardwareProfileView, limit: usize)
    ensures
        lighter_leads(recommended(profile, limit)),
{
    let sorted = lightest_first(fitting(profile, catalog()));
    let worth = worthwhile(profile);
    law_lightest_first(fitting(profile, catalog()));
    assert(by_weight(worth)) by {
        assert forall|i: int, j: int| 0 <= i <= j < worth.len() implies (
        #[trigger] worth[i]).active_size_gb <= (#[trigger] worth[j]).active_size_gb by {
            assert(worth[i] == sorted[i] && worth[j] == sorted[j]);
        }
    }
    law_vendors_lead_with_their_lightest(worth);
    let all = spread(worth);
    let r = recommended(profile, limit);
    assert forall|i: int, j: int|
        0 <= i < j < r.len() && (#[trigger] r[i]).origin == (
        #[trigger] r[j]).origin implies r[i].active_size_gb <= r[j].active_size_gb by {
        assert(r[i] == all[i] && r[j] == all[j]);
    }
}

proof fn lemma_lighter_is_faster(profile: HardwareProfileView, a: u128, b: u128)
    requires
        a <= b,
        estimate(profile, b) matches Some(est) ==> est.reaches(MIN_USABLE_TOKENS_PER_SEC as int),
    ensures
        estimate(profile, a) matches Some(est) ==> est.reaches(MIN_USABLE_TOKENS_PER_SEC as int),
{
    let tokens = MIN_USABLE_TOKENS_PER_SEC as int;
    assert(tokens * a * BYTE_PER_SEC <= tokens * b * BYTE_PER_SEC) by (nonlinear_arith)
        requires
            a <= b,
            tokens == 5,
    ;
}

/// Speed trims the list from its slow end only. Whatever fits and is fast enough
/// is worth offering, and whatever is worth offering is fast enough or among the
/// lightest [`MIN_RECOMMENDATIONS`] that fit.
pub proof fn law_speed_trims_the_slow_end(profile: HardwareProfileView)
    ensures
        ({
            let sorted = lightest_first(fitting(profile, catalog()));
            let worth = worthwhile(profile);
            &&& by_weight(sorted)
            &&& sorted.to_multiset() == fitting(profile, catalog()).to_multiset()
            &&& worth == sorted.take(worth.len() as int)
            &&& forall|k: int|
                MIN_RECOMMENDATIONS <= k < worth.len() ==> usable(#[trigger] worth[k])
            &&& forall|k: int| worth.len() <= k < sorted.len() ==> !usable(#[trigger] sorted[k])
        }),
{
    let fit = fitting(profile, catalog());
    let sorted = lightest_first(fit);
    let pred = |e: CatalogEntryView| usable(e);
    law_lightest_first(fit);
    lemma_fitting(profile, catalog());
    assert forall|i: int, j: int|
        0 <= i <= j < sorted.len() && pred(#[trigger] sorted[j]) implies pred(
        #[trigger] sorted[i],
    ) by {
        let a = lemma_member_of_permutation(sorted, fit, i);
        let b = lemma_member_of_permutation(sorted, fit, j);
        assert(runnable(profile, catalog(), fit[a]));
        assert(runnable(profile, catalog(), fit[b]));
        lemma_lighter_is_faster(profile, sorted[i].active_size_gb, sorted[j].active_size_gb);
    }
    lemma_filter_is_prefix(sorted, pred);
    let worth = worthwhile(profile);
    assert forall|k: int| MIN_RECOMMENDATIONS <= k < worth.len() implies usable(
        #[trigger] worth[k],
    ) by {
        assert(pred(sorted[k]));
    }
    assert forall|k: int| worth.len() <= k < sorted.len() implies !usable(#[trigger] sorted[k]) by {
        assert(!pred(sorted[k]));
    }
}

/// Before anything has been measured, and where video memory does the work, no
/// speed is claimed and whatever fits is worth offering.
pub proof fn law_no_measurement_no_speed_gate(profile: HardwareProfileView, limit: usize)
    requires
        profile.accelerated || profile.observed_gb_per_sec is None,
    ensures
        worthwhile(profile) == lightest_first(fitting(profile, catalog())),
        forall|k: int|
            0 <= k < recommended(profile, limit).len() ==> (
            #[trigger] recommended(profile, limit)[k]).est_tokens_per_sec is None,
{
    let fit = fitting(profile, catalog());
    let sorted = lightest_first(fit);
    law_lightest_first(fit);
    law_speed_trims_the_slow_end(profile);
    lemma_fitting(profile, catalog());
    if worthwhile(profile).len() < sorted.len() {
        let k = worthwhile(profile).len() as int;
        let a = lemma_member_of_permutation(sorted, fit, k);
        assert(runnable(profile, catalog(), fit[a]));
        assert(!usable(sorted[k]));
    }
    assert(worthwhile(profile) =~= sorted);
    law_recommendations_fit(profile, limit);
    assert forall|k: int| 0 <= k < recommended(profile, limit).len() implies (
    #[trigger] recommended(profile, limit)[k]).est_tokens_per_sec is None by {
        assert(runnable(profile, catalog(), recommended(profile, limit)[k]));
    }
}

/// The recommendations begin with one model of each vendor, as far as `limit`
/// goes, before any vendor comes again.
pub proof fn law_recommendations_are_diverse(profile: HardwareProfileView, limit: usize)
    ensures
        forall|i: int, j: int|
            0 <= i < j < recommended(profile, limit).len() && j < vendors(
                worthwhile(profile),
            ).len() ==> (#[trigger] recommended(profile, limit)[i]).origin != (
            #[trigger] recommended(profile, limit)[j]).origin,
        forall|i: int|
            0 <= i < worthwhile(profile).len() ==> vendors(worthwhile(profile)).contains(
                (#[trigger] worthwhile(profile)[i]).origin,
            ),
{
    law_every_vendor_gets_a_turn(worthwhile(profile));
    let all = spread(worthwhile(profile));
    assert forall|i: int, j: int|
        0 <= i < j < recommended(profile, limit).len() && j < vendors(
            worthwhile(profile),
        ).len() implies (#[trigger] recommended(profile, limit)[i]).origin != (
    #[trigger] recommended(profile, limit)[j]).origin by {
        assert(all[i].origin == vendors(worthwhile(profile))[i]);
        assert(all[j].origin == vendors(worthwhile(profile))[j]);
    }
}

/// Vendors take fair turns: no vendor is more than one recommendation ahead of
/// another that has models worth offering left.
pub proof fn law_recommendations_take_fair_turns(
    profile: HardwareProfileView,
    limit: usize,
    a: Seq<char>,
    b: Seq<char>,
)
    requires
        vendors(worthwhile(profile)).contains(a),
        vendors(worthwhile(profile)).contains(b),
    ensures
        count_of(recommended(profile, limit), a) <= count_of(recommended(profile, limit), b) + 1
            || count_of(recommended(profile, limit), b) == count_of(worthwhile(profile), b),
{
    let all = spread(worthwhile(profile));
    let n = if limit < all.len() {
        limit as int
    } else {
        all.len() as int
    };
    assert(recommended(profile, limit) =~= all.take(n));
    law_vendors_take_fair_turns(worthwhile(profile), n, a, b);
}

/// Whether no two entries have the same tag.
pub open spec fn tags_differ(s: Seq<CatalogEntryView>) -> bool {
    forall|i: int, j: int|
        0 <= i < j < s.len() ==> (#[trigger] s[i]).tag != (#[trigger] s[j]).tag
}

/// No two models on offer have the same tag.
pub proof fn law_catalog_tags_differ()
    ensures
        tags_differ(catalog()),
{
    let all = catalog();
    reveal_strlit("qwen3.5:9b");
    assert(all[0].tag == "qwen3.5:9b"@ && "qwen3.5:9b"@.len() == 10);
    reveal_strlit("qwen3:4b");
    assert(all[1].tag == "qwen3:4b"@ && "qwen3:4b"@.len() == 8);
    reveal_strlit("qwen3.6:35b-a3b");
    assert(all[2].tag == "qwen3.6:35b-a3b"@ && "qwen3.6:35b-a3b"@.len() == 15);
    reveal_strlit("qwen3-coder:30b");
    assert(all[3].tag == "qwen3-coder:30b"@ && "qwen3-coder:30b"@.len() == 15);
    reveal_strlit("gemma3:4b");
    assert(all[4].tag == "gemma3:4b"@ && "gemma3:4b"@.len() == 9);
    reveal_strlit("gemma3:12b");
    assert(all[5].tag == "gemma3:12b"@ && "gemma3:12b"@.len() == 10);
    reveal_strlit("gemma3:27b");
    assert(all[6].tag == "gemma3:27b"@ && "gemma3:27b"@.len() == 10);
    reveal_strlit("mistral-small:22b");
    assert(all[7].tag == "mistral-small:22b"@ && "mistral-small:22b"@.len() == 17);
    reveal_strlit("mistral-nemo");
    assert(all[8].tag == "mistral-nemo"@ && "mistral-nemo"@.len() == 12);
    reveal_strlit("llama3.1:8b");
    assert(all[9].tag == "llama3.1:8b"@ && "llama3.1:8b"@.len() == 11);
    reveal_strlit("llama3.2:3b");
    assert(all[10].tag == "llama3.2:3b"@ && "llama3.2:3b"@.len() == 11);
    reveal_strlit("llama3.3:70b");
    assert(all[11].tag == "llama3.3:70b"@ && "llama3.3:70b"@.len() == 12);
    reveal_strlit("deepseek-r1:8b");
    assert(all[12].tag == "deepseek-r1:8b"@ && "deepseek-r1:8b"@.len() == 14);
    reveal_strlit("deepseek-r1:32b");
    assert(all[13].tag == "deepseek-r1:32b"@ && "deepseek-r1:32b"@.len() == 15);
    reveal_strlit("deepseek-coder-v2:16b");
    assert(all[14].tag == "deepseek-coder-v2:16b"@ && "deepseek-coder-v2:16b"@.len() == 21);
    reveal_strlit("phi4:14b");
    assert(all[15].tag == "phi4:14b"@ && "phi4:14b"@.len() == 8);
    reveal_strlit("phi4-mini");
    assert(all[16].tag == "phi4-mini"@ && "phi4-mini"@.len() == 9);
    reveal_strlit("gpt-oss:20b");
    assert(all[17].tag == "gpt-oss:20b"@ && "gpt-oss:20b"@.len() == 11);
    reveal_strlit("granite3.3:8b");
    assert(all[18].tag == "granite3.3:8b"@ && "granite3.3:8b"@.len() == 13);
    assert("qwen3.5:9b"@[0] != "gemma3:12b"@[0]);
    assert("qwen3.5:9b"@[0] != "gemma3:27b"@[0]);
    assert("qwen3:4b"@[0] != "phi4:14b"@[0]);
    assert("qwen3.6:35b-a3b"@[5] != "qwen3-coder:30b"@[5]);
    assert("qwen3.6:35b-a3b"@[0] != "deepseek-r1:32b"@[0]);
    assert("qwen3-coder:30b"@[0] != "deepseek-r1:32b"@[0]);
    assert("gemma3:4b"@[0] != "phi4-mini"@[0]);
    assert("gemma3:12b"@[7] != "gemma3:27b"@[7]);
    assert("mistral-nemo"@[0] != "llama3.3:70b"@[0]);
    assert("llama3.1:8b"@[7] != "llama3.2:3b"@[7]);
    assert("llama3.1:8b"@[0] != "gpt-oss:20b"@[0]);
    assert("llama3.2:3b"@[0] != "gpt-oss:20b"@[0]);
    assert(forall|i: int| 0 <= i < 1 ==> (#[trigger] all[i]).tag != all[1].tag);
    assert(forall|i: int| 0 <= i < 2 ==> (#[trigger] all[i]).tag != all[2].tag);
    assert(forall|i: int| 0 <= i < 3 ==> (#[trigger] all[i]).tag != all[3].tag);
    assert(forall|i: int| 0 <= i < 4 ==> (#[trigger] all[i]).tag != all[4].tag);
    assert(forall|i: int| 0 <= i < 5 ==> (#[trigger] all[i]).tag != all[5].tag);
    assert(forall|i: int| 0 <= i < 6 ==> (#[trigger] all[i]).tag != all[6].tag);
    assert(forall|i: int| 0 <= i < 7 ==> (#[trigger] all[i]).tag != all[7].tag);
    assert(forall|i: int| 0 <= i < 8 ==> (#[trigger] all[i]).tag != all[8].tag);
    assert(forall|i: int| 0 <= i < 9 ==> (#[trigger] all[i]).tag != all[9].tag);
    assert(forall|i: int| 0 <= i < 10 ==> (#[trigger] all[i]).tag != all[10].tag);
    assert(forall|i: int| 0 <= i < 11 ==> (#[trigger] all[i]).tag != all[11].tag);
    assert(forall|i: int| 0 <= i < 12 ==> (#[trigger] all[i]).tag != all[12].tag);
    assert(forall|i: int| 0 <= i < 13 ==> (#[trigger] all[i]).tag != all[13].tag);
    assert(forall|i: int| 0 <= i < 14 ==> (#[trigger] all[i]).tag != all[14].tag);
    assert(forall|i: int| 0 <= i < 15 ==> (#[trigger] all[i]).tag != all[15].tag);
    assert(forall|i: int| 0 <= i < 16 ==> (#[trigger] all[i]).tag != all[16].tag);
    assert(forall|i: int| 0 <= i < 17 ==> (#[trigger] all[i]).tag != all[17].tag);
    assert(forall|i: int| 0 <= i < 18 ==> (#[trigger] all[i]).tag != all[18].tag);
    assert forall|i: int, j: int| 0 <= i < j < all.len() implies (#[trigger] all[i]).tag != (
    #[trigger] all[j]).tag by {
        assert(all.len() == 19);
    }
}

proof fn lemma_filter_tags(s: Seq<CatalogEntryView>, pred: spec_fn(CatalogEntryView) -> bool)
    requires
        tags_differ(s),
    ensures
        tags_differ(s.filter(pred)),
        forall|i: int|
            0 <= i < s.filter(pred).len() ==> exists|k: int|
                0 <= k < s.len() && s[k] == #[trigger] s.filter(pred)[i],
    decreases s.len(),
{
    reveal(Seq::filter);
    if s.len() > 0 {
        let rest = s.drop_last();
        assert forall|i: int, j: int| 0 <= i < j < rest.len() implies (#[trigger] rest[i]).tag != (
        #[trigger] rest[j]).tag by {
            assert(rest[i] == s[i] && rest[j] == s[j]);
        }
        lemma_filter_tags(rest, pred);
        let before = rest.filter(pred);
        let found = s.filter(pred);
        assert forall|i: int| 0 <= i < found.len() implies exists|k: int|
            0 <= k < s.len() && s[k] == #[trigger] found[i] by {
            if i < before.len() {
                assert(found[i] == before[i]);
                let k = choose|k: int| 0 <= k < rest.len() && rest[k] == before[i];
                assert(s[k] == found[i]);
            } else {
                assert(s[s.len() - 1] == found[i]);
            }
        }
        assert forall|i: int, j: int| 0 <= i < j < found.len() implies (#[trigger] found[i]).tag
            != (#[trigger] found[j]).tag by {
            assert(found[i] == before[i]);
            if j < before.len() {
                assert(found[j] == before[j]);
            } else {
                let k = choose|k: int| 0 <= k < rest.len() && rest[k] == before[i];
                assert(s[k].tag != s[s.len() - 1].tag);
            }
        }
    }
}

proof fn lemma_permutation_tags(a: Seq<CatalogEntryView>, b: Seq<CatalogEntryView>)
    requires
        tags_differ(a),
        a.to_multiset() == b.to_multiset(),
    ensures
        tags_differ(b),
{
    assert(a.no_duplicates()) by {
        assert forall|i: int, j: int| 0 <= i < a.len() && 0 <= j < a.len() && i != j implies a[i]
            != a[j] by {
            if i < j {
                assert(a[i].tag != a[j].tag);
            } else {
                assert(a[j].tag != a[i].tag);
            }
        }
    }
    a.lemma_multiset_has_no_duplicates();
    b.lemma_multiset_has_no_duplicates_conv();
    assert forall|i: int, j: int| 0 <= i < j < b.len() implies (#[trigger] b[i]).tag != (
    #[trigger] b[j]).tag by {
        let k = lemma_member_of_permutation(b, a, i);
        let l = lemma_member_of_permutation(b, a, j);
        assert(b[i] != b[j]);
        if k < l {
            assert(a[k].tag != a[l].tag);
        } else {
            assert(a[l].tag != a[k].tag);
        }
    }
}

/// No model is recommended twice.
pub proof fn law_no_model_is_recommended_twice(profile: HardwareProfileView, limit: usize)
    ensures
        tags_differ(recommended(profile, limit)),
{
    let pred = |e: CatalogEntryView| fits(profile, e);
    let chosen = catalog().filter(pred);
    let fit = fitting(profile, catalog());
    let sorted = lightest_first(fit);
    let worth = worthwhile(profile);
    let all = spread(worth);
    law_catalog_tags_differ();
    lemma_filter_tags(catalog(), pred);
    assert forall|i: int, j: int| 0 <= i < j < fit.len() implies (#[trigger] fit[i]).tag != (
    #[trigger] fit[j]).tag by {
        assert(chosen[i].tag != chosen[j].tag);
    }
    law_lightest_first(fit);
    lemma_permutation_tags(fit, sorted);
    assert forall|i: int, j: int| 0 <= i < j < worth.len() implies (#[trigger] worth[i]).tag != (
    #[trigger] worth[j]).tag by {
        assert(worth[i] == sorted[i] && worth[j] == sorted[j]);
    }
    law_spread_keeps_all(worth);
    lemma_permutation_tags(worth, all);
    let r = recommended(profile, limit);
    assert forall|i: int, j: int| 0 <= i < j < r.len() implies (#[trigger] r[i]).tag != (
    #[trigger] r[j]).tag by {
        assert(r[i] == all[i] && r[j] == all[j]);
    }
}

/// Seven tenths of the memory are for models, and a model that is loaded occupies
/// its size and six tenths more, each up to the rounding.
pub proof fn law_shares_of_memory(total_ram_gb: u128, size_gb: u128)
    ensures
        10 * budget_of(total_ram_gb) <= 7 * total_ram_gb < 10 * budget_of(total_ram_gb) + 10,
        10 * resident(size_gb) <= 16 * size_gb < 10 * resident(size_gb) + 10,
{
}

/// A speed is expected exactly where one was measured and no video memory is in
/// play, and it is what was measured over what the model reads per token.
pub proof fn law_speeds_follow_from_the_measurement(
    profile: HardwareProfileView,
    active_size_gb: u128,
    tokens: int,
)
    ensures
        estimate(profile, active_size_gb) is Some <==> !profile.accelerated && active_size_gb > 0
            && profile.observed_gb_per_sec is Some,
        estimate(profile, active_size_gb) matches Some(speed) ==> {
            &&& Some(speed.throughput) == profile.observed_gb_per_sec
            &&& speed.active_size_gb == active_size_gb
            &&& speed.reaches(tokens) <==> speed.throughput * 100 >= tokens * active_size_gb
                * 72_057_594_037_927_936
        },
{
}

/// Whether `shown` is the model `offered` as it is listed, in everything but the
/// speed that is expected of it.
pub open spec fn is_listed_as(shown: CatalogEntryView, offered: CatalogEntryView) -> bool {
    &&& shown.tag == offered.tag
    &&& shown.origin == offered.origin
    &&& shown.label == offered.label
    &&& shown.size_gb == offered.size_gb
    &&& shown.active_size_gb == offered.active_size_gb
    &&& shown.role == offered.role
    &&& shown.description == offered.description
}

/// Every recommendation is a model on offer, as it is listed in everything but the
/// speed expected of it, and it is the model's full size, with six tenths more,
/// that fits in seven tenths of the memory.
pub proof fn law_recommendations_are_shown_as_listed(
    profile: HardwareProfileView,
    limit: usize,
    k: int,
)
    requires
        0 <= k < recommended(profile, limit).len(),
    ensures
        exists|i: int|
            0 <= i < catalog().len() && is_listed_as(
                recommended(profile, limit)[k],
                #[trigger] catalog()[i],
            ) && catalog()[i].size_gb * 16 / 10 <= profile.total_ram_gb * 7 / 10,
        recommended(profile, limit)[k].size_gb * 16 / 10 <= profile.total_ram_gb * 7 / 10,
        recommended(profile, limit)[k].est_tokens_per_sec == estimate(
            profile,
            recommended(profile, limit)[k].active_size_gb,
        ),
{
    law_recommendations_fit(profile, limit);
    let shown = recommended(profile, limit)[k];
    assert(runnable(profile, catalog(), shown));
    let i = choose|i: int|
        0 <= i < catalog().len() && fits(profile, #[trigger] catalog()[i]) && shown == estimated(
            profile,
            catalog()[i],
        );
    assert(is_listed_as(shown, catalog()[i]));
}

/// Whether a model of which nothing speaks against it is fast enough: at five
/// tokens a second or more, or where no speed is known.
pub open spec fn is_fast_enough(profile: HardwareProfileView, active_size_gb: u128) -> bool {
    profile.accelerated || active_size_gb == 0 || match profile.observed_gb_per_sec {
        Some(throughput) => throughput * 100 >= 5 * active_size_gb * 72_057_594_037_927_936,
        None => true,
    }
}

/// Nothing that the machine can run is held back: a model that fits and is fast
/// enough is recommended, unless the limit is reached.
pub proof fn law_whatever_runs_is_recommended(profile: HardwareProfileView, limit: usize, i: int)
    requires
        0 <= i < catalog().len(),
        catalog()[i].size_gb * 16 / 10 <= profile.total_ram_gb * 7 / 10,
        is_fast_enough(profile, catalog()[i].active_size_gb),
        recommended(profile, limit).len() < limit,
    ensures
        exists|k: int|
            0 <= k < recommended(profile, limit).len() && is_listed_as(
                #[trigger] recommended(profile, limit)[k],
                catalog()[i],
            ),
{
    let pred = |e: CatalogEntryView| fits(profile, e);
    let with = |e: CatalogEntryView| estimated(profile, e);
    let chosen = catalog().filter(pred);
    let fit = fitting(profile, catalog());
    let sorted = lightest_first(fit);
    let worth = worthwhile(profile);
    let shown = estimated(profile, catalog()[i]);
    assert(pred(catalog()[i]));
    catalog().lemma_filter_contains(pred, i);
    let a = chosen.index_of(catalog()[i]);
    assert(fit[a] == shown);
    law_lightest_first(fit);
    let b = lemma_member_of_permutation(fit, sorted, a);
    law_speed_trims_the_slow_end(profile);
    assert(usable(shown));
    if b >= worth.len() {
        assert(!usable(sorted[b]));
    }
    assert(worth[b] == shown);
    law_spread_keeps_all(worth);
    let k = lemma_member_of_permutation(worth, spread(worth), b);
    assert(recommended(profile, limit)[k] == shown);
}

/// However slow the machine, the three lightest models that fit are worth offering,
/// or all where there are fewer; a model that is too slow is offered among those
/// alone.
pub proof fn law_slow_models_only_fill_up(profile: HardwareProfileView, limit: usize, k: int)
    requires
        0 <= k < recommended(profile, limit).len(),
    ensures
        worthwhile(profile).len() >= 3 || worthwhile(profile).len() == fitting(
            profile,
            catalog(),
        ).len(),
        !is_fast_enough(profile, recommended(profile, limit)[k].active_size_gb) ==> worthwhile(
            profile,
        ).len() <= 3 && recommended(profile, limit).len() <= 3,
{
    let fit = fitting(profile, catalog());
    let sorted = lightest_first(fit);
    let worth = worthwhile(profile);
    let slow = recommended(profile, limit)[k];
    law_never_an_empty_list(profile, limit);
    law_recommendations_fit(profile, limit);
    law_lightest_first(fit);
    law_spread_keeps_all(worth);
    law_speed_trims_the_slow_end(profile);
    assert(runnable(profile, catalog(), slow));
    let a = lemma_member_of_permutation(spread(worth), worth, k);
    if !is_fast_enough(profile, slow.active_size_gb) && worth.len() > 3 {
        lemma_fitting(profile, catalog());
        assert(!usable(worth[a]));
        assert(usable(worth[3]));
        assert(a < 3);
        assert(worth[3] == sorted[3] && worth[a] == sorted[a]);
        let b = lemma_member_of_permutation(sorted, fit, 3);
        assert(runnable(profile, catalog(), fit[b]));
        lemma_lighter_is_faster(profile, worth[a].active_size_gb, worth[3].active_size_gb);
        assert(false);
    }
}

/// The first recommendation is the lightest of all, and the vendors come in the
/// order of their lightest models.
pub proof fn law_the_lightest_comes_first(profile: HardwareProfileView, limit: usize)
    ensures
        forall|i: int, j: int|
            0 <= i <= j < recommended(profile, limit).len() && j < vendors(
                worthwhile(profile),
            ).len() ==> (#[trigger] recommended(profile, limit)[i]).active_size_gb <= (
            #[trigger] recommended(profile, limit)[j]).active_size_gb,
        forall|k: int|
            0 <= k < recommended(profile, limit).len() ==> recommended(
                profile,
                limit,
            )[0].active_size_gb <= (#[trigger] recommended(profile, limit)[k]).active_size_gb,
{
    let sorted = lightest_first(fitting(profile, catalog()));
    let worth = worthwhile(profile);
    law_lightest_first(fitting(profile, catalog()));
    assert(by_weight(worth)) by {
        assert forall|i: int, j: int| 0 <= i <= j < worth.len() implies (
        #[trigger] worth[i]).active_size_gb <= (#[trigger] worth[j]).active_size_gb by {
            assert(worth[i] == sorted[i] && worth[j] == sorted[j]);
        }
    }
    law_lighter_vendors_come_first(worth);
    law_every_vendor_gets_a_turn(worth);
    law_spread_keeps_all(worth);
    law_vendors_lead_with_their_lightest(worth);
    let all = spread(worth);
    let r = recommended(profile, limit);
    assert forall|i: int, j: int|
        0 <= i <= j < r.len() && j < vendors(worth).len() implies (
    #[trigger] r[i]).active_size_gb <= (#[trigger] r[j]).active_size_gb by {
        assert(r[i] == all[i] && r[j] == all[j]);
    }
    assert forall|k: int| 0 <= k < r.len() implies r[0].active_size_gb <= (
    #[trigger] r[k]).active_size_gb by {
        let a = lemma_member_of_permutation(all, worth, k);
        let g = vendors(worth).index_of(all[k].origin);
        assert(vendors(worth).contains(worth[a].origin));
        assert(all[g].origin == all[k].origin);
        assert(all[0].active_size_gb <= all[g].active_size_gb);
        if g <= k {
            assert(all[g].active_size_gb <= all[k].active_size_gb);
        } else {
            assert(all[k].origin == vendors(worth)[k]);
            assert(all[0].active_size_gb <= all[k].active_size_gb);
        }
    }
}

/// Every model on offer has the size of its published file, here in tenths of a
/// gigabyte, and reads all of it per token unless it is a mixture of experts,
/// which reads a part.
pub proof fn law_only_mixtures_read_less_than_their_size(i: int)
    requires
        0 <= i < catalog().len(),
    ensures
        0 < catalog()[i].active_size_gb <= catalog()[i].size_gb,
        catalog()[i].est_tokens_per_sec is None,
        catalog()[i].active_size_gb < catalog()[i].size_gb ==> catalog()[i].tag
            == "qwen3.6:35b-a3b"@ || catalog()[i].tag == "qwen3-coder:30b"@ || catalog()[i].tag
            == "deepseek-coder-v2:16b"@ || catalog()[i].tag == "gpt-oss:20b"@,
        catalog()[i].size_gb == seq![
            66int, 23int, 230int, 190int, 33int, 81int, 170int, 130int, 71int, 49int,
            20int, 430int, 52int, 200int, 83int, 91int, 23int, 130int, 46int,
        ][i] * 107_374_182_400 / 10,
{
    let all = catalog();
    assert(all.len() == 19);
}

/// The machine is described as the system reports it, so that seven tenths of its
/// bytes are for models.
pub proof fn law_the_machine_is_described_as_reported(
    os: Seq<char>,
    total_ram_bytes: u64,
    logical_cores: Option<usize>,
    accelerated: bool,
    observed_gb_per_sec: Option<int>,
)
    ensures
        ({
            let profile = profile_of(
                os,
                total_ram_bytes,
                logical_cores,
                accelerated,
                observed_gb_per_sec,
            );
            &&& profile.os == os
            &&& profile.accelerated == accelerated
            &&& profile.observed_gb_per_sec == observed_gb_per_sec
            &&& logical_cores matches Some(cores) ==> profile.logical_cores == cores
            &&& logical_cores is None ==> profile.logical_cores == 1
            &&& budget_of(profile.total_ram_gb) == 70 * total_ram_bytes
        }),
{
}

} // verus!
