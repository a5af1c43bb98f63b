use local_agents_ops::catalog::{resident_gb, HardwareProfile, GB};
use local_agents_ops::commands::{
    announce_wait, chat_ended, chat_options, list_providers, ollama_version, permits_for_size_gb,
    recommend_models, send_chat, send_with_key, update_ollama, AppState, ChatEnd, EngineVersion,
    SendStep, Target, PERMITS_PER_GB,
};
use local_agents_ops::engines::anthropic::Assistant;
use local_agents_ops::engines::{ChatStreamEvent, EngineError};
use local_agents_ops::updater::PackageManager;

/// The reference machine's budget: 31.7GB installed, 70% of it.
const REFERENCE_BUDGET_GB: f64 = 22.2;
/// The size on disk of the model that these tests reserve for.
const TEST_MODEL_GB: f64 = 2.0;

fn gb(amount: f64) -> u128 {
    (amount * 10.0).round() as u128 * GB / 10
}

fn bytes(amount: f64) -> u64 {
    (amount * 1024f64.powi(3)) as u64
}

fn assistant() -> Assistant {
    Assistant { name: "Assistant".to_string(), model: "model-1".to_string() }
}

fn state_with_budget(budget_gb: f64) -> AppState {
    AppState::new(gb(budget_gb))
}

#[test]
fn a_models_reservation_tracks_its_expected_footprint() {
    let total = (REFERENCE_BUDGET_GB * PERMITS_PER_GB as f64) as u32;
    let small = permits_for_size_gb(gb(TEST_MODEL_GB), total);
    let large = permits_for_size_gb(gb(8.0), total);
    assert!(small < large);
    // 8GB on disk is ~12.8GB resident, i.e. over half of a 22.2GB budget.
    assert!(large as f64 > total as f64 * 0.5);
}

#[test]
fn a_model_larger_than_the_budget_still_fits_exactly_once() {
    let total = (2.0 * PERMITS_PER_GB as f64) as u32;
    assert_eq!(permits_for_size_gb(gb(500.0), total), total);
}

#[test]
fn every_request_reserves_at_least_something() {
    let total = (REFERENCE_BUDGET_GB * PERMITS_PER_GB as f64) as u32;
    assert_eq!(permits_for_size_gb(gb(0.0), total), 1);
}

#[test]
fn a_budget_too_small_to_measure_still_admits_one_request() {
    assert_eq!(state_with_budget(0.0).total_local_permits, 1);
}

#[test]
fn serialising_makes_one_request_consume_the_whole_budget() {
    let mut state = state_with_budget(REFERENCE_BUDGET_GB);
    let total = state.total_local_permits as usize;
    let size = Some(bytes(TEST_MODEL_GB));
    let (parallel_share, _) = state.plan_reservation(size, total);
    assert!(
        parallel_share < state.total_local_permits,
        "a small model should leave room for others by default"
    );

    state.set_serialize_local(true);
    let (whole_budget, _) = state.plan_reservation(size, total);
    assert_eq!(whole_budget, state.total_local_permits);

    let (_, immediate) = state.plan_reservation(size, total - whole_budget as usize);
    assert!(!immediate, "a second request must wait while serialising");

    state.set_serialize_local(false);
    assert_eq!(state.permits_for(size), parallel_share);
}

#[test]
fn queues_a_second_model_when_the_budget_is_already_committed() {
    let state = AppState::new(resident_gb(gb(TEST_MODEL_GB)));
    let total = state.total_local_permits as usize;
    let size = Some(bytes(TEST_MODEL_GB));

    let (needed, immediate) = state.plan_reservation(size, total);
    assert!(immediate, "the first request should not have to wait");
    assert!(needed > 1, "expected a real reservation, got {needed}");

    let (_, immediate_again) = state.plan_reservation(size, total - needed as usize);
    assert!(!immediate_again, "second request should have to queue");

    // Once the first one has finished, the second gets through.
    let (_, after) = state.plan_reservation(size, total);
    assert!(after);
}

#[test]
fn an_update_can_tell_when_local_work_is_in_flight() {
    let state = state_with_budget(REFERENCE_BUDGET_GB);
    let total = state.total_local_permits as usize;
    assert_eq!(state.check_idle(total), Ok(()));

    let (needed, _) = state.plan_reservation(Some(bytes(TEST_MODEL_GB)), total);
    assert_eq!(
        state.check_idle(total - needed as usize),
        Err("ローカルモデルの実行中です。完了するか中断してから更新してください。".to_string())
    );
}

#[test]
fn a_committed_budget_does_not_hold_up_online_providers() {
    let state = AppState::new(resident_gb(gb(TEST_MODEL_GB)));
    let total = state.total_local_permits as usize;
    let (needed, _) = state.plan_reservation(Some(bytes(TEST_MODEL_GB)), total);
    assert_eq!(total - needed as usize, 0);

    // Only the local engine reserves; nothing on the online path asks the
    // budget.
    assert!(matches!(send_chat("ollama"), SendStep::Reserve));
    for provider in list_providers(&assistant(), &[]) {
        assert!(matches!(send_chat(&provider.id), SendStep::LookUpKey));
    }
}

#[test]
fn permits_are_exact() {
    // 22.2GB hold 177.6 permits; 2GB of weights occupy 3.2GB, which take 25.6.
    assert_eq!(state_with_budget(REFERENCE_BUDGET_GB).total_local_permits, 177);
    assert_eq!(permits_for_size_gb(gb(2.0), 177), 26);
    assert_eq!(permits_for_size_gb(gb(8.0), 177), 103);
    // 2.5GB of weights occupy 4GB: exactly 32 permits, and one more byte takes
    // the next.
    assert_eq!(permits_for_size_gb(gb(2.5), 177), 32);
    assert_eq!(permits_for_size_gb(gb(2.5) + 100, 177), 33);
    assert_eq!(permits_for_size_gb(1, 177), 1);
    assert_eq!(permits_for_size_gb(u128::MAX, 177), 177);
    assert_eq!(permits_for_size_gb(u128::MAX / 16, u32::MAX), u32::MAX);
    assert_eq!(permits_for_size_gb(u128::MAX / 16 + 1, u32::MAX), u32::MAX);
    assert_eq!(AppState::new(GB / 8).total_local_permits, 1);
    assert_eq!(AppState::new(GB / 4 - 1).total_local_permits, 1);
    assert_eq!(AppState::new(GB / 4).total_local_permits, 2);
    assert_eq!(AppState::new(u128::MAX).total_local_permits, u32::MAX);
}

#[test]
fn a_model_of_unknown_size_reserves_one_permit() {
    let state = state_with_budget(REFERENCE_BUDGET_GB);
    assert_eq!(state.permits_for(None), 1);
    assert_eq!(state.plan_reservation(None, 1), (1, true));
    assert_eq!(state.plan_reservation(None, 0), (1, false));
    assert_eq!(state.permits_for(Some(u64::MAX)), 177);
}

#[test]
fn models_that_hold_reservations_together_fit_the_budget() {
    let budget = gb(REFERENCE_BUDGET_GB);
    let state = AppState::new(budget);
    let mut free = state.total_local_permits;
    let mut occupied = 0;
    for size in [2.0, 4.9, 3.3, 2.3, 6.6, 8.1] {
        let needed = state.permits_for(Some(bytes(size)));
        if needed <= free {
            free -= needed;
            occupied += resident_gb(bytes(size) as u128 * 100);
        }
    }
    assert!(occupied > 0);
    assert!(occupied <= budget);
}

#[test]
fn an_update_needs_a_package_manager() {
    assert_eq!(update_ollama(Some(PackageManager::Winget)), Ok(PackageManager::Winget));
    assert_eq!(
        update_ollama(None),
        Err("このマシンで自動更新に使えるパッケージマネージャが見つかりませんでした。https://ollama.com/download から手動で更新してください。".to_string())
    );
}

#[test]
fn the_registry_lists_four_providers() {
    let listed = list_providers(&assistant(), &["gemini".to_string(), "xai".to_string()]);
    let seen: Vec<(&str, &str, &str, bool)> = listed
        .iter()
        .map(|p| (p.id.as_str(), p.label.as_str(), p.default_model.as_str(), p.configured))
        .collect();
    assert_eq!(
        seen,
        vec![
            ("anthropic", "Assistant", "model-1", false),
            ("openai", "ChatGPT", "gpt-5.6", false),
            ("gemini", "Gemini", "gemini-3.6-flash", true),
            ("xai", "Grok", "grok-4.3", true),
        ]
    );
}

fn refused(result: Result<Target, String>) -> String {
    match result {
        Err(message) => message,
        Ok(_) => panic!("expected a failure"),
    }
}

#[test]
fn a_missing_key_is_named() {
    assert_eq!(refused(send_with_key("anthropic", None, &assistant())), "Anthropic APIキーが未設定です");
    assert_eq!(refused(send_with_key("openai", None, &assistant())), "OpenAI APIキーが未設定です");
    assert_eq!(refused(send_with_key("xai", None, &assistant())), "xAI APIキーが未設定です");
    assert_eq!(refused(send_with_key("gemini", None, &assistant())), "Gemini APIキーが未設定です");
}

#[test]
fn an_unknown_provider_is_named() {
    assert!(matches!(send_chat("nobody"), SendStep::Fail(m) if m == "unknown provider: nobody"));
    assert!(matches!(send_chat(""), SendStep::Fail(m) if m == "unknown provider: "));
    assert_eq!(
        refused(send_with_key("nobody", Some("k".to_string()), &assistant())),
        "unknown provider: nobody"
    );
}

#[test]
fn a_key_reaches_its_provider() {
    let key = || Some("secret".to_string());
    match send_with_key("anthropic", key(), &assistant()) {
        Ok(Target::Anthropic(backend)) => {
            assert_eq!(backend.api_key, "secret");
            assert_eq!(backend.default_model, "model-1");
        }
        _ => panic!("expected a run"),
    }
    match send_with_key("openai", key(), &assistant()) {
        Ok(Target::OpenAiCompat(backend)) => {
            assert_eq!(backend.base_url, "https://api.openai.com/v1");
            assert_eq!(backend.api_key, "secret");
            assert_eq!(backend.default_model, "gpt-5.6");
        }
        _ => panic!("expected a run"),
    }
    match send_with_key("xai", key(), &assistant()) {
        Ok(Target::OpenAiCompat(backend)) => {
            assert_eq!(backend.base_url, "https://api.x.ai/v1");
            assert_eq!(backend.default_model, "grok-4.3");
        }
        _ => panic!("expected a run"),
    }
    match send_with_key("gemini", key(), &assistant()) {
        Ok(Target::Gemini(backend)) => assert_eq!(backend.api_key, "secret"),
        _ => panic!("expected a run"),
    }
}

#[test]
fn only_a_request_that_waits_is_announced() {
    assert!(announce_wait("r1", true).is_none());
    match announce_wait("r1", false) {
        Some(ChatStreamEvent::Queued { request_id }) => assert_eq!(request_id, "r1"),
        other => panic!("unexpected {other:?}"),
    }
}

#[test]
fn a_chat_thinks_only_when_asked() {
    assert!(chat_options(Some(true)).think);
    assert!(!chat_options(Some(false)).think);
    assert!(!chat_options(None).think);
    assert!(chat_options(None).params.is_empty());
}

#[test]
fn stopping_a_chat_is_no_refused() {
    let (event, outcome) = chat_ended("r1", ChatEnd::Stopped);
    assert!(matches!(event, Some(ChatStreamEvent::Cancelled { request_id }) if request_id == "r1"));
    assert_eq!(outcome, Ok(()));

    let (event, outcome) = chat_ended("r1", ChatEnd::Finished(Ok(())));
    assert!(event.is_none());
    assert_eq!(outcome, Ok(()));

    let (event, outcome) = chat_ended("r1", ChatEnd::Refused("no key".to_string()));
    assert!(event.is_none());
    assert_eq!(outcome, Err("no key".to_string()));

    let error = EngineError::Unreachable("http://x".to_string(), "refused".to_string());
    let (event, outcome) = chat_ended("r1", ChatEnd::Finished(Err(error)));
    assert!(event.is_none());
    assert_eq!(outcome, Err("could not reach engine at http://x: refused".to_string()));
}

fn version(installed: &str, latest: Result<&str, &str>) -> EngineVersion {
    ollama_version(
        Ok(installed.to_string()),
        latest.map(str::to_string).map_err(str::to_string),
        Some(PackageManager::Homebrew),
    )
    .unwrap()
}

#[test]
fn the_engine_version_is_judged() {
    let old = version("0.8.9", Ok("0.32.4"));
    assert_eq!(old.version, "0.8.9");
    assert!(!old.supported);
    assert_eq!(old.minimum, "0.9.0");
    assert_eq!(old.latest.as_deref(), Some("0.32.4"));
    assert!(old.update_available);
    assert_eq!(old.package_manager, Some(PackageManager::Homebrew));
    assert_eq!(old.download_page, "https://ollama.com/download");

    let current = version("0.32.4", Ok("0.32.4"));
    assert!(current.supported);
    assert!(!current.update_available);

    // Newer than the newest release, offline, and a format nobody knows.
    assert!(!version("1.0.0", Ok("0.32.4")).update_available);
    let offline = version("0.9.0", Err("no network"));
    assert!(offline.supported);
    assert_eq!(offline.latest, None);
    assert!(!offline.update_available);
    assert!(version("nightly", Ok("0.32.4")).supported);
    assert!(!version("nightly", Ok("0.32.4")).update_available);
    assert!(!version("0.9.0", Ok("nightly")).update_available);
}

#[test]
fn an_engine_that_does_not_answer_has_no_version() {
    let refused = ollama_version(
        Err(EngineError::Parse("eof".to_string())),
        Ok("0.32.4".to_string()),
        None,
    );
    assert_eq!(
        refused.err(),
        Some("failed to parse engine response: eof".to_string())
    );
}

#[test]
fn ten_models_are_recommended() {
    let profile = HardwareProfile {
        os: "linux".to_string(),
        total_ram_gb: gb(128.0),
        logical_cores: 16,
        accelerated: true,
        observed_gb_per_sec: None,
    };
    assert_eq!(recommend_models(&profile).len(), 10);
}
