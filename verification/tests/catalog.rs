use local_agents_ops::catalog::{
    detect_hardware, estimate_tokens_per_sec, full_catalog, ram_budget_gb, recommend, resident_gb,
    CatalogEntry, HardwareProfile, GB, MIN_RECOMMENDATIONS,
};
use local_agents_ops::selection::{sort_by_weight, spread_over_vendors, trim_slow};
use local_agents_ops::throughput::{
    is_usable, Speed, Throughput, BYTE_PER_SEC, GB_PER_SEC, MIN_USABLE_TOKENS_PER_SEC,
};

/// Measured on the reference machine, in gigabytes per second.
const REFERENCE_GB_PER_SEC: f64 = 36.4;

fn gb(amount: f64) -> u128 {
    (amount * 10.0).round() as u128 * GB / 10
}

fn throughput(gb_per_sec: f64) -> Throughput {
    Throughput::from_units((gb_per_sec * GB_PER_SEC as f64) as u128)
}

fn tokens(speed: Speed) -> f64 {
    let (whole, part) = speed.throughput.words();
    let gb_per_sec = whole as f64 + part as f64 / GB_PER_SEC as f64;
    gb_per_sec / (speed.active_size_gb as f64 / GB as f64)
}

/// The reference machine: 4 cores / 8 threads, 32GB, no GPU offload.
fn cpu_only_laptop() -> HardwareProfile {
    HardwareProfile {
        os: "windows".to_string(),
        total_ram_gb: gb(31.7),
        logical_cores: 8,
        accelerated: false,
        observed_gb_per_sec: Some(throughput(REFERENCE_GB_PER_SEC)),
    }
}

fn uncalibrated() -> HardwareProfile {
    HardwareProfile {
        observed_gb_per_sec: None,
        ..cpu_only_laptop()
    }
}

fn tags(picks: &[CatalogEntry]) -> Vec<&str> {
    picks.iter().map(|e| e.tag.as_str()).collect()
}

#[test]
fn makes_no_speed_claim_before_it_has_measured_anything() {
    let picks = recommend(&uncalibrated(), 20);
    assert!(!picks.is_empty());
    assert!(picks.iter().all(|e| e.est_tokens_per_sec.is_none()));
    // No estimate means no speed gate: anything that fits stays on offer.
    assert!(picks.iter().any(|e| e.tag == "mistral-small:22b"));
}

#[test]
fn never_returns_an_empty_catalog_however_slow_the_machine_looks() {
    let crawling = HardwareProfile {
        observed_gb_per_sec: Some(throughput(0.5)),
        ..cpu_only_laptop()
    };
    let picks = recommend(&crawling, 20);
    assert!(picks.len() >= MIN_RECOMMENDATIONS, "got {} picks", picks.len());
    // And what survives is the fast end of the list, not an arbitrary slice.
    assert!(picks.iter().any(|e| e.tag == "llama3.2:3b"));
}

#[test]
fn recommends_the_fastest_model_of_each_vendor_first() {
    let picks = recommend(&cpu_only_laptop(), 10);
    assert!(!picks.is_empty());

    let mut seen: Vec<&str> = Vec::new();
    for entry in &picks {
        if seen.contains(&entry.origin.as_str()) {
            continue;
        }
        seen.push(&entry.origin);
        let vendor_min = picks
            .iter()
            .filter(|e| e.origin == entry.origin)
            .map(|e| e.active_size_gb)
            .min()
            .unwrap();
        assert_eq!(
            entry.active_size_gb, vendor_min,
            "{} led with {}, not its lightest",
            entry.origin, entry.label
        );
    }
}

#[test]
fn drops_models_too_slow_to_use_even_when_they_fit_in_ram() {
    let profile = cpu_only_laptop();
    let picks = recommend(&profile, 20);

    assert!(
        !picks.iter().any(|e| e.tag == "mistral-small:22b"),
        "13GB dense model should be filtered out on a CPU-only machine"
    );
    assert!(picks.iter().any(|e| e.tag == "llama3.2:3b"));

    for entry in &picks {
        let est = entry
            .est_tokens_per_sec
            .expect("estimate on a calibrated CPU machine");
        assert!(is_usable(&est));
        assert!(tokens(est) >= MIN_USABLE_TOKENS_PER_SEC as f64, "{} too slow", entry.label);
        assert!(resident_gb(entry.size_gb) <= ram_budget_gb(&profile));
    }
}

#[test]
fn offers_a_code_model_this_machine_can_run() {
    let picks = recommend(&cpu_only_laptop(), 12);
    assert!(
        picks.iter().any(|e| e.role == "code"),
        "no code model survived the gates: {:?}",
        picks.iter().map(|e| &e.tag).collect::<Vec<_>>()
    );
}

#[test]
fn judges_moe_models_by_active_size_not_total() {
    let profile = cpu_only_laptop();
    let dense = tokens(estimate_tokens_per_sec(&profile, gb(13.0)).unwrap());
    let moe = tokens(estimate_tokens_per_sec(&profile, gb(3.6)).unwrap());
    assert!(moe > dense * 3.0);
    assert!(recommend(&profile, 20).iter().any(|e| e.tag == "gpt-oss:20b"));
}

#[test]
fn skips_the_speed_gate_when_a_gpu_is_doing_the_work() {
    let mut profile = cpu_only_laptop();
    profile.accelerated = true;
    let picks = recommend(&profile, 20);
    assert!(picks.iter().any(|e| e.tag == "mistral-small:22b"));
    assert!(picks.iter().all(|e| e.est_tokens_per_sec.is_none()));
}

#[test]
fn never_recommends_a_model_that_cannot_fit() {
    let profile = cpu_only_laptop();
    let picks = recommend(&profile, 20);
    // 43GB of weights cannot fit 31.7GB of RAM under any speed rule.
    assert!(!picks.iter().any(|e| e.tag == "llama3.3:70b"));
}

#[test]
fn the_reference_machine_gets_this_list() {
    let picks = recommend(&cpu_only_laptop(), 20);
    assert_eq!(
        tags(&picks),
        vec![
            // One of each vendor, lightest first.
            "deepseek-coder-v2:16b",
            "llama3.2:3b",
            "qwen3:4b",
            "phi4-mini",
            "gemma3:4b",
            "gpt-oss:20b",
            "granite3.3:8b",
            "mistral-nemo",
            // Second of those that have one, then third.
            "deepseek-r1:8b",
            "llama3.1:8b",
            "qwen3.5:9b",
        ]
    );
}

#[test]
fn the_limit_is_kept_to_the_letter() {
    let profile = cpu_only_laptop();
    assert_eq!(recommend(&profile, 0).len(), 0);
    assert_eq!(tags(&recommend(&profile, 1)), vec!["deepseek-coder-v2:16b"]);
    assert_eq!(recommend(&profile, 8).len(), 8);
    assert_eq!(recommend(&profile, usize::MAX).len(), 11);
}

#[test]
fn a_crawling_machine_gets_the_three_lightest_that_fit() {
    let crawling = HardwareProfile {
        observed_gb_per_sec: Some(Throughput::from_units(1)),
        ..cpu_only_laptop()
    };
    assert_eq!(
        tags(&recommend(&crawling, 20)),
        vec!["deepseek-coder-v2:16b", "llama3.2:3b", "qwen3:4b"]
    );
}

#[test]
fn a_machine_without_memory_gets_nothing() {
    let empty = HardwareProfile {
        total_ram_gb: 0,
        ..uncalibrated()
    };
    assert!(recommend(&empty, 10).is_empty());
    let huge = HardwareProfile {
        total_ram_gb: u128::MAX,
        ..uncalibrated()
    };
    assert_eq!(recommend(&huge, 100).len(), full_catalog().len());
}

#[test]
fn memory_decides_at_the_boundary() {
    // A 4.9GB model occupies 7.84GB, which is seven tenths of 11.2GB.
    let just = HardwareProfile {
        total_ram_gb: gb(11.2),
        ..uncalibrated()
    };
    assert_eq!(ram_budget_gb(&just), 784 * GB / 100);
    assert_eq!(resident_gb(gb(4.9)), 784 * GB / 100);
    assert!(tags(&recommend(&just, 20)).contains(&"llama3.1:8b"));
    let short = HardwareProfile {
        total_ram_gb: gb(11.2) - 1,
        ..uncalibrated()
    };
    assert!(!tags(&recommend(&short, 20)).contains(&"llama3.1:8b"));
}

#[test]
fn speed_decides_at_the_boundary() {
    let active = gb(2.0);
    // Five tokens a second of two gigabytes each.
    let just = 10 * 1024 * 1024 * 1024 * BYTE_PER_SEC;
    let at = |units: u128| {
        let profile = HardwareProfile {
            observed_gb_per_sec: Some(Throughput::from_units(units)),
            ..cpu_only_laptop()
        };
        estimate_tokens_per_sec(&profile, active).unwrap()
    };
    assert_eq!(tokens(at(just)), 5.0);
    assert!(is_usable(&at(just)));
    assert!(!is_usable(&at(just - 1)));
    assert_eq!(tokens(at((36.4 * GB_PER_SEC as f64) as u128)), 36.4 / 2.0);
    assert_eq!(tokens(at(0)), 0.0);
    assert!(is_usable(&at(u128::MAX)));
    let fast = Throughput::from_units(u128::MAX);
    assert!(!is_usable(&Speed { throughput: fast, active_size_gb: u128::MAX }));
}

#[test]
fn slow_models_can_be_told_apart() {
    let slow = HardwareProfile {
        observed_gb_per_sec: Some(Throughput::from_units(10_737_418 * BYTE_PER_SEC)),
        ..cpu_only_laptop()
    };
    let a = tokens(estimate_tokens_per_sec(&slow, gb(6.6)).unwrap());
    let b = tokens(estimate_tokens_per_sec(&slow, gb(7.1)).unwrap());
    assert_eq!(a, 10_737_418.0 / 1024f64.powi(3) / 6.6);
    assert!(b < a);
}

#[test]
fn there_is_no_estimate_without_a_basis() {
    let profile = cpu_only_laptop();
    assert_eq!(estimate_tokens_per_sec(&profile, 0), None);
    assert_eq!(estimate_tokens_per_sec(&uncalibrated(), GB), None);
    let accelerated = HardwareProfile {
        accelerated: true,
        ..cpu_only_laptop()
    };
    assert_eq!(estimate_tokens_per_sec(&accelerated, GB), None);
}

#[test]
fn amounts_round_down() {
    let of = |total: u128| {
        ram_budget_gb(&HardwareProfile {
            total_ram_gb: total,
            ..uncalibrated()
        })
    };
    assert_eq!(of(0), 0);
    assert_eq!(of(1), 0);
    assert_eq!(of(13), 9);
    assert_eq!(of(u128::MAX), u128::MAX / 10 * 7 + 3);
    assert_eq!(resident_gb(0), 0);
    assert_eq!(resident_gb(3), 4);
    assert_eq!(resident_gb(gb(2.0)), 32 * GB / 10);
}

#[test]
fn hardware_is_reported_as_found() {
    let profile = detect_hardware("macos", 16 * 1024 * 1024 * 1024, Some(10), true, Some(throughput(7.0)));
    assert_eq!(profile.os, "macos");
    assert_eq!(profile.total_ram_gb, 16 * GB);
    assert_eq!(profile.logical_cores, 10);
    assert!(profile.accelerated);
    assert_eq!(profile.observed_gb_per_sec, Some(throughput(7.0)));
    // A system that does not tell counts as having one core.
    assert_eq!(detect_hardware("linux", 0, None, false, None).logical_cores, 1);
}

#[test]
fn the_catalog_lists_every_model_once() {
    let all = full_catalog();
    assert_eq!(all.len(), 19);
    for (i, entry) in all.iter().enumerate() {
        assert!(all[..i].iter().all(|e| e.tag != entry.tag));
        assert!(entry.active_size_gb <= entry.size_gb);
        assert_eq!(entry.est_tokens_per_sec, None);
    }
    let coder = all.iter().find(|e| e.tag == "deepseek-coder-v2:16b").unwrap();
    assert_eq!(coder.origin, "DeepSeek");
    assert_eq!(coder.label, "DeepSeek-Coder-V2 16B");
    assert_eq!(coder.size_gb, gb(8.3));
    assert_eq!(coder.active_size_gb, gb(1.3));
    assert_eq!(coder.role, "code");
    assert_eq!(coder.description, "コード特化のMoE・CPUでも高速");
}

fn made(tag: &str, origin: &str, active: u128, est: Option<Speed>) -> CatalogEntry {
    CatalogEntry {
        tag: tag.to_string(),
        origin: origin.to_string(),
        label: String::new(),
        size_gb: active,
        active_size_gb: active,
        role: String::new(),
        description: String::new(),
        est_tokens_per_sec: est,
    }
}

#[test]
fn sorting_keeps_the_order_of_equals() {
    let entries = vec![
        made("a", "x", 3, None),
        made("b", "x", 1, None),
        made("c", "x", 3, None),
        made("d", "x", 1, None),
        made("e", "x", 2, None),
    ];
    assert_eq!(tags(&sort_by_weight(&entries)), vec!["b", "d", "e", "a", "c"]);
    assert!(sort_by_weight(&Vec::new()).is_empty());
}

#[test]
fn the_slow_end_is_trimmed_down_to_three() {
    let of = |fast: usize, all: usize| {
        let entries: Vec<CatalogEntry> = (0..all)
            .map(|i| {
                let read = if i < fast { GB } else { GB + 1 };
                let throughput = Throughput::from_units(5 * GB_PER_SEC);
                made("m", "x", i as u128, Some(Speed { throughput, active_size_gb: read }))
            })
            .collect();
        trim_slow(entries).len()
    };
    assert_eq!(of(5, 7), 5);
    assert_eq!(of(3, 7), 3);
    assert_eq!(of(1, 7), 3);
    assert_eq!(of(0, 2), 2);
    assert_eq!(of(0, 0), 0);
}

#[test]
fn a_selection_takes_one_of_each_vendor_in_turn() {
    let entries = vec![
        made("a1", "a", 1, None),
        made("a2", "a", 2, None),
        made("b1", "b", 3, None),
        made("a3", "a", 4, None),
        made("c1", "c", 5, None),
        made("c2", "c", 6, None),
    ];
    assert_eq!(
        tags(&spread_over_vendors(&entries)),
        vec!["a1", "b1", "c1", "a2", "c2", "a3"]
    );
    assert!(spread_over_vendors(&Vec::new()).is_empty());
}

#[test]
fn no_vendor_is_two_ahead_of_one_that_has_more() {
    let profile = uncalibrated();
    let all = recommend(&profile, 100);
    let count = |picks: &[CatalogEntry], origin: &str| {
        picks.iter().filter(|e| e.origin == origin).count()
    };
    for limit in 0..=all.len() {
        let picks = recommend(&profile, limit);
        for a in &all {
            for b in &all {
                let behind = count(&picks, &b.origin);
                assert!(
                    count(&picks, &a.origin) <= behind + 1 || behind == count(&all, &b.origin)
                );
            }
        }
    }
}

#[test]
fn no_model_is_recommended_twice() {
    let picks = recommend(&uncalibrated(), 100);
    for (i, entry) in picks.iter().enumerate() {
        assert!(picks[..i].iter().all(|e| e.tag != entry.tag));
    }
}
