use vanguards_rs::config::RendguardConfig;
use vanguards_rs::rendguard::{RendCheckResult, NOT_IN_CONSENSUS_ID};
use vanguards_rs::vanguards::{RendGuard, RendUseCount};

/// A real number in fixed point.
fn fixed(x: f64) -> u64 {
    (x * 1e9).round() as u64
}

/// A fixed-point number as a real.
fn unfixed(x: u128) -> f64 {
    x as f64 / 1e9
}


#[test]
fn rendguard_test_rendguard_new() {
    let rg = RendGuard::new();

    assert!(rg.use_counts.is_empty());
    assert_eq!(rg.total_use_counts, fixed(0.0));
    assert_eq!(rg.pickle_revision, 1);
}

#[test]
fn test_not_in_consensus_tracking() {
    let mut rg = RendGuard::new();
    let config = RendguardConfig::default();

    let fp = "7791CA6B67303ACE46C2B6F5211206B765948147";

    for i in 1..config.use_global_start_count {
        let valid = rg.valid_rend_use(fp, &config);
        assert!(valid, "Use {} should be valid", i);

        assert!(rg.use_counts.contains_key(NOT_IN_CONSENSUS_ID));
        assert_eq!(
            rg.use_counts.get(NOT_IN_CONSENSUS_ID).unwrap().used,
            fixed(i as f64)
        );
    }
}

#[test]
fn test_overuse_detection() {
    let mut rg = RendGuard::new();
    let config = RendguardConfig {
        use_global_start_count: 10,
        use_relay_start_count: 5,
        use_max_use_to_bw_ratio: fixed(5.0),
        ..Default::default()
    };

    let fp = "BC630CBBB518BE7E9F4E09712AB0269E9DC7D626";
    rg.use_counts.insert(
        fp.to_string(),
        RendUseCount {
            idhex: fp.to_string(),
            used: fixed(0.0),
            weight: fixed(0.01),
        },
    );

    for _ in 0..20 {
        rg.valid_rend_use(fp, &config);
    }

    let is_overused = rg.is_overused(fp, &config);
    assert!(is_overused, "Relay should be overused");
}

#[test]
fn test_scale_counts() {
    let mut rg = RendGuard::new();

    rg.use_counts.insert(
        "A".repeat(40),
        RendUseCount {
            idhex: "A".repeat(40),
            used: fixed(100.0),
            weight: fixed(0.5),
        },
    );
    rg.use_counts.insert(
        "B".repeat(40),
        RendUseCount {
            idhex: "B".repeat(40),
            used: fixed(200.0),
            weight: fixed(0.5),
        },
    );
    rg.total_use_counts = fixed(300.0);

    rg.scale_counts();

    assert_eq!(rg.use_counts.get(&"A".repeat(40)).unwrap().used, fixed(50.0));
    assert_eq!(rg.use_counts.get(&"B".repeat(40)).unwrap().used, fixed(100.0));
    assert_eq!(rg.total_use_counts, fixed(150.0));
}

#[test]
fn test_usage_rate() {
    let mut rg = RendGuard::new();
    let fp = "A".repeat(40);

    rg.use_counts.insert(
        fp.clone(),
        RendUseCount {
            idhex: fp.clone(),
            used: fixed(25.0),
            weight: fixed(0.1),
        },
    );
    rg.total_use_counts = fixed(100.0);

    let rate = unfixed(rg.usage_rate(&fp));
    assert!((rate - 25.0).abs() < 0.001);
}

#[test]
fn test_expected_weight() {
    let mut rg = RendGuard::new();
    let fp = "A".repeat(40);

    rg.use_counts.insert(
        fp.clone(),
        RendUseCount {
            idhex: fp.clone(),
            used: fixed(0.0),
            weight: fixed(0.05),
        },
    );

    let weight = unfixed(rg.expected_weight(&fp));
    assert!((weight - 5.0).abs() < 0.001);
}

#[test]
fn test_below_global_start_count_not_overused() {
    let mut rg = RendGuard::new();
    let config = RendguardConfig {
        use_global_start_count: 1000,
        use_relay_start_count: 100,
        ..Default::default()
    };

    let fp = "A".repeat(40);
    rg.use_counts.insert(
        fp.clone(),
        RendUseCount {
            idhex: fp.clone(),
            used: fixed(500.0),
            weight: fixed(0.001),
        },
    );
    rg.total_use_counts = fixed(500.0);

    assert!(!rg.is_overused(&fp, &config));
}

#[test]
fn test_below_relay_start_count_not_overused() {
    let mut rg = RendGuard::new();
    let config = RendguardConfig {
        use_global_start_count: 100,
        use_relay_start_count: 100,
        ..Default::default()
    };

    let fp = "A".repeat(40);
    rg.use_counts.insert(
        fp.clone(),
        RendUseCount {
            idhex: fp.clone(),
            used: fixed(50.0),
            weight: fixed(0.001),
        },
    );
    rg.total_use_counts = fixed(1000.0);

    assert!(!rg.is_overused(&fp, &config));
}

#[test]
fn test_valid_rend_use_increments_counts() {
    let mut rg = RendGuard::new();
    let config = RendguardConfig::default();

    let fp = "A".repeat(40);
    rg.use_counts.insert(
        fp.clone(),
        RendUseCount {
            idhex: fp.clone(),
            used: fixed(0.0),
            weight: fixed(0.1),
        },
    );

    rg.valid_rend_use(&fp, &config);

    assert_eq!(rg.use_counts.get(&fp).unwrap().used, fixed(1.0));
    assert_eq!(rg.total_use_counts, fixed(1.0));
}

#[test]
fn test_rend_use_count_creation() {
    let count = RendUseCount::new("A".repeat(40), fixed(0.05));

    assert_eq!(count.idhex, "A".repeat(40));
    assert_eq!(count.used, fixed(0.0));
    assert!((unfixed(count.weight as u128) - 0.05).abs() < 0.001);
}

#[test]
fn test_rend_check_result_variants() {
    let valid = RendCheckResult::Valid;
    assert_eq!(valid, RendCheckResult::Valid);

    let overused = RendCheckResult::Overused {
        fingerprint: "A".repeat(40),
        usage_rate: fixed(10.0) as u128,
        expected_weight: fixed(1.0) as u128,
    };

    match overused {
        RendCheckResult::Overused {
            fingerprint,
            usage_rate,
            expected_weight,
        } => {
            assert_eq!(fingerprint, "A".repeat(40));
            assert!((unfixed(usage_rate) - 10.0).abs() < 0.001);
            assert!((unfixed(expected_weight) - 1.0).abs() < 0.001);
        }
        _ => panic!("Expected Overused variant"),
    }
}
#[test]
fn rendezvous_overuse_scenario() {
    let mut rg = RendGuard::new();
    let config = RendguardConfig {
        use_global_start_count: 10,
        use_relay_start_count: 5,
        use_max_use_to_bw_ratio: fixed(5.0),
        ..Default::default()
    };
    let fp = "BC630CBBB518BE7E9F4E09712AB0269E9DC7D626";
    rg.use_counts.insert(fp.to_string(), RendUseCount::new(fp.to_string(), fixed(0.01)));
    let verdicts: Vec<bool> = (0..20).map(|_| rg.valid_rend_use(fp, &config)).collect();
    // overuse needs ten uses in all, though five of the relay would do
    assert_eq!(verdicts.iter().filter(|v| **v).count(), 9);
    assert!(verdicts[..9].iter().all(|v| *v));
    assert!(rg.is_overused(fp, &config));
    assert_eq!(rg.total_use_counts, fixed(20.0));
    assert_eq!(rg.usage_rate(fp), 100_000_000_000);
    assert_eq!(rg.expected_weight(fp), 1_000_000_000);
    assert_eq!(rg.usage_rate("unknown"), 0);
    assert_eq!(rg.expected_weight("unknown"), 0);
    assert!(!rg.is_overused("unknown", &config));
}

#[test]
fn overuse_is_strict_at_the_threshold() {
    let config = RendguardConfig {
        use_global_start_count: 1,
        use_relay_start_count: 1,
        use_max_use_to_bw_ratio: fixed(5.0),
        ..Default::default()
    };
    let mut rg = RendGuard::new();
    rg.use_counts.insert("A".to_string(), RendUseCount { idhex: "A".to_string(), used: fixed(5.0), weight: fixed(0.1) });
    rg.total_use_counts = fixed(10.0);
    // 5/10 is exactly 0.1 * 5: not more
    assert!(!rg.is_overused("A", &config));
    rg.total_use_counts = fixed(9.0);
    assert!(rg.is_overused("A", &config));
    // nothing is divided by a total of zero
    rg.total_use_counts = fixed(0.0);
    let free = RendguardConfig { use_global_start_count: 0, ..config.clone() };
    assert!(rg.is_overused("A", &free));
    assert_eq!(rg.usage_rate("A"), 0);
}

#[test]
fn scale_counts_twice_quarters() {
    let mut rg = RendGuard::new();
    for (k, used) in [("A", fixed(100.0)), ("B", fixed(7.0)), ("C", 7), ("D", 0)] {
        rg.use_counts.insert(k.to_string(), RendUseCount { idhex: k.to_string(), used, weight: 1 });
    }
    rg.total_use_counts = fixed(107.0) + 7;
    rg.scale_counts();
    rg.scale_counts();
    let used: Vec<u64> = ["A", "B", "C", "D"].iter().map(|k| rg.use_counts.get(k).unwrap().used).collect();
    // halves are kept; what is below a billionth of a use is dropped
    assert_eq!(used, vec![fixed(25.0), fixed(1.75), 1, 0]);
    assert_eq!(rg.total_use_counts, fixed(26.75) + 1);
}
