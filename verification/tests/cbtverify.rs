use vanguards_rs::cbtverify::{CircuitStat, Outcome, TimeoutStats};

/// A fixed-point rate as a fraction.
fn rate(fixed: u64) -> f64 {
    fixed as f64 / 1e9
}

/// A fraction as a fixed-point rate.
fn fixed(rate: f64) -> u64 {
    (rate * 1e9) as u64
}


#[test]
fn test_circuit_stat_new() {
    let stat = CircuitStat::new("123", true);
    assert_eq!(stat.circ_id, "123");
    assert!(stat.is_hs);
}

#[test]
fn test_timeout_stats_new() {
    let stats = TimeoutStats::new();
    assert!(stats.circuits.is_empty());
    assert_eq!(stats.all_launched, 0);
    assert_eq!(stats.all_built, 0);
    assert_eq!(stats.all_timeout, 0);
    assert_eq!(stats.hs_launched, 0);
    assert_eq!(stats.hs_built, 0);
    assert_eq!(stats.hs_timeout, 0);
    assert!(stats.record_timeouts);
}

#[test]
fn test_add_circuit() {
    let mut stats = TimeoutStats::new();

    stats.add_circuit("123", false);
    assert_eq!(stats.all_launched, 1);
    assert_eq!(stats.hs_launched, 0);
    assert!(stats.circuits.contains_key("123"));

    stats.add_circuit("456", true);
    assert_eq!(stats.all_launched, 2);
    assert_eq!(stats.hs_launched, 1);
}

#[test]
fn test_built_circuit() {
    let mut stats = TimeoutStats::new();

    stats.add_circuit("123", true);
    stats.built_circuit("123");

    assert_eq!(stats.all_built, 1);
    assert_eq!(stats.hs_built, 1);
    assert!(!stats.circuits.contains_key("123"));
}

#[test]
fn test_timeout_circuit() {
    let mut stats = TimeoutStats::new();

    stats.add_circuit("123", true);
    stats.timeout_circuit("123");

    assert_eq!(stats.all_timeout, 1);
    assert_eq!(stats.hs_timeout, 1);
    assert!(!stats.circuits.contains_key("123"));
}

#[test]
fn test_closed_circuit() {
    let mut stats = TimeoutStats::new();

    stats.add_circuit("123", true);
    assert_eq!(stats.all_launched, 1);
    assert_eq!(stats.hs_launched, 1);

    stats.closed_circuit("123");

    // Closed before built/timeout - should decrement launched
    assert_eq!(stats.all_launched, 0);
    assert_eq!(stats.hs_launched, 0);
    assert!(!stats.circuits.contains_key("123"));
}

#[test]
fn test_timeout_rate_all() {
    let mut stats = TimeoutStats::new();

    assert_eq!(rate(stats.timeout_rate_all()), 0.0);

    stats.add_circuit("1", false);
    stats.add_circuit("2", false);
    stats.add_circuit("3", false);
    stats.add_circuit("4", false);

    stats.built_circuit("1");
    stats.built_circuit("2");
    stats.built_circuit("3");
    stats.timeout_circuit("4");

    // 1 timeout out of 4 launched = 0.25
    assert!((rate(stats.timeout_rate_all()) - 0.25).abs() < 0.001);
}

#[test]
fn test_timeout_rate_hs() {
    let mut stats = TimeoutStats::new();

    assert_eq!(rate(stats.timeout_rate_hs()), 0.0);

    stats.add_circuit("1", true);
    stats.add_circuit("2", true);
    stats.add_circuit("3", false);

    stats.built_circuit("1");
    stats.timeout_circuit("2");
    stats.built_circuit("3");

    // 1 HS timeout out of 2 HS launched = 0.5
    assert!((rate(stats.timeout_rate_hs()) - 0.5).abs() < 0.001);
}

#[test]
fn test_zero_fields() {
    let mut stats = TimeoutStats::new();

    stats.all_launched = 10;
    stats.all_built = 8;
    stats.all_timeout = 2;
    stats.hs_launched = 5;
    stats.hs_built = 4;
    stats.hs_timeout = 1;

    stats.zero_fields();

    assert_eq!(stats.all_launched, 0);
    assert_eq!(stats.all_built, 0);
    assert_eq!(stats.all_timeout, 0);
    assert_eq!(stats.hs_launched, 0);
    assert_eq!(stats.hs_built, 0);
    assert_eq!(stats.hs_timeout, 0);
}

#[test]
fn test_cbt_event_reset() {
    let mut stats = TimeoutStats::new();
    stats.all_launched = 10;
    stats.record_timeouts = true;

    stats.cbt_event("RESET", None);

    assert!(!stats.record_timeouts);
    assert_eq!(stats.all_launched, 0);
}

#[test]
fn test_cbt_event_computed() {
    let mut stats = TimeoutStats::new();
    stats.record_timeouts = false;

    stats.cbt_event("COMPUTED", Some(fixed(0.1)));

    assert!(stats.record_timeouts);
}

#[test]
fn test_circ_event_launched() {
    let mut stats = TimeoutStats::new();

    stats.circ_event(
        "123",
        "LAUNCHED",
        "HS_SERVICE_REND",
        Some("HSSR_CONNECTING"),
        None,
    );

    assert_eq!(stats.all_launched, 1);
    assert_eq!(stats.hs_launched, 1);
    assert!(stats.circuits.contains_key("123"));
}

#[test]
fn cbtverify_test_circ_event_built() {
    let mut stats = TimeoutStats::new();

    stats.circ_event(
        "123",
        "LAUNCHED",
        "HS_SERVICE_REND",
        Some("HSSR_CONNECTING"),
        None,
    );
    stats.circ_event(
        "123",
        "BUILT",
        "HS_SERVICE_REND",
        Some("HSSR_CONNECTING"),
        None,
    );

    assert_eq!(stats.all_built, 1);
    assert_eq!(stats.hs_built, 1);
}

#[test]
fn test_circ_event_timeout() {
    let mut stats = TimeoutStats::new();

    stats.circ_event("123", "LAUNCHED", "GENERAL", None, None);
    stats.circ_event("123", "FAILED", "GENERAL", None, Some("TIMEOUT"));

    assert_eq!(stats.all_timeout, 1);
}

#[test]
fn test_circ_event_closed_before_built() {
    let mut stats = TimeoutStats::new();

    stats.circ_event("123", "LAUNCHED", "GENERAL", None, None);
    assert_eq!(stats.all_launched, 1);

    stats.circ_event("123", "CLOSED", "GENERAL", None, Some("DESTROYED"));

    // Should decrement launched since it closed before built/timeout
    assert_eq!(stats.all_launched, 0);
}

#[test]
fn test_record_timeouts_disabled() {
    let mut stats = TimeoutStats::new();
    stats.record_timeouts = false;

    stats.circ_event("123", "LAUNCHED", "GENERAL", None, None);

    // Should not record when disabled
    assert_eq!(stats.all_launched, 0);
    assert!(!stats.circuits.contains_key("123"));
}

#[test]
fn test_hs_detection_by_purpose() {
    let mut stats = TimeoutStats::new();

    stats.circ_event("123", "LAUNCHED", "HS_CLIENT_REND", None, None);

    assert_eq!(stats.hs_launched, 1);
    assert!(stats.circuits.get("123").unwrap().is_hs);
}

#[test]
fn test_hs_detection_by_state() {
    let mut stats = TimeoutStats::new();

    stats.circ_event("123", "LAUNCHED", "GENERAL", Some("HSCI_CONNECTING"), None);

    assert_eq!(stats.hs_launched, 1);
    assert!(stats.circuits.get("123").unwrap().is_hs);
}

#[test]
fn test_initial_timeout_rates() {
    let ts = TimeoutStats::new();
    assert_eq!(rate(ts.timeout_rate_hs()), 0.0);
    assert_eq!(rate(ts.timeout_rate_all()), 0.0);
}

#[test]
fn test_hs_timeout_rate_20_percent() {
    let mut ts = TimeoutStats::new();

    for i in 1..=8 {
        let circ_id = format!("{}", i);
        ts.circ_event(
            &circ_id,
            "LAUNCHED",
            "HS_VANGUARDS",
            Some("HSVI_CONNECTING"),
            None,
        );
        ts.circ_event(
            &circ_id,
            "BUILT",
            "HS_VANGUARDS",
            Some("HSVI_CONNECTING"),
            None,
        );
    }

    ts.circ_event(
        "9",
        "LAUNCHED",
        "HS_VANGUARDS",
        Some("HSVI_CONNECTING"),
        None,
    );
    ts.circ_event(
        "9",
        "FAILED",
        "HS_VANGUARDS",
        Some("HSVI_CONNECTING"),
        Some("TIMEOUT"),
    );
    ts.circ_event(
        "9",
        "FAILED",
        "MEASURE_TIMEOUT",
        None,
        Some("MEASUREMENT_EXPIRED"),
    );

    ts.circ_event(
        "10",
        "LAUNCHED",
        "HS_VANGUARDS",
        Some("HSVI_CONNECTING"),
        None,
    );
    ts.circ_event(
        "10",
        "FAILED",
        "HS_VANGUARDS",
        Some("HSVI_CONNECTING"),
        Some("TIMEOUT"),
    );

    assert!((rate(ts.timeout_rate_hs()) - 0.2).abs() < 0.001);
    assert!((rate(ts.timeout_rate_all()) - 0.2).abs() < 0.001);
}

#[test]
fn test_general_circuits_dont_affect_hs_rate() {
    let mut ts = TimeoutStats::new();

    for i in 1..=8 {
        let circ_id = format!("{}", i);
        ts.circ_event(
            &circ_id,
            "LAUNCHED",
            "HS_VANGUARDS",
            Some("HSVI_CONNECTING"),
            None,
        );
        ts.circ_event(
            &circ_id,
            "BUILT",
            "HS_VANGUARDS",
            Some("HSVI_CONNECTING"),
            None,
        );
    }

    ts.circ_event(
        "9",
        "LAUNCHED",
        "HS_VANGUARDS",
        Some("HSVI_CONNECTING"),
        None,
    );
    ts.circ_event(
        "9",
        "FAILED",
        "HS_VANGUARDS",
        Some("HSVI_CONNECTING"),
        Some("TIMEOUT"),
    );

    ts.circ_event(
        "10",
        "LAUNCHED",
        "HS_VANGUARDS",
        Some("HSVI_CONNECTING"),
        None,
    );
    ts.circ_event(
        "10",
        "FAILED",
        "HS_VANGUARDS",
        Some("HSVI_CONNECTING"),
        Some("TIMEOUT"),
    );

    for i in 11..=19 {
        let circ_id = format!("{}", i);
        ts.circ_event(&circ_id, "LAUNCHED", "GENERAL", None, None);
        ts.circ_event(&circ_id, "BUILT", "GENERAL", None, None);
    }

    ts.circ_event("20", "LAUNCHED", "GENERAL", None, None);
    ts.circ_event("20", "FAILED", "GENERAL", None, Some("TIMEOUT"));

    assert!((rate(ts.timeout_rate_hs()) - 0.2).abs() < 0.001);
    assert!((rate(ts.timeout_rate_all()) - 0.15).abs() < 0.001);
}

#[test]
fn test_failed_circuits_dont_impact_rates() {
    let mut ts = TimeoutStats::new();

    for i in 1..=8 {
        let circ_id = format!("{}", i);
        ts.circ_event(
            &circ_id,
            "LAUNCHED",
            "HS_VANGUARDS",
            Some("HSVI_CONNECTING"),
            None,
        );
        ts.circ_event(
            &circ_id,
            "BUILT",
            "HS_VANGUARDS",
            Some("HSVI_CONNECTING"),
            None,
        );
    }

    ts.circ_event(
        "9",
        "LAUNCHED",
        "HS_VANGUARDS",
        Some("HSVI_CONNECTING"),
        None,
    );
    ts.circ_event(
        "9",
        "FAILED",
        "HS_VANGUARDS",
        Some("HSVI_CONNECTING"),
        Some("TIMEOUT"),
    );

    ts.circ_event(
        "10",
        "LAUNCHED",
        "HS_VANGUARDS",
        Some("HSVI_CONNECTING"),
        None,
    );
    ts.circ_event(
        "10",
        "FAILED",
        "HS_VANGUARDS",
        Some("HSVI_CONNECTING"),
        Some("TIMEOUT"),
    );

    let rate_before = rate(ts.timeout_rate_hs());

    ts.circ_event("21", "LAUNCHED", "GENERAL", None, None);
    ts.circ_event("21", "FAILED", "GENERAL", None, Some("FINISHED"));

    ts.circ_event(
        "22",
        "LAUNCHED",
        "HS_VANGUARDS",
        Some("HSVI_CONNECTING"),
        None,
    );
    ts.circ_event(
        "22",
        "FAILED",
        "HS_VANGUARDS",
        Some("HSVI_CONNECTING"),
        Some("FINISHED"),
    );

    assert!((rate(ts.timeout_rate_hs()) - rate_before).abs() < 0.001);
}

#[test]
fn test_closed_circuits_dont_impact_rates() {
    let mut ts = TimeoutStats::new();

    for i in 1..=8 {
        let circ_id = format!("{}", i);
        ts.circ_event(
            &circ_id,
            "LAUNCHED",
            "HS_VANGUARDS",
            Some("HSVI_CONNECTING"),
            None,
        );
        ts.circ_event(
            &circ_id,
            "BUILT",
            "HS_VANGUARDS",
            Some("HSVI_CONNECTING"),
            None,
        );
    }

    ts.circ_event(
        "9",
        "LAUNCHED",
        "HS_VANGUARDS",
        Some("HSVI_CONNECTING"),
        None,
    );
    ts.circ_event(
        "9",
        "FAILED",
        "HS_VANGUARDS",
        Some("HSVI_CONNECTING"),
        Some("TIMEOUT"),
    );

    ts.circ_event(
        "10",
        "LAUNCHED",
        "HS_VANGUARDS",
        Some("HSVI_CONNECTING"),
        None,
    );
    ts.circ_event(
        "10",
        "FAILED",
        "HS_VANGUARDS",
        Some("HSVI_CONNECTING"),
        Some("TIMEOUT"),
    );

    let rate_before = rate(ts.timeout_rate_hs());

    ts.circ_event("23", "LAUNCHED", "GENERAL", None, None);
    ts.circ_event("23", "CLOSED", "GENERAL", None, Some("FINISHED"));

    ts.circ_event(
        "24",
        "LAUNCHED",
        "HS_VANGUARDS",
        Some("HSVI_CONNECTING"),
        None,
    );
    ts.circ_event(
        "24",
        "CLOSED",
        "HS_VANGUARDS",
        Some("HSVI_CONNECTING"),
        Some("FINISHED"),
    );

    assert!((rate(ts.timeout_rate_hs()) - rate_before).abs() < 0.001);
}

#[test]
fn test_circuits_not_counted_after_reset() {
    let mut ts = TimeoutStats::new();

    ts.cbt_event("RESET", None);
    assert!(!ts.record_timeouts);

    for i in 1..=8 {
        let circ_id = format!("{}", i);
        ts.circ_event(
            &circ_id,
            "LAUNCHED",
            "HS_VANGUARDS",
            Some("HSVI_CONNECTING"),
            None,
        );
        ts.circ_event(
            &circ_id,
            "BUILT",
            "HS_VANGUARDS",
            Some("HSVI_CONNECTING"),
            None,
        );
    }

    ts.circ_event(
        "9",
        "LAUNCHED",
        "HS_VANGUARDS",
        Some("HSVI_CONNECTING"),
        None,
    );
    ts.circ_event(
        "9",
        "FAILED",
        "HS_VANGUARDS",
        Some("HSVI_CONNECTING"),
        Some("TIMEOUT"),
    );

    ts.circ_event(
        "10",
        "LAUNCHED",
        "HS_VANGUARDS",
        Some("HSVI_CONNECTING"),
        None,
    );
    ts.circ_event(
        "10",
        "FAILED",
        "HS_VANGUARDS",
        Some("HSVI_CONNECTING"),
        Some("TIMEOUT"),
    );

    assert_eq!(rate(ts.timeout_rate_hs()), 0.0);
    assert_eq!(rate(ts.timeout_rate_all()), 0.0);
}

#[test]
fn test_circuits_counted_after_computed() {
    let mut ts = TimeoutStats::new();

    ts.cbt_event("RESET", None);
    ts.cbt_event("COMPUTED", Some(fixed(0.1)));

    assert!(ts.record_timeouts);

    for i in 1..=8 {
        let circ_id = format!("{}", i);
        ts.circ_event(
            &circ_id,
            "LAUNCHED",
            "HS_VANGUARDS",
            Some("HSVI_CONNECTING"),
            None,
        );
        ts.circ_event(
            &circ_id,
            "BUILT",
            "HS_VANGUARDS",
            Some("HSVI_CONNECTING"),
            None,
        );
    }

    ts.circ_event(
        "9",
        "LAUNCHED",
        "HS_VANGUARDS",
        Some("HSVI_CONNECTING"),
        None,
    );
    ts.circ_event(
        "9",
        "FAILED",
        "HS_VANGUARDS",
        Some("HSVI_CONNECTING"),
        Some("TIMEOUT"),
    );

    ts.circ_event(
        "10",
        "LAUNCHED",
        "HS_VANGUARDS",
        Some("HSVI_CONNECTING"),
        None,
    );
    ts.circ_event(
        "10",
        "FAILED",
        "HS_VANGUARDS",
        Some("HSVI_CONNECTING"),
        Some("TIMEOUT"),
    );

    assert!((rate(ts.timeout_rate_hs()) - 0.2).abs() < 0.001);
    assert!((rate(ts.timeout_rate_all()) - 0.2).abs() < 0.001);
}

#[test]
fn test_double_launch_coverage() {
    let mut ts = TimeoutStats::new();

    ts.circ_event(
        "25",
        "LAUNCHED",
        "HS_VANGUARDS",
        Some("HSVI_CONNECTING"),
        None,
    );
    ts.circ_event(
        "25",
        "LAUNCHED",
        "HS_VANGUARDS",
        Some("HSVI_CONNECTING"),
        None,
    );

    ts.circ_event("25", "BUILT", "HS_VANGUARDS", Some("HSVI_CONNECTING"), None);
}
#[test]
fn cbt_event_reports_rates_before_reset() {
    let mut stats = TimeoutStats::new();
    stats.add_circuit("1", true);
    stats.add_circuit("2", false);
    stats.add_circuit("3", false);
    stats.timeout_circuit("1");
    let report = stats.cbt_event("RESET", Some(fixed(0.5))).unwrap();
    assert_eq!(report.reported_rate, 500_000_000);
    assert_eq!(report.measured_rate, 333_333_333);
    assert_eq!(report.measured_hs_rate, 1_000_000_000);
    assert_eq!(stats.all_launched, 0);
    assert!(!stats.record_timeouts);
    assert!(stats.cbt_event("OTHER", None).is_none());
    assert!(!stats.record_timeouts);
}

#[test]
fn circ_event_tells_of_circuits_that_turn_hs() {
    let mut stats = TimeoutStats::new();
    assert!(!stats.circ_event("7", "LAUNCHED", "GENERAL", None, None));
    assert!(stats.circ_event("7", "EXTENDED", "HS_VANGUARDS", None, None));
    assert!(stats.add_circuit("7", true));
    assert!(!stats.circ_event("7", "EXTENDED", "HS_VANGUARDS", None, None));
    stats.finish_circuit("7", Outcome::Closed);
    assert_eq!(stats.pending_count(), 0);
    assert_eq!(stats.all_launched, 1);
}

#[test]
fn circuits_are_held_under_their_ids() {
    let mut stats = TimeoutStats::new();
    assert!(!stats.add_circuit("123", true));
    assert!(!stats.add_circuit("456", false));
    let held = stats.circuits.get("123").unwrap();
    assert_eq!((held.circ_id.as_str(), held.is_hs), ("123", true));
    let held = stats.circuits.get("456").unwrap();
    assert_eq!((held.circ_id.as_str(), held.is_hs), ("456", false));
    assert!(stats.add_circuit("123", false));
    let held = stats.circuits.get("123").unwrap();
    assert_eq!((held.circ_id.as_str(), held.is_hs), ("123", false));
    assert_eq!(stats.pending_count(), 2);
}
