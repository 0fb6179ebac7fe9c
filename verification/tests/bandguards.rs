use vanguards_rs::bandguards::{
    BandwidthStats, BwCircuitStat, BwGuardStat, CircuitLimitResult, ConnectivityStatus,
    CELL_PAYLOAD_SIZE, RELAY_PAYLOAD_SIZE,
};
use vanguards_rs::config::BandguardsConfig;

const BYTES_PER_KB: u64 = 1024;
const BYTES_PER_MB: u64 = 1024 * BYTES_PER_KB;

/// Milliseconds since the epoch for a time given in seconds.
fn ms(secs: f64) -> u64 {
    (secs * 1000.0) as u64
}


#[test]
fn test_bw_circuit_stat_new() {
    let circ = BwCircuitStat::new("123".to_string(), true);
    assert_eq!(circ.circ_id, "123");
    assert!(circ.is_hs);
    assert!(circ.is_service);
    assert!(!circ.is_hsdir);
    assert!(!circ.is_serv_intro);
    assert_eq!(circ.read_bytes, 0);
    assert_eq!(circ.sent_bytes, 0);
}

#[test]
fn test_total_bytes() {
    let mut circ = BwCircuitStat::new("123".to_string(), true);
    circ.read_bytes = 1000;
    circ.sent_bytes = 500;
    assert_eq!(circ.total_bytes(), 1500);
}

#[test]
fn test_dropped_read_cells() {
    let mut circ = BwCircuitStat::new("123".to_string(), true);

    // 10 cells received (10 * 509 = 5090 bytes)
    circ.read_bytes = 5090;
    // 8 cells delivered (8 * 498 = 3984 bytes)
    circ.delivered_read_bytes = 3984;
    circ.overhead_read_bytes = 0;

    // Should have 2 dropped cells
    assert_eq!(circ.dropped_read_cells(), 2);
}

#[test]
fn test_dropped_read_cells_with_overhead() {
    let mut circ = BwCircuitStat::new("123".to_string(), true);

    // 10 cells received
    circ.read_bytes = 5090;
    // 7 delivered + 1 overhead = 8 cells accounted for
    circ.delivered_read_bytes = 3486; // 7 * 498
    circ.overhead_read_bytes = 498; // 1 * 498

    // Should have 2 dropped cells
    assert_eq!(circ.dropped_read_cells(), 2);
}

#[test]
fn test_bw_guard_stat_new() {
    let guard = BwGuardStat::new("A".repeat(40));
    assert_eq!(guard.to_guard, "A".repeat(40));
    assert_eq!(guard.killed_conns, 0);
    assert_eq!(guard.conns_made, 0);
    assert!(guard.close_reasons.is_empty());
}

#[test]
fn test_record_close_reason() {
    let mut guard = BwGuardStat::new("A".repeat(40));
    guard.record_close_reason("DONE");
    guard.record_close_reason("DONE");
    guard.record_close_reason("ERROR");

    assert_eq!(guard.close_reasons.get("DONE"), Some(&2));
    assert_eq!(guard.close_reasons.get("ERROR"), Some(&1));
}

#[test]
fn test_bandwidth_stats_new() {
    let stats = BandwidthStats::new();
    assert!(stats.circs.is_empty());
    assert!(stats.live_guard_conns.is_empty());
    assert!(stats.guards.is_empty());
    assert_eq!(stats.circs_destroyed_total, 0);
    assert!(stats.no_conns_since.is_some());
}

#[test]
fn test_orconn_event_connected() {
    let mut stats = BandwidthStats::new();
    let fp = "A".repeat(40);

    stats.orconn_event("1", &fp, "CONNECTED", None, ms(1000.0));

    assert!(stats.live_guard_conns.contains_key("1"));
    assert!(stats.guards.contains_key(&fp));
    assert_eq!(stats.guards.get(&fp).unwrap().conns_made, 1);
    assert!(stats.no_conns_since.is_none());
}

#[test]
fn test_orconn_event_closed() {
    let mut stats = BandwidthStats::new();
    let fp = "A".repeat(40);

    stats.orconn_event("1", &fp, "CONNECTED", None, ms(1000.0));
    stats.orconn_event("1", &fp, "CLOSED", Some("DONE"), ms(1001.0));

    assert!(!stats.live_guard_conns.contains_key("1"));
    assert!(stats.no_conns_since.is_some());
    assert_eq!(
        stats.guards.get(&fp).unwrap().close_reasons.get("DONE"),
        Some(&1)
    );
}

#[test]
fn test_circ_event_creates_circuit() {
    let mut stats = BandwidthStats::new();

    stats.circ_event(
        "123",
        "LAUNCHED",
        "HS_SERVICE_REND",
        Some("HSSR_CONNECTING"),
        &[],
        None,
        ms(1000.0),
    );

    assert!(stats.circs.contains_key("123"));
    let circ = stats.circs.get("123").unwrap();
    assert!(circ.is_hs);
    assert!(circ.is_service);
}

#[test]
fn bandguards_test_circ_event_built() {
    let mut stats = BandwidthStats::new();
    let path = vec!["A".repeat(40)];

    stats.circ_event(
        "123",
        "LAUNCHED",
        "HS_SERVICE_REND",
        Some("HSSR_CONNECTING"),
        &[],
        None,
        ms(1000.0),
    );
    stats.circ_event(
        "123",
        "BUILT",
        "HS_SERVICE_REND",
        Some("HSSR_CONNECTING"),
        &path,
        None,
        ms(1001.0),
    );

    let circ = stats.circs.get("123").unwrap();
    assert!(circ.built);
    assert!(circ.in_use);
    assert_eq!(circ.guard_fp, Some("A".repeat(40)));
}

#[test]
fn test_circbw_event() {
    let mut stats = BandwidthStats::new();

    stats.circ_event("123", "LAUNCHED", "GENERAL", None, &[], None, ms(1000.0));
    stats.circbw_event("123", 1000, 500, 800, 400, 100, 50, ms(1001.0));

    let circ = stats.circs.get("123").unwrap();
    assert_eq!(circ.read_bytes, 1000);
    assert_eq!(circ.sent_bytes, 500);
    assert_eq!(circ.delivered_read_bytes, 800);
    assert_eq!(circ.delivered_sent_bytes, 400);
    assert_eq!(circ.overhead_read_bytes, 100);
    assert_eq!(circ.overhead_sent_bytes, 50);
}

#[test]
fn test_check_circuit_limits_ok() {
    let mut stats = BandwidthStats::new();
    let config = BandguardsConfig::default();

    stats.circ_event("123", "LAUNCHED", "GENERAL", None, &[], None, ms(1000.0));

    let result = stats.check_circuit_limits("123", &config);
    assert_eq!(result, CircuitLimitResult::Okay);
}

#[test]
fn test_check_circuit_limits_max_bytes() {
    let mut stats = BandwidthStats::new();
    let config = BandguardsConfig {
        circ_max_megabytes: 1, // 1 MB limit
        ..Default::default()
    };

    stats.circ_event("123", "BUILT", "GENERAL", None, &[], None, ms(1000.0));
    // Set read_bytes with matching delivered bytes to avoid dropped cell detection
    let bytes = 2 * BYTES_PER_MB;
    let delivered = (bytes / CELL_PAYLOAD_SIZE) * RELAY_PAYLOAD_SIZE;
    stats.circbw_event("123", bytes, 0, delivered, 0, 0, 0, ms(1001.0));

    let result = stats.check_circuit_limits("123", &config);
    match result {
        CircuitLimitResult::MaxBytesExceeded { bytes: b, limit } => {
            assert_eq!(b, bytes as u128);
            assert_eq!(limit, BYTES_PER_MB as u128);
        }
        _ => panic!("Expected MaxBytesExceeded, got {:?}", result),
    }
}

#[test]
fn test_network_liveness_event() {
    let mut stats = BandwidthStats::new();

    stats.network_liveness_event("DOWN", ms(1000.0));
    assert_eq!(stats.network_down_since, Some(ms(1000.0)));

    stats.network_liveness_event("UP", ms(1001.0));
    assert_eq!(stats.network_down_since, None);
}

#[test]
fn test_connectivity_status_connected() {
    let mut stats = BandwidthStats::new();
    let config = BandguardsConfig::default();

    // Simulate connected state
    stats.no_conns_since = None;
    stats.no_circs_since = None;

    let status = stats.check_connectivity(ms(1000.0), &config);
    assert_eq!(status, ConnectivityStatus::Connected);
}

const BYTES_PER_KB_TEST: u64 = 1024;
const CELL_DATA_RATE: f64 = RELAY_PAYLOAD_SIZE as f64 / CELL_PAYLOAD_SIZE as f64;

fn check_hsdir(stats: &mut BandwidthStats, config: &BandguardsConfig, circ_id: &str) -> bool {
    let limit = config.circ_max_hsdesc_kilobytes as u64 * BYTES_PER_KB_TEST;
    let mut read: u64 = CELL_PAYLOAD_SIZE;

    while read < limit {
        let delivered = (CELL_DATA_RATE * CELL_PAYLOAD_SIZE as f64) as u64;
        stats.circbw_event(circ_id, CELL_PAYLOAD_SIZE, 0, delivered, 0, 0, 0, ms(1000.0));
        read += CELL_PAYLOAD_SIZE;

        if let CircuitLimitResult::HsdirBytesExceeded { .. } =
            stats.check_circuit_limits(circ_id, config)
        {
            return true;
        }
    }

    let delivered = (CELL_DATA_RATE * CELL_PAYLOAD_SIZE as f64) as u64;
    stats.circbw_event(circ_id, CELL_PAYLOAD_SIZE, 0, delivered, 0, 0, 0, ms(1000.0));
    matches!(
        stats.check_circuit_limits(circ_id, config),
        CircuitLimitResult::HsdirBytesExceeded { .. }
    )
}

fn check_serv_intro(
    stats: &mut BandwidthStats,
    config: &BandguardsConfig,
    circ_id: &str,
) -> bool {
    let limit = config.circ_max_serv_intro_kilobytes as u64 * BYTES_PER_KB_TEST;
    let mut read: u64 = CELL_PAYLOAD_SIZE;

    while read < limit {
        let delivered = (CELL_DATA_RATE * CELL_PAYLOAD_SIZE as f64) as u64;
        stats.circbw_event(circ_id, CELL_PAYLOAD_SIZE, 0, delivered, 0, 0, 0, ms(1000.0));
        read += CELL_PAYLOAD_SIZE;

        if let CircuitLimitResult::ServIntroBytesExceeded { .. } =
            stats.check_circuit_limits(circ_id, config)
        {
            return true;
        }
    }

    let delivered = (CELL_DATA_RATE * CELL_PAYLOAD_SIZE as f64) as u64;
    stats.circbw_event(circ_id, CELL_PAYLOAD_SIZE, 0, delivered, 0, 0, 0, ms(1000.0));
    matches!(
        stats.check_circuit_limits(circ_id, config),
        CircuitLimitResult::ServIntroBytesExceeded { .. }
    )
}

fn check_maxbytes(
    stats: &mut BandwidthStats,
    config: &BandguardsConfig,
    circ_id: &str,
) -> bool {
    let limit = config.circ_max_megabytes * BYTES_PER_MB;
    let chunk = 1000 * CELL_PAYLOAD_SIZE;
    let mut read: u64 = 0;

    while read + 2 * chunk < limit {
        let delivered = (CELL_DATA_RATE * chunk as f64) as u64;
        stats.circbw_event(circ_id, chunk, chunk, delivered, 0, 0, 0, ms(1000.0));
        read += 2 * chunk;

        if let CircuitLimitResult::MaxBytesExceeded { .. } =
            stats.check_circuit_limits(circ_id, config)
        {
            return true;
        }
    }

    let delivered = (CELL_DATA_RATE * (2 * chunk) as f64) as u64;
    stats.circbw_event(circ_id, 2 * chunk, 0, delivered, 0, 0, 0, ms(1000.0));
    matches!(
        stats.check_circuit_limits(circ_id, config),
        CircuitLimitResult::MaxBytesExceeded { .. }
    )
}

fn check_dropped_bytes(
    stats: &mut BandwidthStats,
    config: &BandguardsConfig,
    circ_id: &str,
    delivered_cells: u64,
    dropped_cells: u64,
) -> Option<CircuitLimitResult> {
    let valid_bytes = (CELL_DATA_RATE * CELL_PAYLOAD_SIZE as f64 / 2.0) as u64;
    for _ in 0..delivered_cells {
        stats.circbw_event(
            circ_id,
            CELL_PAYLOAD_SIZE,
            CELL_PAYLOAD_SIZE,
            valid_bytes,
            0,
            valid_bytes,
            0,
            ms(1000.0),
        );
        let result = stats.check_circuit_limits(circ_id, config);
        if !matches!(result, CircuitLimitResult::Okay) {
            return Some(result);
        }
    }

    for _ in 0..dropped_cells {
        stats.circbw_event(
            circ_id,
            CELL_PAYLOAD_SIZE,
            CELL_PAYLOAD_SIZE,
            0,
            0,
            0,
            0,
            ms(1000.0),
        );
        let result = stats.check_circuit_limits(circ_id, config);
        if !matches!(result, CircuitLimitResult::Okay) {
            return Some(result);
        }
    }

    None
}

#[test]
fn test_circuit_built_failed_closed_removed_from_map() {
    let mut stats = BandwidthStats::new();

    stats.circ_event("1", "LAUNCHED", "HS_VANGUARDS", None, &[], None, ms(1000.0));
    stats.circ_event("1", "BUILT", "HS_VANGUARDS", None, &[], None, ms(1001.0));
    assert!(stats.circs.contains_key("1"));

    stats.circ_event("1", "FAILED", "HS_VANGUARDS", None, &[], None, ms(1002.0));
    assert!(!stats.circs.contains_key("1"));

    stats.circ_event("1", "CLOSED", "HS_VANGUARDS", None, &[], None, ms(1003.0));
    assert!(!stats.circs.contains_key("1"));
}

#[test]
fn test_circuit_built_closed_removed_from_map() {
    let mut stats = BandwidthStats::new();

    stats.circ_event("2", "LAUNCHED", "HS_VANGUARDS", None, &[], None, ms(1000.0));
    stats.circ_event("2", "BUILT", "HS_VANGUARDS", None, &[], None, ms(1001.0));
    assert!(stats.circs.contains_key("2"));

    stats.circ_event("2", "CLOSED", "HS_VANGUARDS", None, &[], None, ms(1002.0));
    assert!(!stats.circs.contains_key("2"));
}

#[test]
fn test_hsdir_size_cap_exceeded_direct_service_circ() {
    let mut stats = BandwidthStats::new();
    let config = BandguardsConfig {
        circ_max_hsdesc_kilobytes: 30,
        ..Default::default()
    };

    stats.circ_event(
        "3",
        "LAUNCHED",
        "HS_SERVICE_HSDIR",
        Some("HSSI_CONNECTING"),
        &[],
        None,
        ms(1000.0),
    );
    stats.circ_event(
        "3",
        "BUILT",
        "HS_SERVICE_HSDIR",
        Some("HSSI_CONNECTING"),
        &[],
        None,
        ms(1001.0),
    );

    let circ = stats.circs.get("3").unwrap();
    assert!(circ.is_hsdir);
    assert!(circ.is_service);

    assert!(check_hsdir(&mut stats, &config, "3"));
}

#[test]
fn test_hsdir_size_cap_disabled() {
    let mut stats = BandwidthStats::new();
    let config = BandguardsConfig {
        circ_max_hsdesc_kilobytes: 0,
        ..Default::default()
    };

    stats.circ_event(
        "5",
        "LAUNCHED",
        "HS_SERVICE_HSDIR",
        Some("HSSI_CONNECTING"),
        &[],
        None,
        ms(1000.0),
    );
    stats.circ_event(
        "5",
        "BUILT",
        "HS_SERVICE_HSDIR",
        Some("HSSI_CONNECTING"),
        &[],
        None,
        ms(1001.0),
    );

    assert!(!check_hsdir(&mut stats, &config, "5"));
}

#[test]
fn test_intro_size_cap_disabled_by_default() {
    let mut stats = BandwidthStats::new();
    let config = BandguardsConfig::default();

    assert_eq!(config.circ_max_serv_intro_kilobytes, 0);

    stats.circ_event(
        "6",
        "LAUNCHED",
        "HS_SERVICE_INTRO",
        Some("HSSI_CONNECTING"),
        &[],
        None,
        ms(1000.0),
    );
    stats.circ_event(
        "6",
        "BUILT",
        "HS_SERVICE_INTRO",
        Some("HSSI_CONNECTING"),
        &[],
        None,
        ms(1001.0),
    );

    let circ = stats.circs.get("6").unwrap();
    assert!(circ.is_serv_intro);
    assert!(circ.is_service);

    assert!(!check_serv_intro(&mut stats, &config, "6"));
}

#[test]
fn test_intro_size_cap_exceeded() {
    let mut stats = BandwidthStats::new();
    let config = BandguardsConfig {
        circ_max_serv_intro_kilobytes: 1024,
        ..Default::default()
    };

    stats.circ_event(
        "7",
        "LAUNCHED",
        "HS_SERVICE_INTRO",
        Some("HSSI_CONNECTING"),
        &[],
        None,
        ms(1000.0),
    );
    stats.circ_event(
        "7",
        "BUILT",
        "HS_SERVICE_INTRO",
        Some("HSSI_CONNECTING"),
        &[],
        None,
        ms(1001.0),
    );

    assert!(check_serv_intro(&mut stats, &config, "7"));
}

#[test]
fn test_max_bytes_exceeded() {
    let mut stats = BandwidthStats::new();
    let config = BandguardsConfig {
        circ_max_megabytes: 100,
        ..Default::default()
    };

    stats.circ_event("10", "LAUNCHED", "HS_VANGUARDS", None, &[], None, ms(1000.0));
    stats.circ_event("10", "BUILT", "HS_VANGUARDS", None, &[], None, ms(1001.0));

    assert!(check_maxbytes(&mut stats, &config, "10"));
}

#[test]
fn test_max_bytes_disabled() {
    let mut stats = BandwidthStats::new();
    let config = BandguardsConfig {
        circ_max_megabytes: 0,
        ..Default::default()
    };

    stats.circ_event(
        "11",
        "LAUNCHED",
        "HS_SERVICE_REND",
        Some("HSSR_CONNECTING"),
        &[],
        None,
        ms(1000.0),
    );
    stats.circ_event(
        "11",
        "BUILT",
        "HS_SERVICE_REND",
        Some("HSSR_CONNECTING"),
        &[],
        None,
        ms(1001.0),
    );

    assert!(!check_maxbytes(&mut stats, &config, "11"));
}

#[test]
fn test_regular_reading_ok() {
    let mut stats = BandwidthStats::new();
    let config = BandguardsConfig::default();

    stats.circ_event("20", "LAUNCHED", "HS_VANGUARDS", None, &[], None, ms(1000.0));
    stats.circ_event("20", "BUILT", "HS_VANGUARDS", None, &[], None, ms(1001.0));

    let result = check_dropped_bytes(&mut stats, &config, "20", 100, 0);
    assert!(result.is_none());
}

#[test]
fn test_dropped_cells_before_app_data() {
    let mut stats = BandwidthStats::new();
    let config = BandguardsConfig::default();

    stats.circ_event("21", "LAUNCHED", "HS_VANGUARDS", None, &[], None, ms(1000.0));
    stats.circ_event("21", "BUILT", "HS_VANGUARDS", None, &[], None, ms(1001.0));

    let result = check_dropped_bytes(&mut stats, &config, "21", 0, 1);
    assert!(matches!(
        result,
        Some(CircuitLimitResult::DroppedCells { .. })
    ));
}

#[test]
fn test_dropped_cells_after_app_data() {
    let mut stats = BandwidthStats::new();
    let config = BandguardsConfig::default();

    stats.circ_event("22", "LAUNCHED", "HS_VANGUARDS", None, &[], None, ms(1000.0));
    stats.circ_event("22", "BUILT", "HS_VANGUARDS", None, &[], None, ms(1001.0));

    let result = check_dropped_bytes(&mut stats, &config, "22", 1000, 1);
    assert!(matches!(
        result,
        Some(CircuitLimitResult::DroppedCells { .. })
    ));
}

#[test]
fn test_dropped_cells_allowed_on_not_built_circ() {
    let mut stats = BandwidthStats::new();
    let config = BandguardsConfig::default();

    stats.circ_event("23", "LAUNCHED", "HS_VANGUARDS", None, &[], None, ms(1000.0));
    stats.circ_event("23", "EXTENDED", "HS_VANGUARDS", None, &[], None, ms(1001.0));

    let result = check_dropped_bytes(&mut stats, &config, "23", 0, 1);
    assert!(result.is_none());
}

#[test]
fn test_general_circ_dropped_cells() {
    let mut stats = BandwidthStats::new();
    let config = BandguardsConfig::default();

    stats.circ_event("24", "LAUNCHED", "GENERAL", None, &[], None, ms(1000.0));
    stats.circ_event("24", "BUILT", "GENERAL", None, &[], None, ms(1001.0));

    let result = check_dropped_bytes(&mut stats, &config, "24", 1000, 1);
    assert!(matches!(
        result,
        Some(CircuitLimitResult::DroppedCells { .. })
    ));
}

#[test]
fn test_orconn_connected() {
    let mut stats = BandwidthStats::new();
    let guard_fp = "5416F3E8F80101A133B1970495B04FDBD1C7446B";

    stats.orconn_event("11", guard_fp, "CONNECTED", None, ms(1000.0));

    assert!(stats.live_guard_conns.contains_key("11"));
    assert!(stats.guards.contains_key(guard_fp));
    assert_eq!(stats.guards.get(guard_fp).unwrap().conns_made, 1);
}

#[test]
fn test_orconn_closed() {
    let mut stats = BandwidthStats::new();
    let guard_fp = "5416F3E8F80101A133B1970495B04FDBD1C7446B";

    stats.orconn_event("11", guard_fp, "CONNECTED", None, ms(1000.0));
    assert!(stats.live_guard_conns.contains_key("11"));

    stats.orconn_event("11", guard_fp, "CLOSED", Some("DONE"), ms(1001.0));
    assert!(!stats.live_guard_conns.contains_key("11"));
}

#[test]
fn test_no_conns_since_tracking() {
    let mut stats = BandwidthStats::new();
    let guard_fp = "5416F3E8F80101A133B1970495B04FDBD1C7446B";

    assert!(stats.no_conns_since.is_some());

    stats.orconn_event("1", guard_fp, "CONNECTED", None, ms(1000.0));
    assert!(stats.no_conns_since.is_none());

    stats.orconn_event("1", guard_fp, "CLOSED", None, ms(1001.0));
    assert!(stats.no_conns_since.is_some());
}

#[test]
fn test_connectivity_check_no_connections() {
    let mut stats = BandwidthStats::new();
    let config = BandguardsConfig {
        conn_max_disconnected_secs: 15,
        ..Default::default()
    };

    stats.no_conns_since = Some(ms(1000.0));

    let status = stats.check_connectivity(ms(1020.0), &config);
    assert!(matches!(
        status,
        ConnectivityStatus::NoConnections { secs: 20 }
    ));
}

#[test]
fn test_connectivity_disabled() {
    let mut stats = BandwidthStats::new();
    let config = BandguardsConfig {
        conn_max_disconnected_secs: 0,
        ..Default::default()
    };

    stats.no_conns_since = Some(ms(1000.0));

    let status = stats.check_connectivity(ms(2000.0), &config);
    assert_eq!(status, ConnectivityStatus::Connected);
}

#[test]
fn test_circ_minor_purpose_changed() {
    let mut stats = BandwidthStats::new();
    let path = vec!["5416F3E8F80101A133B1970495B04FDBD1C7446B".to_string()];

    stats.circ_event("30", "LAUNCHED", "HS_VANGUARDS", None, &[], None, ms(1000.0));
    stats.circ_event("30", "BUILT", "HS_VANGUARDS", None, &path, None, ms(1001.0));

    stats.circ_minor_event(
        "30",
        "PURPOSE_CHANGED",
        "HS_SERVICE_REND",
        Some("HSSR_CONNECTING"),
        Some("HS_VANGUARDS"),
        None,
        &path,
    );

    let circ = stats.circs.get("30").unwrap();
    assert_eq!(circ.purpose, Some("HS_SERVICE_REND".to_string()));
    assert!(circ.in_use);
    assert_eq!(circ.guard_fp, Some(path[0].clone()));
}

#[test]
fn test_circ_minor_cannibalized_to_hsdir() {
    let mut stats = BandwidthStats::new();

    stats.circ_event("31", "LAUNCHED", "HS_VANGUARDS", None, &[], None, ms(1000.0));
    stats.circ_event("31", "BUILT", "HS_VANGUARDS", None, &[], None, ms(1001.0));

    let circ = stats.circs.get("31").unwrap();
    assert!(!circ.is_hsdir);

    stats.circ_minor_event(
        "31",
        "CANNIBALIZED",
        "HS_CLIENT_HSDIR",
        Some("HSCI_CONNECTING"),
        Some("HS_VANGUARDS"),
        None,
        &[],
    );

    let circ = stats.circs.get("31").unwrap();
    assert!(circ.is_hsdir);
    assert!(!circ.is_service);
}

#[test]
fn test_circ_minor_cannibalized_to_serv_intro() {
    let mut stats = BandwidthStats::new();

    stats.circ_event("32", "LAUNCHED", "HS_VANGUARDS", None, &[], None, ms(1000.0));
    stats.circ_event("32", "BUILT", "HS_VANGUARDS", None, &[], None, ms(1001.0));

    let circ = stats.circs.get("32").unwrap();
    assert!(!circ.is_serv_intro);

    stats.circ_minor_event(
        "32",
        "CANNIBALIZED",
        "HS_SERVICE_INTRO",
        Some("HSSI_CONNECTING"),
        Some("HS_VANGUARDS"),
        None,
        &[],
    );

    let circ = stats.circs.get("32").unwrap();
    assert!(circ.is_serv_intro);
    assert!(circ.is_service);
}

#[test]
fn test_tor_bug_29699_workaround() {
    let mut stats = BandwidthStats::new();
    let config = BandguardsConfig::default();

    stats.circ_event(
        "40",
        "LAUNCHED",
        "HS_SERVICE_INTRO",
        Some("HSSI_ESTABLISHED"),
        &[],
        None,
        ms(1000.0),
    );
    stats.circ_event(
        "40",
        "BUILT",
        "HS_SERVICE_INTRO",
        Some("HSSI_ESTABLISHED"),
        &[],
        None,
        ms(1001.0),
    );

    stats.circbw_event("40", CELL_PAYLOAD_SIZE, 0, 0, 0, 0, 0, ms(1002.0));

    let result = stats.check_circuit_limits("40", &config);
    assert!(matches!(
        result,
        CircuitLimitResult::TorBug {
            bug_id: "#29699",
            ..
        }
    ));
}

#[test]
fn test_tor_bug_29700_workaround() {
    let mut stats = BandwidthStats::new();
    let config = BandguardsConfig::default();

    stats.circ_event(
        "41",
        "LAUNCHED",
        "HS_SERVICE_REND",
        Some("HSSR_CONNECTING"),
        &[],
        None,
        ms(1000.0),
    );
    stats.circ_event(
        "41",
        "BUILT",
        "HS_SERVICE_REND",
        Some("HSSR_CONNECTING"),
        &[],
        None,
        ms(1001.0),
    );

    stats.circbw_event("41", CELL_PAYLOAD_SIZE, 0, 0, 0, 0, 0, ms(1002.0));

    let result = stats.check_circuit_limits("41", &config);
    assert!(matches!(
        result,
        CircuitLimitResult::TorBug {
            bug_id: "#29700",
            ..
        }
    ));
}

#[test]
fn test_tor_bug_29786_workaround() {
    let mut stats = BandwidthStats::new();
    let config = BandguardsConfig::default();

    stats.circ_event(
        "42",
        "LAUNCHED",
        "PATH_BIAS_TESTING",
        None,
        &[],
        None,
        ms(1000.0),
    );
    stats.circ_event("42", "BUILT", "PATH_BIAS_TESTING", None, &[], None, ms(1001.0));

    stats.circbw_event("42", CELL_PAYLOAD_SIZE, 0, 0, 0, 0, 0, ms(1002.0));

    let result = stats.check_circuit_limits("42", &config);
    assert!(matches!(
        result,
        CircuitLimitResult::TorBug {
            bug_id: "#29786",
            ..
        }
    ));
}

#[test]
fn test_tor_bug_29927_workaround() {
    let mut stats = BandwidthStats::new();
    let config = BandguardsConfig::default();

    stats.circ_event(
        "43",
        "LAUNCHED",
        "HS_CLIENT_INTRO",
        Some("HSCI_DONE"),
        &[],
        None,
        ms(1000.0),
    );
    stats.circ_event(
        "43",
        "BUILT",
        "HS_CLIENT_INTRO",
        Some("HSCI_DONE"),
        &[],
        None,
        ms(1001.0),
    );

    stats.circbw_event("43", CELL_PAYLOAD_SIZE, 0, 0, 0, 0, 0, ms(1002.0));

    let result = stats.check_circuit_limits("43", &config);
    assert!(matches!(
        result,
        CircuitLimitResult::TorBug {
            bug_id: "#29927",
            ..
        }
    ));
}

#[test]
fn test_stray_circ_minor_event() {
    let mut stats = BandwidthStats::new();

    stats.circ_minor_event(
        "999",
        "CANNIBALIZED",
        "HS_SERVICE_REND",
        Some("HSSR_CONNECTING"),
        Some("HS_VANGUARDS"),
        None,
        &[],
    );

    assert!(!stats.circs.contains_key("999"));
}

#[test]
fn service_side_follows_the_purpose_prefix() {
    let mut stats = BandwidthStats::new();
    stats.circ_event("1", "LAUNCHED", "GENERAL", None, &[], None, ms(1.0));
    stats.circ_event("2", "LAUNCHED", "HS_VANGUARDS", None, &[], None, ms(1.0));
    stats.circ_event("3", "LAUNCHED", "HS_CLIENT_REND", None, &[], None, ms(1.0));
    stats.circ_event("4", "LAUNCHED", "HS_SERVICE_INTRO", None, &[], None, ms(1.0));
    let flags = |id: &str| {
        let c = stats.circs.get(id).unwrap();
        (c.is_hs, c.is_service, c.is_serv_intro)
    };
    assert_eq!(flags("1"), (false, false, false));
    assert_eq!(flags("2"), (true, false, false));
    assert_eq!(flags("3"), (true, false, false));
    assert_eq!(flags("4"), (true, true, true));
}
