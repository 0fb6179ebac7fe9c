use vanguards_rs::bandguards::{BwDeltas, CircuitLimitResult, ConnectivityStatus};
use vanguards_rs::config::{Config, LogguardConfig};
use vanguards_rs::control::{
    check_all_limits, handle_bw_event, handle_buildtimeout_set_event, handle_circ_event,
    handle_circ_minor_raw, handle_circbw_event, handle_conf_changed_event, handle_guard_event,
    handle_log_event, handle_network_liveness_event, handle_orconn_event, sorted_routers,
    try_close_circuit, AppState, CircEvent,
};
use vanguards_rs::error::Error;
use vanguards_rs::ipnet::IpAddress;
use vanguards_rs::logguard::LogGuard;
use vanguards_rs::node_selection::Router;
use vanguards_rs::pathverify::{PathIssue, PathVerify};
use vanguards_rs::rendguard::RendCheckResult;
use vanguards_rs::strmap::StrMap;
use vanguards_rs::vanguards::{RendUseCount, VanguardState};

fn all_on() -> AppState {
    let mut config = Config::default();
    config.enable_cbtverify = true;
    config.enable_pathverify = true;
    let mut state = AppState::new_at(VanguardState::new("s"), config, 1000);
    state.logguard = Some(LogGuard::new(&LogguardConfig::default()));
    state.pathverify = Some(PathVerify::new(true, 2, 4, 8));
    state
}

fn circ(id: &str, status: &str, purpose: Option<&str>, hs_state: Option<&str>, path: &[&str]) -> CircEvent {
    CircEvent {
        id: id.to_string(),
        status: status.to_string(),
        purpose: purpose.map(|p| p.to_string()),
        hs_state: hs_state.map(|p| p.to_string()),
        reason: None,
        path: path.iter().map(|f| (f.to_string(), None)).collect(),
    }
}

fn deltas(read: u64, delivered_read: u64) -> BwDeltas {
    BwDeltas { read, written: 0, delivered_read, delivered_written: 0, overhead_read: 0, overhead_written: 0 }
}

#[test]
fn circ_event_reaches_every_monitor() {
    let mut state = all_on();
    let launched = circ("10", "LAUNCHED", None, None, &[]);
    let report = handle_circ_event(&mut state, &launched, 2000).unwrap();
    assert_eq!(report.rend_check, RendCheckResult::Valid);
    assert_eq!(report.destroyed, None);
    assert!(report.path_issues.is_empty() && report.log_lines.is_empty() && !report.turned_hs);
    let seen = state.bandwidth_stats.circs.get("10").unwrap();
    assert_eq!(seen.purpose.as_deref(), Some("GENERAL"));
    assert_eq!(seen.created_at, 2000);
    assert_eq!(state.timeout_stats.all_launched, 1);

    let built = circ("10", "BUILT", Some("HS_SERVICE_REND"), Some("HSSR_CONNECTING"), &["G", "M", "RP"]);
    let report = handle_circ_event(&mut state, &built, 3000).unwrap();
    assert!(report.turned_hs);
    assert_eq!(state.timeout_stats.all_built, 1);
    assert_eq!(state.vanguard_state.rendguard.total_use_counts, 1_000_000_000);
    assert_eq!(state.vanguard_state.rendguard.use_counts.get("NOT_IN_CONSENSUS").unwrap().used, 1_000_000_000);
    assert_eq!(
        report.path_issues,
        vec![
            PathIssue::PathLength { actual: 3, expected: 5, benign: false },
            PathIssue::Layer1Unknown,
            PathIssue::TooFewGuardsInUse,
            PathIssue::Layer2Unknown,
            PathIssue::Layer3Unknown,
            PathIssue::Layer2Count,
            PathIssue::Layer3Count,
        ]
    );
    let seen = state.bandwidth_stats.circs.get("10").unwrap();
    assert!(seen.built && seen.in_use && seen.is_service);
    assert_eq!(seen.guard_fp.as_deref(), Some("G"));

    let mut closed = circ("10", "CLOSED", Some("HS_SERVICE_REND"), None, &[]);
    closed.reason = Some("REQUESTED".to_string());
    handle_log_event(&mut state, "INFO", "line", 0);
    let report = handle_circ_event(&mut state, &closed, 4000).unwrap();
    assert_eq!(report.destroyed, Some(false));
    assert_eq!(report.log_lines, vec!["Post-close CIRC ID=10 Tor log: TOR_INFO[Thu Jan  1 00:00:00 1970]: line".to_string()]);
    assert_eq!(state.bandwidth_stats.circuit_count(), 0);
}

#[test]
fn circ_event_reports_overused_rendezvous_point() {
    let mut state = all_on();
    state.config.rendguard.use_global_start_count = 2;
    state.config.rendguard.use_relay_start_count = 2;
    state.vanguard_state.rendguard.use_counts.insert("RP".to_string(), RendUseCount::new("RP".to_string(), 10_000_000));
    let event = circ("1", "EXTENDED", Some("HS_SERVICE_REND"), Some("HSSR_CONNECTING"), &["G", "RP"]);
    assert_eq!(handle_circ_event(&mut state, &event, 0).unwrap().rend_check, RendCheckResult::Valid);
    match handle_circ_event(&mut state, &event, 0).unwrap().rend_check {
        RendCheckResult::Overused { fingerprint, usage_rate, expected_weight } => {
            assert_eq!(fingerprint, "RP");
            assert_eq!(usage_rate, 100_000_000_000);
            assert_eq!(expected_weight, 1_000_000_000);
        }
        RendCheckResult::Valid => panic!("expected an overused rendezvous point"),
    }
}

#[test]
fn circ_event_without_room_changes_nothing() {
    let mut state = all_on();
    state.timeout_stats.all_launched = u64::MAX;
    let r = handle_circ_event(&mut state, &circ("1", "LAUNCHED", None, None, &[]), 0);
    assert!(matches!(r, Err(Error::Validation(_))));
    assert_eq!(state.bandwidth_stats.circuit_count(), 0);
    assert_eq!(state.timeout_stats.pending_count(), 0);
}

#[test]
fn bandwidth_events_and_verdicts() {
    let mut state = all_on();
    state.config.bandguards.circ_max_megabytes = 1;
    for id in ["1", "2", "3"] {
        handle_circ_event(&mut state, &circ(id, "BUILT", Some("HS_VANGUARDS"), None, &["G"]), 0).unwrap();
    }
    handle_circbw_event(&mut state, "1", deltas(509, 498), 0).unwrap();
    handle_circbw_event(&mut state, "2", deltas(509, 0), 0).unwrap();
    handle_circbw_event(&mut state, "3", deltas(2 * 1048576, (2 * 1048576 / 509) * 498), 0).unwrap();
    handle_circbw_event(&mut state, "unknown", deltas(1, 1), 0).unwrap();
    let verdicts: Vec<(String, CircuitLimitResult)> =
        check_all_limits(&state).into_iter().map(|v| (v.circ_id, v.result)).collect();
    assert_eq!(
        verdicts,
        vec![
            ("2".to_string(), CircuitLimitResult::DroppedCells { dropped_cells: 1 }),
            ("3".to_string(), CircuitLimitResult::MaxBytesExceeded { bytes: 2097152, limit: 1048576 }),
        ]
    );
    assert!(matches!(
        handle_circbw_event(&mut state, "1", deltas(u64::MAX, 0), 0),
        Err(Error::Validation(_))
    ));
    assert_eq!(state.bandwidth_stats.circs.get("1").unwrap().read_bytes, 509);

    handle_log_event(&mut state, "WARN", "careful", 1000);
    let decision = try_close_circuit(&mut state, "2");
    assert!(decision.close);
    assert_eq!(decision.log_lines, vec!["Pre-close CIRC ID=2 Tor log: TOR_WARN[Thu Jan  1 00:00:01 1970]: careful".to_string()]);
    state.config.close_circuits = false;
    let decision = try_close_circuit(&mut state, "2");
    assert!(!decision.close && decision.log_lines.is_empty());

    state.config.enable_bandguards = false;
    assert!(check_all_limits(&state).is_empty());
    handle_circbw_event(&mut state, "1", deltas(1, 1), 0).unwrap();
    assert_eq!(state.bandwidth_stats.circs.get("1").unwrap().read_bytes, 509);
}

#[test]
fn connection_events_and_connectivity() {
    let mut state = all_on();
    assert_eq!(handle_orconn_event(&mut state, "5", "$GUARD~nick", "CONNECTED", None, 2000).unwrap(), Some(-1));
    assert!(state.bandwidth_stats.live_guard_conns.contains_key("5"));
    assert_eq!(state.bandwidth_stats.guards.get("$GUARD~nick").unwrap().conns_made, 1);
    assert!(state.pathverify.as_ref().unwrap().layer1.contains("GUARD"));
    assert_eq!(handle_bw_event(&mut state, 60_000), ConnectivityStatus::Connected);
    handle_orconn_event(&mut state, "5", "$GUARD~nick", "CLOSED", Some("DONE"), 10_000).unwrap();
    assert_eq!(state.bandwidth_stats.no_conns_since, Some(10_000));
    assert!(!state.pathverify.as_ref().unwrap().layer1.contains("GUARD"));
    assert_eq!(handle_bw_event(&mut state, 24_999), ConnectivityStatus::Connected);
    assert_eq!(handle_bw_event(&mut state, 25_000), ConnectivityStatus::NoConnections { secs: 15 });
    assert_eq!(handle_bw_event(&mut state, 26_000), ConnectivityStatus::Connected);
    assert_eq!(handle_bw_event(&mut state, 40_999), ConnectivityStatus::NoConnections { secs: 30 });

    handle_network_liveness_event(&mut state, "DOWN", 7);
    assert_eq!(state.bandwidth_stats.network_down_since, Some(7));
    handle_network_liveness_event(&mut state, "UP", 8);
    assert_eq!(state.bandwidth_stats.network_down_since, None);
}

#[test]
fn other_events() {
    let mut state = all_on();
    handle_guard_event(&mut state, "L2", "GOOD_L2");
    assert!(state.pathverify.as_ref().unwrap().layer2.contains("L2"));
    handle_guard_event(&mut state, "L2", "BAD_L2");
    assert!(state.pathverify.as_ref().unwrap().layer2.is_empty());

    let mut changed: StrMap<Vec<String>> = StrMap::new();
    changed.insert("HSLayer2Nodes".to_string(), vec!["A,B,C,D".to_string()]);
    assert_eq!(handle_conf_changed_event(&mut state, &changed), Some(true));
    assert_eq!(state.pathverify.as_ref().unwrap().layer2.len(), 4);

    let report = handle_buildtimeout_set_event(&mut state, "RESET", Some(100_000_000)).unwrap();
    assert_eq!(report.reported_rate, 100_000_000);
    assert!(!state.timeout_stats.record_timeouts);
    assert!(handle_buildtimeout_set_event(&mut state, "COMPUTED", None).is_none());
    assert!(state.timeout_stats.record_timeouts);

    assert_eq!(handle_log_event(&mut state, "WARN", "m", 0).as_deref(), Some("Tor log warn: m"));
    assert_eq!(handle_log_event(&mut state, "NOTICE", "m", 0), None);
    assert_eq!(state.logguard.as_ref().unwrap().buffer_len(), 2);

    handle_circ_event(&mut state, &circ("30", "BUILT", Some("HS_VANGUARDS"), None, &[]), 0).unwrap();
    let issues = handle_circ_minor_raw(
        &mut state,
        "30 PURPOSE_CHANGED $G~n,A PURPOSE=HS_SERVICE_REND HS_STATE=HSSR_CONNECTING OLD_PURPOSE=HS_VANGUARDS",
    );
    assert_eq!(issues, vec![PathIssue::Layer1Unknown]);
    let seen = state.bandwidth_stats.circs.get("30").unwrap();
    assert!(seen.in_use);
    assert_eq!(seen.guard_fp.as_deref(), Some("G"));
    assert_eq!(seen.old_purpose.as_deref(), Some("HS_VANGUARDS"));
    assert!(handle_circ_minor_raw(&mut state, "30").is_empty());
}

#[test]
fn routers_are_sorted_by_falling_bandwidth() {
    let routers: Vec<Router> = [(3u64, None), (9, Some(1u64)), (5, None), (0, Some(7))]
        .iter()
        .enumerate()
        .map(|(i, (bw, measured))| {
            let mut r = Router::new(format!("fp{}", i), "n".to_string(), IpAddress::V4(0));
            r.bandwidth = Some(*bw);
            r.measured = *measured;
            r
        })
        .collect();
    let sorted: Vec<String> = sorted_routers(&routers).into_iter().map(|r| r.fingerprint).collect();
    assert_eq!(sorted, vec!["fp3", "fp2", "fp0", "fp1"]);
}

#[test]
fn build_timeout_report_holds_the_measured_rates() {
    let mut state = all_on();
    state.timeout_stats.all_launched = 4;
    state.timeout_stats.all_timeout = 1;
    state.timeout_stats.hs_launched = 2;
    state.timeout_stats.hs_timeout = 1;
    let report = handle_buildtimeout_set_event(&mut state, "COMPUTED", Some(7)).unwrap();
    assert_eq!(report.reported_rate, 7);
    assert_eq!(report.measured_rate, 250_000_000);
    assert_eq!(report.measured_hs_rate, 500_000_000);
    assert_eq!(state.timeout_stats.all_launched, 4);
    let report = handle_buildtimeout_set_event(&mut state, "RESET", Some(9)).unwrap();
    assert_eq!((report.measured_rate, report.measured_hs_rate), (250_000_000, 500_000_000));
    assert_eq!(state.timeout_stats.all_launched, 0);
    state.config.enable_cbtverify = false;
    assert!(handle_buildtimeout_set_event(&mut state, "COMPUTED", Some(7)).is_none());
}

#[test]
fn layer_events_leave_the_configured_sizes() {
    let mut state = all_on();
    state.pathverify = Some(PathVerify::new(false, 2, 4, 8));
    let sizes = |s: &AppState| {
        let pv = s.pathverify.as_ref().unwrap();
        (pv.full_vanguards, pv.num_layer1, pv.num_layer2, pv.num_layer3, pv.layer1.num_layer1)
    };
    handle_guard_event(&mut state, "L2", "GOOD_L2");
    assert_eq!(sizes(&state), (false, 2, 4, 8, 2));
    handle_orconn_event(&mut state, "1", "$G~n", "CONNECTED", None, 0).unwrap();
    assert_eq!(sizes(&state), (false, 2, 4, 8, 2));

    let mut changed: StrMap<Vec<String>> = StrMap::new();
    changed.insert("HSLayer3Nodes".to_string(), vec!["A,B".to_string(), "C".to_string()]);
    changed.insert("HSLayer2Nodes".to_string(), vec![]);
    assert_eq!(handle_conf_changed_event(&mut state, &changed), Some(false));
    assert_eq!(sizes(&state), (true, 2, 4, 8, 2));
    let pv = state.pathverify.as_ref().unwrap();
    assert!(pv.layer2.contains("L2") && pv.layer2.len() == 1);
    assert!(pv.layer3.contains("A") && pv.layer3.contains("B") && pv.layer3.len() == 2);
}
