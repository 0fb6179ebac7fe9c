use vanguards_rs::config::{LogLevel, LogguardConfig};
use vanguards_rs::logguard::{format_timestamp, LogEntry, LogGuard};

/// Milliseconds since the epoch for a time given in seconds.
fn ms(secs: f64) -> u64 {
    (secs * 1000.0) as u64
}

/// Seconds for a time given in milliseconds since the epoch.
fn secs(ms: u64) -> f64 {
    ms as f64 / 1000.0
}


#[test]
fn test_log_entry_new() {
    let entry = LogEntry::new("NOTICE", "Test message");
    assert_eq!(entry.runlevel, "NOTICE");
    assert_eq!(entry.message, "Test message");
    assert!(secs(entry.arrived_at) > 0.0);
}

#[test]
fn test_log_entry_with_timestamp() {
    let entry = LogEntry::with_timestamp("WARN", "Warning", ms(1234567890.5));
    assert_eq!(entry.runlevel, "WARN");
    assert_eq!(entry.message, "Warning");
    assert!((secs(entry.arrived_at) - 1234567890.5).abs() < 0.001);
}

#[test]
fn test_log_entry_format() {
    let entry = LogEntry::with_timestamp("NOTICE", "Test", ms(1234567890.0));
    let formatted = entry.format();
    assert!(formatted.contains("TOR_NOTICE"));
    assert!(formatted.contains("Test"));
}

#[test]
fn test_logguard_new() {
    let config = LogguardConfig::default();
    let guard = LogGuard::new(&config);
    assert_eq!(guard.log_limit, 25);
    assert_eq!(guard.log_level, LogLevel::Notice);
    assert!(guard.log_buffer.is_empty());
}

#[test]
fn test_logguard_log_event() {
    let config = LogguardConfig::default();
    let mut guard = LogGuard::new(&config);

    guard.log_event("NOTICE", "Test message 1");
    guard.log_event("WARN", "Test message 2");

    assert_eq!(guard.buffer_len(), 2);
}

#[test]
fn test_logguard_buffer_limit() {
    let config = LogguardConfig {
        dump_limit: 3,
        ..Default::default()
    };
    let mut guard = LogGuard::new(&config);

    for i in 0..5 {
        guard.log_event("NOTICE", &format!("Message {}", i));
    }

    assert_eq!(guard.buffer_len(), 3);
    let first = guard.log_buffer.front().unwrap();
    assert_eq!(first.message, "Message 2");
}

#[test]
fn test_logguard_clear() {
    let config = LogguardConfig::default();
    let mut guard = LogGuard::new(&config);

    guard.log_event("NOTICE", "Test");
    assert_eq!(guard.buffer_len(), 1);

    guard.clear();
    assert_eq!(guard.buffer_len(), 0);
}

#[test]
fn test_get_log_event_types_debug() {
    let events = LogGuard::get_log_event_types(LogLevel::Debug);
    assert!(events.contains(&"DEBUG"));
    assert!(events.contains(&"INFO"));
    assert!(events.contains(&"NOTICE"));
    assert!(events.contains(&"WARN"));
    assert!(events.contains(&"ERR"));
}

#[test]
fn test_get_log_event_types_notice() {
    let events = LogGuard::get_log_event_types(LogLevel::Notice);
    assert!(!events.contains(&"DEBUG"));
    assert!(!events.contains(&"INFO"));
    assert!(events.contains(&"NOTICE"));
    assert!(events.contains(&"WARN"));
    assert!(events.contains(&"ERR"));
}

#[test]
fn test_get_log_event_types_error() {
    let events = LogGuard::get_log_event_types(LogLevel::Error);
    assert!(!events.contains(&"DEBUG"));
    assert!(!events.contains(&"INFO"));
    assert!(!events.contains(&"NOTICE"));
    assert!(!events.contains(&"WARN"));
    assert!(events.contains(&"ERR"));
}

#[test]
fn test_logguard_init() {
    let config = LogguardConfig {
        dump_level: LogLevel::Debug,
        dump_limit: 25,
        protocol_warns: true,
    };
    let lg = LogGuard::new(&config);

    assert_eq!(lg.buffer_len(), 0);
}

#[test]
fn test_log_event_buffering() {
    let config = LogguardConfig::default();
    let mut lg = LogGuard::new(&config);

    lg.log_event("WARN", "whatever");
    assert_eq!(lg.buffer_len(), 1);
}

#[test]
fn test_circ_event_clears_buffer() {
    let config = LogguardConfig::default();
    let mut lg = LogGuard::new(&config);

    lg.log_event("WARN", "whatever");
    assert_eq!(lg.buffer_len(), 1);

    lg.circ_event("2", "FAILED", Some("REQUESTED"));
    assert_eq!(lg.buffer_len(), 0);
}

#[test]
fn test_circ_event_non_requested_doesnt_clear() {
    let config = LogguardConfig::default();
    let mut lg = LogGuard::new(&config);

    lg.log_event("WARN", "whatever");
    assert_eq!(lg.buffer_len(), 1);

    lg.circ_event("2", "CLOSED", Some("FINISHED"));
    assert_eq!(lg.buffer_len(), 1);
}

#[test]
fn test_buffer_limit_from_unit() {
    let config = LogguardConfig {
        dump_limit: 25,
        ..Default::default()
    };
    let mut lg = LogGuard::new(&config);

    for i in 0..(2 * config.dump_limit) {
        lg.log_event("WARN", &format!("message {}", i));
    }

    assert_eq!(lg.buffer_len(), config.dump_limit);
}

#[test]
fn test_closing_circuit_with_empty_log() {
    let config = LogguardConfig::default();
    let mut lg = LogGuard::new(&config);

    lg.circ_event("3", "FAILED", Some("REQUESTED"));
    assert_eq!(lg.buffer_len(), 0);
}

#[test]
fn test_buffer_fifo_order() {
    let config = LogguardConfig {
        dump_limit: 3,
        ..Default::default()
    };
    let mut lg = LogGuard::new(&config);

    for i in 0..5 {
        lg.log_event("NOTICE", &format!("Message {}", i));
    }

    assert_eq!(lg.buffer_len(), 3);
    let first = lg.log_buffer.front().unwrap();
    assert_eq!(first.message, "Message 2");
}
#[test]
fn log_entry_format_exact() {
    let entry = LogEntry::with_timestamp("NOTICE", "Test", ms(1234567890.0));
    assert_eq!(entry.format(), "TOR_NOTICE[Fri Feb 13 23:31:30 2009]: Test");
    assert_eq!(format_timestamp(0), "Thu Jan  1 00:00:00 1970");
    // what the calendar cannot hold is shown in seconds
    assert_eq!(format_timestamp(u64::MAX), "18446744073709551.615");
    assert_eq!(format_timestamp(u64::MAX - 610), "18446744073709551.005");
}

#[test]
fn dump_log_queue_hands_out_lines_in_order() {
    let config = LogguardConfig { dump_limit: 2, ..Default::default() };
    let mut lg = LogGuard::new(&config);
    lg.log_event_with_timestamp("INFO", "zero", 0);
    lg.log_event_with_timestamp("INFO", "one", 1000);
    lg.log_event_with_timestamp("WARN", "two", 2000);
    let lines = lg.dump_log_queue("9", "Pre");
    assert_eq!(
        lines,
        vec![
            "Pre-close CIRC ID=9 Tor log: TOR_INFO[Thu Jan  1 00:00:01 1970]: one".to_string(),
            "Pre-close CIRC ID=9 Tor log: TOR_WARN[Thu Jan  1 00:00:02 1970]: two".to_string(),
        ]
    );
    assert_eq!(lg.buffer_len(), 0);
    lg.log_event_with_timestamp("ERR", "three", 3000);
    let lines = lg.circ_event("5", "CLOSED", Some("REQUESTED"));
    assert_eq!(lines, vec!["Post-close CIRC ID=5 Tor log: TOR_ERR[Thu Jan  1 00:00:03 1970]: three".to_string()]);
    assert!(lg.circ_event("5", "BUILT", Some("REQUESTED")).is_empty());
    assert_eq!(lg.log_warn_event("careful"), "Tor log warn: careful");
}

#[test]
fn log_event_types_in_order() {
    assert_eq!(LogGuard::get_log_event_types(LogLevel::Debug), vec!["DEBUG", "INFO", "NOTICE", "WARN", "ERR"]);
    assert_eq!(LogGuard::get_log_event_types(LogLevel::Info), vec!["INFO", "NOTICE", "WARN", "ERR"]);
    assert_eq!(LogGuard::get_log_event_types(LogLevel::Warn), vec!["WARN", "ERR"]);
}
