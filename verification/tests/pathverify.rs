use vanguards_rs::pathverify::{routelen, Layer1Guards, Layer1Stats, PathIssue, PathVerify};
use vanguards_rs::strmap::StrMap;


#[test]
fn test_layer1_stats_new() {
    let stats = Layer1Stats::new();
    assert_eq!(stats.use_count, 0);
    assert_eq!(stats.conn_count, 1);
}

#[test]
fn test_layer1_guards_new() {
    let guards = Layer1Guards::new(2);
    assert!(guards.guards.is_empty());
    assert_eq!(guards.num_layer1, 2);
}

#[test]
fn test_layer1_guards_add_conn() {
    let mut guards = Layer1Guards::new(2);
    let fp = "A".repeat(40);

    guards.add_conn(&fp);
    assert!(guards.guards.contains_key(&fp));
    assert_eq!(guards.guards.get(&fp).unwrap().conn_count, 1);

    guards.add_conn(&fp);
    assert_eq!(guards.guards.get(&fp).unwrap().conn_count, 2);
}

#[test]
fn test_layer1_guards_del_conn() {
    let mut guards = Layer1Guards::new(2);
    let fp = "A".repeat(40);

    guards.add_conn(&fp);
    guards.add_conn(&fp);
    assert_eq!(guards.guards.get(&fp).unwrap().conn_count, 2);

    guards.del_conn(&fp);
    assert_eq!(guards.guards.get(&fp).unwrap().conn_count, 1);

    guards.del_conn(&fp);
    assert!(!guards.guards.contains_key(&fp));
}

#[test]
fn test_layer1_guards_add_use_count() {
    let mut guards = Layer1Guards::new(2);
    let fp = "A".repeat(40);

    guards.add_conn(&fp);
    guards.add_use_count(&fp);
    guards.add_use_count(&fp);

    assert_eq!(guards.guards.get(&fp).unwrap().use_count, 2);
}

#[test]
fn test_path_verify_new() {
    let verifier = PathVerify::new(true, 2, 4, 8);
    assert!(verifier.full_vanguards);
    assert_eq!(verifier.num_layer1, 2);
    assert_eq!(verifier.num_layer2, 4);
    assert_eq!(verifier.num_layer3, 8);
    assert!(verifier.layer2.is_empty());
    assert!(verifier.layer3.is_empty());
}

#[test]
fn test_path_verify_init_layers() {
    let mut verifier = PathVerify::new(false, 2, 4, 8);

    verifier.init_layers(
        Some("AAAA,BBBB,CCCC,DDDD"),
        Some("1111,2222,3333,4444,5555,6666,7777,8888"),
    );

    assert!(verifier.full_vanguards);
    assert_eq!(verifier.layer2.len(), 4);
    assert_eq!(verifier.layer3.len(), 8);
    assert!(verifier.layer2.contains("AAAA"));
    assert!(verifier.layer3.contains("1111"));
}

#[test]
fn test_routelen_for_purpose_full() {
    let verifier = PathVerify::new(true, 2, 4, 8);

    assert_eq!(verifier.routelen_for_purpose("HS_VANGUARDS"), Some(4));
    assert_eq!(verifier.routelen_for_purpose("HS_CLIENT_HSDIR"), Some(5));
    assert_eq!(verifier.routelen_for_purpose("HS_CLIENT_INTRO"), Some(5));
    assert_eq!(verifier.routelen_for_purpose("HS_CLIENT_REND"), Some(4));
    assert_eq!(verifier.routelen_for_purpose("HS_SERVICE_HSDIR"), Some(4));
    assert_eq!(verifier.routelen_for_purpose("HS_SERVICE_INTRO"), Some(4));
    assert_eq!(verifier.routelen_for_purpose("HS_SERVICE_REND"), Some(5));
    assert_eq!(verifier.routelen_for_purpose("GENERAL"), None);
}

#[test]
fn test_routelen_for_purpose_lite() {
    let verifier = PathVerify::new(false, 1, 4, 0);

    assert_eq!(verifier.routelen_for_purpose("HS_VANGUARDS"), Some(3));
    assert_eq!(verifier.routelen_for_purpose("HS_CLIENT_HSDIR"), Some(4));
    assert_eq!(verifier.routelen_for_purpose("HS_CLIENT_INTRO"), Some(4));
    assert_eq!(verifier.routelen_for_purpose("HS_CLIENT_REND"), Some(3));
    assert_eq!(verifier.routelen_for_purpose("HS_SERVICE_HSDIR"), Some(4));
    assert_eq!(verifier.routelen_for_purpose("HS_SERVICE_INTRO"), Some(4));
    assert_eq!(verifier.routelen_for_purpose("HS_SERVICE_REND"), Some(4));
}

#[test]
fn test_orconn_event() {
    let mut verifier = PathVerify::new(true, 2, 4, 8);
    let fp = "A".repeat(40);

    verifier.orconn_event(&fp, "CONNECTED");
    assert!(verifier.layer1.guards.contains_key(&fp));

    verifier.orconn_event(&fp, "CLOSED");
    assert!(!verifier.layer1.guards.contains_key(&fp));
}

#[test]
fn test_guard_event() {
    let mut verifier = PathVerify::new(true, 2, 4, 8);
    let fp = "A".repeat(40);

    verifier.guard_event(&fp, "GOOD_L2");
    assert!(verifier.layer2.contains(&fp));

    verifier.guard_event(&fp, "BAD_L2");
    assert!(!verifier.layer2.contains(&fp));
}

#[test]
fn test_conf_changed_event() {
    let mut verifier = PathVerify::new(false, 2, 4, 8);

    let mut changed = StrMap::new();
    changed.insert(
        "HSLayer2Nodes".to_string(),
        vec!["AAAA,BBBB,CCCC,DDDD".to_string()],
    );

    verifier.conf_changed_event(&changed);

    assert!(verifier.full_vanguards);
    assert_eq!(verifier.layer2.len(), 4);
}

#[test]
fn test_check_conn_counts_correct() {
    let mut guards = Layer1Guards::new(2);
    guards.add_conn(&"A".repeat(40));
    guards.add_conn(&"B".repeat(40));

    assert_eq!(guards.check_conn_counts(), 0);
}

#[test]
fn test_check_conn_counts_fewer() {
    let mut guards = Layer1Guards::new(2);
    guards.add_conn(&"A".repeat(40));

    assert_eq!(guards.check_conn_counts(), -1);
}

#[test]
fn test_check_conn_counts_more() {
    let mut guards = Layer1Guards::new(2);
    guards.add_conn(&"A".repeat(40));
    guards.add_conn(&"B".repeat(40));
    guards.add_conn(&"C".repeat(40));

    assert_eq!(guards.check_conn_counts(), 1);
}

#[test]
fn test_pathverify_init_correct_counts() {
    let mut pv = PathVerify::new(true, 2, 3, 8);

    pv.layer2
        .insert("5416F3E8F80101A133B1970495B04FDBD1C7446B".to_string());
    pv.layer2
        .insert("855BC2DABE24C861CD887DB9B2E950424B49FC34".to_string());
    pv.layer2
        .insert("1F9544C0A80F1C5D8A5117FBFFB50694469CC7F4".to_string());

    for i in 0..8 {
        pv.layer3.insert(format!("{:0>40X}", i));
    }

    pv.layer1
        .add_conn("66CA5474346F35E375C4D4514C51A540545347EE");
    pv.layer1
        .add_conn("5416F3E8F80101A133B1970495B04FDBD1C7446B");

    assert_eq!(pv.layer1.check_conn_counts(), 0);
    assert!(pv.check_layer_counts());
}

#[test]
fn test_pathverify_too_many_guards() {
    let mut pv = PathVerify::new(true, 2, 3, 8);

    pv.layer1
        .add_conn("66CA5474346F35E375C4D4514C51A540545347EE");
    pv.layer1
        .add_conn("5416F3E8F80101A133B1970495B04FDBD1C7446B");
    pv.layer1
        .add_conn("3E53D3979DB07EFD736661C934A1DED14127B684");

    assert_eq!(pv.layer1.check_conn_counts(), 1);
}

#[test]
fn test_pathverify_too_few_guards() {
    let mut pv = PathVerify::new(true, 2, 3, 8);

    pv.layer1
        .add_conn("66CA5474346F35E375C4D4514C51A540545347EE");

    assert_eq!(pv.layer1.check_conn_counts(), -1);
}

#[test]
fn test_layer1_use_counts() {
    let mut pv = PathVerify::new(true, 2, 4, 8);

    pv.layer1
        .add_conn("5416F3E8F80101A133B1970495B04FDBD1C7446B");
    pv.layer1
        .add_conn("66CA5474346F35E375C4D4514C51A540545347EE");

    pv.layer1
        .add_use_count("5416F3E8F80101A133B1970495B04FDBD1C7446B");

    assert_eq!(pv.layer1.check_use_counts(), -1);

    pv.layer1
        .add_use_count("66CA5474346F35E375C4D4514C51A540545347EE");

    assert_eq!(pv.layer1.check_use_counts(), 0);
}

#[test]
fn test_layer1_too_many_in_use() {
    let mut pv = PathVerify::new(true, 2, 4, 8);

    pv.layer1
        .add_conn("5416F3E8F80101A133B1970495B04FDBD1C7446B");
    pv.layer1
        .add_conn("66CA5474346F35E375C4D4514C51A540545347EE");
    pv.layer1
        .add_conn("5416F3E8F80101A133B1970495B04FDBD1C7446D");

    pv.layer1
        .add_use_count("5416F3E8F80101A133B1970495B04FDBD1C7446B");
    pv.layer1
        .add_use_count("66CA5474346F35E375C4D4514C51A540545347EE");
    pv.layer1
        .add_use_count("5416F3E8F80101A133B1970495B04FDBD1C7446D");

    assert_eq!(pv.layer1.check_use_counts(), 1);
}

#[test]
fn test_conf_changed_event_both_layers() {
    let mut pv = PathVerify::new(false, 2, 4, 8);

    let mut changed = StrMap::new();
    changed.insert(
        "HSLayer2Nodes".to_string(),
        vec!["5416F3E8F80101A133B1970495B04FDBD1C7446D".to_string()],
    );
    changed.insert(
        "HSLayer3Nodes".to_string(),
        vec!["5416F3E8F80101A133B1970495B04FDBD1C7446D".to_string()],
    );

    pv.conf_changed_event(&changed);

    assert!(pv.full_vanguards);
    assert_eq!(pv.layer2.len(), 1);
    assert_eq!(pv.layer3.len(), 1);
}

#[test]
fn test_init_layers_vanguards_lite() {
    let mut pv = PathVerify::new(false, 2, 4, 8);

    pv.init_layers(None, None);

    assert!(!pv.full_vanguards);
    assert_eq!(pv.num_layer1, 1);
    assert_eq!(pv.num_layer2, 4);
    assert_eq!(pv.num_layer3, 0);
}
fn hops(fps: &[&str]) -> Vec<(String, Option<String>)> {
    fps.iter().map(|f| (f.to_string(), None)).collect()
}

#[test]
fn routelen_tables_enumerated() {
    let full = [
        ("HS_VANGUARDS", 4),
        ("HS_CLIENT_HSDIR", 5),
        ("HS_CLIENT_INTRO", 5),
        ("HS_CLIENT_REND", 4),
        ("HS_SERVICE_HSDIR", 4),
        ("HS_SERVICE_INTRO", 4),
        ("HS_SERVICE_REND", 5),
    ];
    let lite = [
        ("HS_VANGUARDS", 3),
        ("HS_CLIENT_HSDIR", 4),
        ("HS_CLIENT_INTRO", 4),
        ("HS_CLIENT_REND", 3),
        ("HS_SERVICE_HSDIR", 4),
        ("HS_SERVICE_INTRO", 4),
        ("HS_SERVICE_REND", 4),
    ];
    for (purpose, len) in full {
        assert_eq!(routelen(true, purpose), Some(len));
    }
    for (purpose, len) in lite {
        assert_eq!(routelen(false, purpose), Some(len));
    }
    assert_eq!(routelen(true, "GENERAL"), None);
    assert_eq!(routelen(false, "HS_"), None);
}

#[test]
fn circ_event_lists_issues_in_order() {
    let mut pv = PathVerify::new(true, 1, 2, 1);
    pv.init_layers(Some("L2A, L2B"), Some("L3A"));
    pv.orconn_event("G1", "CONNECTED");
    // a clean four-hop service circuit
    let issues = pv.circ_event("1", "BUILT", "HS_SERVICE_INTRO", None, &hops(&["G1", "L2A", "L3A", "X"]));
    assert!(issues.is_empty());
    assert_eq!(pv.layer1.guards.get("G1").unwrap().use_count, 1);
    // everything wrong at once
    let issues = pv.circ_event(
        "2",
        "GUARD_WAIT",
        "HS_CLIENT_INTRO",
        Some("HSCI_CONNECTING"),
        &hops(&["G2", "BAD2", "BAD3"]),
    );
    assert_eq!(
        issues,
        vec![
            PathIssue::PathLength { actual: 3, expected: 5, benign: true },
            PathIssue::Layer1Unknown,
            PathIssue::Layer2Unknown,
            PathIssue::Layer3Unknown,
        ]
    );
    // events that are not checked change nothing
    assert!(pv.circ_event("3", "EXTENDED", "HS_VANGUARDS", None, &hops(&["G1"])).is_empty());
    assert!(pv.circ_event("3", "BUILT", "GENERAL", None, &hops(&["G1"])).is_empty());
    assert_eq!(pv.layer1.guards.get("G1").unwrap().use_count, 1);
    pv.guard_event("L2C", "GOOD_L2");
    let issues = pv.circ_event("4", "BUILT", "HS_VANGUARDS", None, &hops(&[]));
    assert_eq!(
        issues,
        vec![PathIssue::PathLength { actual: 0, expected: 4, benign: false }, PathIssue::Layer2Count]
    );
}

#[test]
fn circ_minor_event_lists_issues() {
    let mut pv = PathVerify::new(true, 1, 1, 0);
    pv.init_layers(Some("L2A"), None);
    assert_eq!(
        pv.circ_minor_event("1", "HS_CLIENT_REND", Some("GENERAL"), &hops(&["G", "L2A", "Z"])),
        vec![PathIssue::BecameHs, PathIssue::Layer1Unknown]
    );
    assert_eq!(
        pv.circ_minor_event("1", "GENERAL", Some("HS_VANGUARDS"), &hops(&["G", "NOPE"])),
        vec![PathIssue::LeftHs, PathIssue::Layer1Unknown, PathIssue::Layer2Unknown]
    );
    assert!(pv.circ_minor_event("1", "CIRCUIT_PADDING", Some("HS_VANGUARDS"), &hops(&[])).is_empty());
    assert!(pv.circ_minor_event("1", "GENERAL", None, &hops(&["G"])).is_empty());
}
