use vanguards_rs::error::Error;
use vanguards_rs::ipnet::{parse_address, IpAddress, IpNet};
use vanguards_rs::node_selection::{
    is_valid_country_code, is_valid_fingerprint, is_valid_ip_or_network, BwWeightedGenerator,
    FlagsRestriction, NodeRestriction, NodeRestrictionList, Position, Router,
};
use vanguards_rs::strmap::StrMap;


#[test]
fn test_valid_fingerprints() {
    assert!(is_valid_fingerprint(
        "AABBCCDD00112233445566778899AABBCCDDEEFF"
    ));
    assert!(is_valid_fingerprint(
        "aabbccdd00112233445566778899aabbccddeeff"
    ));
    assert!(is_valid_fingerprint(
        "0123456789abcdefABCDEF0123456789abcdefAB"
    ));
}

#[test]
fn test_invalid_fingerprints() {
    assert!(!is_valid_fingerprint(""));
    assert!(!is_valid_fingerprint("AABBCCDD"));
    assert!(!is_valid_fingerprint(
        "AABBCCDD00112233445566778899AABBCCDDEEFFGG"
    ));
    assert!(!is_valid_fingerprint(
        "GGHHIIJJ00112233445566778899AABBCCDDEEFF"
    ));
    assert!(!is_valid_fingerprint(
        "AABBCCDD00112233445566778899AABBCCDDEEF"
    ));
    assert!(!is_valid_fingerprint(
        "AABBCCDD00112233445566778899AABBCCDDEEFFF"
    ));
}

#[test]
fn test_valid_ip_addresses() {
    assert!(is_valid_ip_or_network("192.168.1.1"));
    assert!(is_valid_ip_or_network("10.0.0.0"));
    assert!(is_valid_ip_or_network("255.255.255.255"));
    assert!(is_valid_ip_or_network("0.0.0.0"));
    assert!(is_valid_ip_or_network("::1"));
    assert!(is_valid_ip_or_network("2001:db8::1"));
    assert!(is_valid_ip_or_network("fe80::1"));
}

#[test]
fn test_valid_networks() {
    assert!(is_valid_ip_or_network("192.168.1.0/24"));
    assert!(is_valid_ip_or_network("10.0.0.0/8"));
    assert!(is_valid_ip_or_network("0.0.0.0/0"));
    assert!(is_valid_ip_or_network("2001:db8::/32"));
    assert!(is_valid_ip_or_network("::/0"));
}

#[test]
fn test_invalid_ip_or_network() {
    assert!(!is_valid_ip_or_network(""));
    assert!(!is_valid_ip_or_network("not-an-ip"));
    assert!(!is_valid_ip_or_network("192.168.1.256"));
    assert!(!is_valid_ip_or_network("192.168.1.1/33"));
    assert!(!is_valid_ip_or_network("192.168.1"));
    assert!(!is_valid_ip_or_network("example.com"));
}

#[test]
fn test_valid_country_codes() {
    assert!(is_valid_country_code("US"));
    assert!(is_valid_country_code("us"));
    assert!(is_valid_country_code("DE"));
    assert!(is_valid_country_code("de"));
    assert!(is_valid_country_code("GB"));
    assert!(is_valid_country_code("JP"));
}

#[test]
fn test_invalid_country_codes() {
    assert!(!is_valid_country_code(""));
    assert!(!is_valid_country_code("U"));
    assert!(!is_valid_country_code("USA"));
    assert!(!is_valid_country_code("U1"));
    assert!(!is_valid_country_code("12"));
    assert!(!is_valid_country_code("U-"));
}

#[test]
fn test_flags_restriction() {
    let mut router = Router::new("A".repeat(40), "test".to_string(), parse_address("192.0.2.1").unwrap());
    router.flags = vec![
        "Fast".to_string(),
        "Stable".to_string(),
        "Valid".to_string(),
    ];

    let restriction = FlagsRestriction::new(
        vec!["Fast".to_string(), "Stable".to_string()],
        vec!["Authority".to_string()],
    );

    assert!(restriction.r_is_ok(&router));

    router.flags.push("Authority".to_string());
    assert!(!restriction.r_is_ok(&router));

    router.flags = vec!["Fast".to_string()];
    assert!(!restriction.r_is_ok(&router));
}

#[test]
fn test_node_restriction_list() {
    let mut router = Router::new("A".repeat(40), "test".to_string(), parse_address("192.0.2.1").unwrap());
    router.flags = vec![
        "Fast".to_string(),
        "Stable".to_string(),
        "Valid".to_string(),
    ];

    let restriction1 = FlagsRestriction::new(vec!["Fast".to_string()], vec![]);
    let restriction2 = FlagsRestriction::new(vec!["Stable".to_string()], vec![]);

    let list = NodeRestrictionList::new(vec![restriction1, restriction2]);

    assert!(list.r_is_ok(&router));

    router.flags = vec!["Fast".to_string()];
    assert!(!list.r_is_ok(&router));
}

fn relay(fp: &str, flags: &[&str], bandwidth: Option<u64>, measured: Option<u64>) -> Router {
    let mut r = Router::new(fp.to_string(), "relay".to_string(), IpAddress::V4(1));
    r.flags = flags.iter().map(|f| f.to_string()).collect();
    r.bandwidth = bandwidth;
    r.measured = measured;
    r
}

fn weights(pairs: &[(&str, i64)]) -> StrMap<i64> {
    let mut m = StrMap::new();
    for (k, v) in pairs {
        m.insert(k.to_string(), *v);
    }
    m
}

fn any_relay() -> NodeRestrictionList<FlagsRestriction> {
    NodeRestrictionList::new(vec![])
}

#[test]
fn generator_weights_follow_flags_and_position() {
    let routers = vec![
        relay("G", &["Guard"], Some(10), None),
        relay("E", &["Exit"], Some(20), Some(30)),
        relay("D", &["Guard", "Exit"], None, Some(5)),
        relay("M", &[], Some(7), None),
        relay("N", &[], None, None),
    ];
    let w = weights(&[("Wmg", 4000), ("Wme", 2), ("Wmd", -5), ("Wee", 10000), ("Wed", 3)]);
    let mut g = BwWeightedGenerator::new(routers, any_relay(), w, Position::Middle).unwrap();
    // bandwidth times flag weight; a missing key weighs 10000, a negative one 0
    assert_eq!(g.node_weights(), &[40000, 60, 0, 70000, 0]);
    assert_eq!(g.weight_total(), 110060);
    assert_eq!(g.exit_total(), 0);
    assert_eq!(g.router_count(), 5);

    g.repair_exits().unwrap();
    assert_eq!(g.node_weights(), &[40000, 300000, 15, 70000, 0]);
    assert_eq!(g.exit_total(), 300015);
    assert_eq!(g.weight_total(), 110060);
}

#[test]
fn generator_pick_walks_the_cumulative_weights() {
    let routers = vec![
        relay("A", &[], Some(1), None),
        relay("B", &[], Some(0), None),
        relay("C", &[], Some(2), None),
    ];
    let g = BwWeightedGenerator::new(routers, any_relay(), weights(&[("Wmm", 1)]), Position::Middle)
        .unwrap();
    assert_eq!(g.node_weights(), &[1, 0, 2]);
    assert_eq!(g.pick(0).fingerprint, "A");
    assert_eq!(g.pick(1).fingerprint, "C");
    assert_eq!(g.pick(2).fingerprint, "C");
    // a draw beyond the total falls to the last relay
    assert_eq!(g.pick(3).fingerprint, "C");
    for _ in 0..50 {
        let fp = g.generate().unwrap().fingerprint.clone();
        assert!(fp == "A" || fp == "C");
    }
}

#[test]
fn generator_errors() {
    let none_pass = NodeRestrictionList::new(vec![FlagsRestriction::new(vec!["Fast".to_string()], vec![])]);
    let r = BwWeightedGenerator::new(
        vec![relay("A", &[], Some(1), None)],
        none_pass,
        weights(&[]),
        Position::Guard,
    );
    assert!(matches!(r, Err(Error::NoNodesRemain)));

    let r = BwWeightedGenerator::new(
        vec![relay("A", &[], Some(u64::MAX), None), relay("B", &[], Some(1), None)],
        any_relay(),
        weights(&[("Wmm", 1)]),
        Position::Guard,
    );
    assert!(matches!(r, Err(Error::Validation(_))));

    let zero = BwWeightedGenerator::new(
        vec![relay("A", &[], None, None)],
        any_relay(),
        weights(&[]),
        Position::Exit,
    )
    .unwrap();
    assert!(matches!(zero.generate(), Err(Error::NoNodesRemain)));
}

#[test]
fn position_weight_key_suffix() {
    assert_eq!(Position::Guard.weight_key_suffix(), 'g');
    assert_eq!(Position::Middle.weight_key_suffix(), 'm');
    assert_eq!(Position::Exit.weight_key_suffix(), 'e');
}

#[test]
fn ip_network_contains_addresses() {
    let net = IpNet::parse("192.168.0.0/16").unwrap();
    assert_eq!(net.addr(), IpAddress::V4(0xc0a8_0000));
    assert_eq!(net.prefix(), 16);
    assert!(net.contains(parse_address("192.168.255.1").unwrap()));
    assert!(!net.contains(parse_address("192.169.0.1").unwrap()));
    assert!(!net.contains(parse_address("::1").unwrap()));
    let all = IpNet::new(IpAddress::V4(7), 0).unwrap();
    assert!(all.contains(IpAddress::V4(u32::MAX)));
    let v6 = IpNet::parse("2001:db8::/32").unwrap();
    assert!(v6.contains(parse_address("2001:db8:ffff::1").unwrap()));
    assert!(!v6.contains(parse_address("2001:db9::1").unwrap()));
    let host = IpNet::parse("10.1.2.3").unwrap();
    assert_eq!(host.prefix(), 32);
    assert!(host.contains(IpAddress::V4(0x0a01_0203)));
    assert!(!host.contains(IpAddress::V4(0x0a01_0204)));
    assert!(IpNet::new(IpAddress::V4(0), 33).is_none());
    assert!(IpNet::new(IpAddress::V6(0), 129).is_none());
    assert!(parse_address("10.0.0.0/8").is_none());
}
