use std::time::{SystemTime, UNIX_EPOCH};
use vanguards_rs::config::{RendguardConfig, VanguardsConfig};
use vanguards_rs::error::Error;
use vanguards_rs::ipnet::{parse_address, IpAddress};
use vanguards_rs::node_selection::{
    BwWeightedGenerator, FlagsRestriction, NodeRestrictionList, Position, Router,
};
use vanguards_rs::strmap::{StrMap, StrSet};
use vanguards_rs::vanguards::{
    add_guard, candidate_ok, fill_layer, share_of, try_add_guard, ExcludeNodes, GuardNode, RendGuard,
    RendUseCount, VanguardState,
};

const SEC_PER_HOUR: f64 = 3600.0;

/// The system clock in seconds since the epoch.
fn now_secs() -> f64 {
    SystemTime::now().duration_since(UNIX_EPOCH).unwrap().as_secs_f64()
}

/// Milliseconds since the epoch for a time given in seconds.
fn ms(secs: f64) -> u64 {
    (secs * 1000.0) as u64
}

/// A real number in fixed point.
fn fixed(x: f64) -> u64 {
    (x * 1e9).round() as u64
}

fn create_test_router(fingerprint: &str, nickname: &str, address: &str) -> Router {
    Router::new(fingerprint.to_string(), nickname.to_string(), parse_address(address).unwrap())
}

#[test]
fn test_guard_node_creation() {
    let now = 1000000.0;
    let expires = 2000000.0;
    let guard = GuardNode::new("A".repeat(40), ms(now), ms(expires));
    assert_eq!(guard.idhex, "A".repeat(40));
    assert_eq!(guard.chosen_at, ms(now));
    assert_eq!(guard.expires_at, ms(expires));
}

#[test]
fn test_guard_node_expired() {
    let now = now_secs();

    let expired = GuardNode::new("A".repeat(40), ms(now - 1000.0), ms(now - 100.0));
    assert!(expired.is_expired());

    let not_expired = GuardNode::new("B".repeat(40), ms(now), ms(now + 86400.0));
    assert!(!not_expired.is_expired());
}

#[test]
fn test_vanguard_state_new() {
    let state = VanguardState::new("test.state");
    assert!(state.layer2.is_empty());
    assert!(state.layer3.is_empty());
    assert_eq!(state.state_file, "test.state");
    assert_eq!(state.pickle_revision, 1);
}

#[test]
fn test_vanguard_state_guardset() {
    let mut state = VanguardState::new("test.state");
    state
        .layer2
        .push(GuardNode::new("A".repeat(40), ms(0.0), ms(1000.0)));
    state
        .layer2
        .push(GuardNode::new("B".repeat(40), ms(0.0), ms(1000.0)));

    let guardset = state.layer2_guardset();
    assert!(guardset.contains(&"A".repeat(40)));
    assert!(guardset.contains(&"B".repeat(40)));
    assert!(guardset.contains(','));
}

#[test]
fn test_calculate_guard_lifetime() {
    for _ in 0..100 {
        let lifetime = VanguardState::calculate_guard_lifetime(24, 1080);
        let lifetime = lifetime as f64 / 1000.0;
        let min_secs = 24.0 * SEC_PER_HOUR;
        let max_secs = 1080.0 * SEC_PER_HOUR;
        assert!(lifetime >= min_secs);
        assert!(lifetime <= max_secs);
    }
}

#[test]
fn test_remove_expired_from_layer() {
    let now = now_secs();

    let mut layer = vec![
        GuardNode::new("A".repeat(40), ms(now - 1000.0), ms(now - 100.0)),
        GuardNode::new("B".repeat(40), ms(now), ms(now + 86400.0)),
        GuardNode::new("C".repeat(40), ms(now - 2000.0), ms(now - 500.0)),
    ];

    VanguardState::remove_expired_from_layer(&mut layer);
    assert_eq!(layer.len(), 1);
    assert_eq!(layer[0].idhex, "B".repeat(40));
}

#[test]
fn test_remove_down_from_layer() {
    let mut layer = vec![
        GuardNode::new("A".repeat(40), ms(0.0), ms(1000.0)),
        GuardNode::new("B".repeat(40), ms(0.0), ms(1000.0)),
        GuardNode::new("C".repeat(40), ms(0.0), ms(1000.0)),
    ];

    let mut consensus_fps = StrSet::new();
    consensus_fps.insert("A".repeat(40));
    consensus_fps.insert("C".repeat(40));

    VanguardState::remove_down_from_layer(&mut layer, &consensus_fps);
    assert_eq!(layer.len(), 2);
    assert!(layer.iter().any(|g| g.idhex == "A".repeat(40)));
    assert!(layer.iter().any(|g| g.idhex == "C".repeat(40)));
    assert!(!layer.iter().any(|g| g.idhex == "B".repeat(40)));
}

#[test]
fn test_exclude_nodes_parse_fingerprint() {
    let exclude = ExcludeNodes::parse("$AABBCCDD00112233445566778899AABBCCDDEEFF", None);
    assert!(exclude
        .idhexes
        .contains("AABBCCDD00112233445566778899AABBCCDDEEFF"));
}

#[test]
fn test_exclude_nodes_parse_fingerprint_without_dollar() {
    let exclude = ExcludeNodes::parse("AABBCCDD00112233445566778899AABBCCDDEEFF", None);
    assert!(exclude
        .idhexes
        .contains("AABBCCDD00112233445566778899AABBCCDDEEFF"));
}

#[test]
fn test_exclude_nodes_parse_fingerprint_with_suffix() {
    let exclude =
        ExcludeNodes::parse("$AABBCCDD00112233445566778899AABBCCDDEEFF~nickname", None);
    assert!(exclude
        .idhexes
        .contains("AABBCCDD00112233445566778899AABBCCDDEEFF"));
    assert!(!exclude.nicks.contains("nickname"));

    let exclude2 =
        ExcludeNodes::parse("$AABBCCDD00112233445566778899AABBCCDDEEFF=nickname", None);
    assert!(exclude2
        .idhexes
        .contains("AABBCCDD00112233445566778899AABBCCDDEEFF"));
}

#[test]
fn test_exclude_nodes_parse_country_code() {
    let exclude = ExcludeNodes::parse("{us}", None);
    assert!(exclude.countries.contains("us"));

    let exclude2 = ExcludeNodes::parse("{US}", None);
    assert!(exclude2.countries.contains("us"));
}

#[test]
fn test_exclude_nodes_parse_network() {
    let exclude = ExcludeNodes::parse("192.168.0.0/24", None);
    assert_eq!(exclude.networks.len(), 1);

    let exclude2 = ExcludeNodes::parse("2001:db8::/32", None);
    assert_eq!(exclude2.networks.len(), 1);
}

#[test]
fn test_exclude_nodes_parse_ip_address() {
    let exclude = ExcludeNodes::parse("192.168.1.1", None);
    assert_eq!(exclude.networks.len(), 1);
}

#[test]
fn test_exclude_nodes_parse_nickname() {
    let exclude = ExcludeNodes::parse("BadRelay", None);
    assert!(exclude.nicks.contains("BadRelay"));
}

#[test]
fn test_exclude_nodes_parse_mixed() {
    let exclude = ExcludeNodes::parse(
        "$AABBCCDD00112233445566778899AABBCCDDEEFF,{us},192.168.0.0/16,BadRelay",
        None,
    );
    assert!(exclude
        .idhexes
        .contains("AABBCCDD00112233445566778899AABBCCDDEEFF"));
    assert!(exclude.countries.contains("us"));
    assert_eq!(exclude.networks.len(), 1);
    assert!(exclude.nicks.contains("BadRelay"));
}

#[test]
fn test_exclude_nodes_geoip_exclude_unknown_1() {
    let exclude = ExcludeNodes::parse("", Some("1"));
    assert!(exclude.countries.contains("??"));
    assert!(exclude.countries.contains("a1"));
}

#[test]
fn test_exclude_nodes_geoip_exclude_unknown_auto() {
    let exclude = ExcludeNodes::parse("{us}", Some("auto"));
    assert!(exclude.countries.contains("us"));
    assert!(exclude.countries.contains("??"));
    assert!(exclude.countries.contains("a1"));
}

#[test]
fn test_exclude_nodes_geoip_exclude_unknown_auto_no_countries() {
    let exclude = ExcludeNodes::parse("BadRelay", Some("auto"));
    assert!(!exclude.countries.contains("??"));
    assert!(!exclude.countries.contains("a1"));
}

#[test]
fn test_router_is_excluded_by_fingerprint() {
    let exclude = ExcludeNodes::parse("$AABBCCDD00112233445566778899AABBCCDDEEFF", None);
    let router = create_test_router(
        "AABBCCDD00112233445566778899AABBCCDDEEFF",
        "test",
        "192.0.2.1",
    );
    assert!(exclude.router_is_excluded(&router));
}

#[test]
fn test_router_is_excluded_by_nickname() {
    let exclude = ExcludeNodes::parse("BadRelay", None);
    let router = create_test_router(&"A".repeat(40), "BadRelay", "192.0.2.1");
    assert!(exclude.router_is_excluded(&router));
}

#[test]
fn test_router_is_excluded_by_network() {
    let exclude = ExcludeNodes::parse("192.168.0.0/16", None);
    let router = create_test_router(&"A".repeat(40), "test", "192.168.1.1");
    assert!(exclude.router_is_excluded(&router));

    let router2 = create_test_router(&"B".repeat(40), "test2", "10.0.0.1");
    assert!(!exclude.router_is_excluded(&router2));
}

#[test]
fn test_router_not_excluded() {
    let exclude = ExcludeNodes::parse("$BBBBBBBBBBBBBBBBBBBBBBBBBBBBBBBBBBBBBBBB,{de}", None);
    let router = create_test_router(&"A".repeat(40), "GoodRelay", "192.0.2.1");
    assert!(!exclude.router_is_excluded(&router));
}

#[test]
fn vanguards_test_rendguard_new() {
    let rg = RendGuard::new();
    assert!(rg.use_counts.is_empty());
    assert_eq!(rg.total_use_counts, fixed(0.0));
    assert_eq!(rg.pickle_revision, 1);
}

#[test]
fn test_rendguard_scale_counts() {
    let mut rg = RendGuard::new();
    rg.use_counts.insert(
        "A".repeat(40),
        RendUseCount {
            idhex: "A".repeat(40),
            used: fixed(100.0),
            weight: fixed(0.5),
        },
    );
    rg.use_counts.insert(
        "B".repeat(40),
        RendUseCount {
            idhex: "B".repeat(40),
            used: fixed(200.0),
            weight: fixed(0.5),
        },
    );
    rg.total_use_counts = fixed(300.0);

    rg.scale_counts();

    assert_eq!(rg.use_counts.get(&"A".repeat(40)).unwrap().used, fixed(50.0));
    assert_eq!(rg.use_counts.get(&"B".repeat(40)).unwrap().used, fixed(100.0));
    assert_eq!(rg.total_use_counts, fixed(150.0));
}

#[test]
fn test_exclude_nodes_has_exclusions() {
    let empty = ExcludeNodes::new();
    assert!(!empty.has_exclusions());

    let with_fp = ExcludeNodes::parse("$AABBCCDD00112233445566778899AABBCCDDEEFF", None);
    assert!(with_fp.has_exclusions());

    let with_country = ExcludeNodes::parse("{us}", None);
    assert!(with_country.has_exclusions());

    let with_network = ExcludeNodes::parse("192.168.0.0/24", None);
    assert!(with_network.has_exclusions());

    let with_nick = ExcludeNodes::parse("BadRelay", None);
    assert!(with_nick.has_exclusions());
}

#[test]
fn test_exclude_nodes_empty_string() {
    let exclude = ExcludeNodes::parse("", None);
    assert!(!exclude.has_exclusions());
}

#[test]
fn test_exclude_nodes_whitespace_handling() {
    let exclude =
        ExcludeNodes::parse(" $AABBCCDD00112233445566778899AABBCCDDEEFF , {us} ", None);
    assert!(exclude
        .idhexes
        .contains("AABBCCDD00112233445566778899AABBCCDDEEFF"));
    assert!(exclude.countries.contains("us"));
}

#[test]
fn test_vanguard_state_validation_valid() {
    let now = now_secs();

    let mut state = VanguardState::new("test.state");
    state
        .layer2
        .push(GuardNode::new("A".repeat(40), ms(now - 1000.0), ms(now + 86400.0)));
    state
        .layer3
        .push(GuardNode::new("B".repeat(40), ms(now - 500.0), ms(now + 3600.0)));

    assert!(state.validate().is_ok());
}

#[test]
fn test_vanguard_state_validation_invalid_fingerprint() {
    let now = now_secs();

    let mut state = VanguardState::new("test.state");
    state
        .layer2
        .push(GuardNode::new("invalid".to_string(), ms(now), ms(now + 86400.0)));

    assert!(state.validate().is_err());
}

#[test]
fn test_vanguard_state_validation_future_timestamp() {
    let now = now_secs();

    let mut state = VanguardState::new("test.state");
    state
        .layer2
        .push(GuardNode::new("A".repeat(40), ms(now + 10000.0), ms(now + 86400.0)));

    assert!(state.validate().is_err());
}
fn relay(fp: &str, flags: &[&str], bw: u64) -> Router {
    let mut r = Router::new(fp.to_string(), format!("nick{}", bw), IpAddress::V4(0x0a00_0000 + bw as u32));
    r.flags = flags.iter().map(|f| f.to_string()).collect();
    r.bandwidth = Some(bw);
    r
}

fn generator(routers: Vec<Router>) -> BwWeightedGenerator {
    let none: NodeRestrictionList<FlagsRestriction> = NodeRestrictionList::new(vec![]);
    let mut w = StrMap::new();
    w.insert("Wmm".to_string(), 10000i64);
    BwWeightedGenerator::new(routers, none, w, Position::Middle).unwrap()
}

fn fp(c: char) -> String {
    c.to_string().repeat(40)
}

#[test]
fn guard_expires_when_its_time_is_reached() {
    let g = GuardNode::new(fp('A'), 0, 5000);
    assert!(!g.is_expired_at(4999));
    assert!(g.is_expired_at(5000));
    assert!(g.is_expired_at(5001));
    let mut layer = vec![GuardNode::new(fp('A'), 0, 5000), GuardNode::new(fp('B'), 0, 5001)];
    VanguardState::remove_expired_from_layer_at(&mut layer, 5000);
    assert_eq!(layer, vec![GuardNode::new(fp('B'), 0, 5001)]);
}

#[test]
fn guardset_joins_with_commas() {
    let mut state = VanguardState::new("s");
    assert_eq!(state.layer2_guardset(), "");
    state.layer2.push(GuardNode::new(fp('A'), 0, 1));
    assert_eq!(state.layer2_guardset(), fp('A'));
    state.layer2.push(GuardNode::new(fp('B'), 0, 1));
    state.layer3.push(GuardNode::new(fp('C'), 0, 1));
    assert_eq!(state.layer2_guardset(), format!("{},{}", fp('A'), fp('B')));
    assert_eq!(state.layer3_guardset(), fp('C'));
}

#[test]
fn validate_reports_the_first_broken_rule() {
    let now: u64 = 1_000_000_000_000;
    let hour: u64 = 3_600_000;
    let year: u64 = 365 * 24 * hour;
    let mut state = VanguardState::new("s");
    state.layer2.push(GuardNode::new(fp('A'), now + hour, now + year));
    state.layer3.push(GuardNode::new(fp('B'), 0, 0));
    state.rendguard.use_counts.insert("NOT_IN_CONSENSUS".to_string(), RendUseCount::new("x".to_string(), 0));
    assert!(state.validate_at(now).is_ok());

    state.rendguard.use_counts.insert("bogus".to_string(), RendUseCount::new("bogus".to_string(), 0));
    match state.validate_at(now) {
        Err(Error::State(m)) => assert_eq!(m, "invalid fingerprint in rendguard: bogus"),
        _ => panic!("expected a state error"),
    }
    state.layer3[0].expires_at = now + year + 1;
    match state.validate_at(now) {
        Err(Error::State(m)) => {
            assert_eq!(m, format!("unreasonable future expiration in layer3 guard {}", fp('B')))
        }
        _ => panic!("expected a state error"),
    }
    state.layer2[0].chosen_at = now + hour + 1;
    match state.validate_at(now) {
        Err(Error::State(m)) => assert_eq!(m, format!("future timestamp in layer2 guard {}", fp('A'))),
        _ => panic!("expected a state error"),
    }
    state.layer2[0].idhex = "xyz".to_string();
    match state.validate_at(now) {
        Err(Error::State(m)) => assert_eq!(m, "invalid fingerprint in layer2: xyz"),
        _ => panic!("expected a state error"),
    }
}

#[test]
fn exclude_nodes_parse_exact() {
    let ex = ExcludeNodes::parse(
        " $aabbccdd00112233445566778899aabbccddeeff~n=x , ,{DE},{usa},{}, 10.0.0.0/8 ,1.2.3.4, ::1 ,bad.name,Nick=tail,$~x",
        Some("auto"),
    );
    assert_eq!(ex.idhexes.len(), 1);
    assert!(ex.idhexes.contains("AABBCCDD00112233445566778899AABBCCDDEEFF"));
    assert_eq!(ex.countries.len(), 3);
    assert!(ex.countries.contains("de") && ex.countries.contains("??") && ex.countries.contains("a1"));
    assert_eq!(ex.networks.len(), 3);
    assert_eq!((ex.networks[0].addr(), ex.networks[0].prefix()), (IpAddress::V4(0x0a00_0000), 8));
    assert_eq!((ex.networks[1].addr(), ex.networks[1].prefix()), (IpAddress::V4(0x0102_0304), 32));
    assert_eq!((ex.networks[2].addr(), ex.networks[2].prefix()), (IpAddress::V6(1), 128));
    assert_eq!(ex.nicks.len(), 3);
    // a malformed country excludes nothing; braces around nothing are a nickname
    assert!(ex.nicks.contains("{}") && ex.nicks.contains("Nick") && ex.nicks.contains(""));
    assert!(!ex.nicks.contains("{usa}") && !ex.nicks.contains("bad.name"));
    assert_eq!(ex.exclude_unknowns.as_deref(), Some("auto"));

    let none = ExcludeNodes::parse("{zz", Some("0"));
    assert!(none.countries.is_empty());
    assert!(none.nicks.contains("{zz"));
}

#[test]
fn router_is_excluded_by_any_address_and_by_case() {
    let ex = ExcludeNodes::parse("10.0.0.0/8,$ABCDEF0123456789ABCDEF0123456789ABCDEF01", None);
    let mut r = Router::new("f".repeat(40), "n".to_string(), IpAddress::V4(0x0b00_0001));
    assert!(!ex.router_is_excluded(&r));
    r.or_addresses.push(IpAddress::V6(5));
    r.or_addresses.push(IpAddress::V4(0x0aff_ffff));
    assert!(ex.router_is_excluded(&r));
    let lower = Router::new("abcdef0123456789abcdef0123456789abcdef01".to_string(), "n".to_string(), IpAddress::V4(1));
    assert!(ex.router_is_excluded(&lower));
}

#[test]
fn remove_excluded_goes_by_the_last_entry_of_a_relay() {
    let ex = ExcludeNodes::parse("bad", None);
    let mut first = relay(&fp('A'), &[], 1);
    first.nickname = "bad".to_string();
    let mut again = relay(&fp('A'), &[], 2);
    again.nickname = "good".to_string();
    let mut other = relay(&fp('B'), &[], 3);
    other.nickname = "bad".to_string();
    let routers = vec![first, again, other];
    let mut layer = vec![GuardNode::new(fp('A'), 0, 1), GuardNode::new(fp('B'), 0, 1), GuardNode::new(fp('C'), 0, 1)];
    VanguardState::remove_excluded_from_layer(&mut layer, &routers, &ex);
    assert_eq!(layer.iter().map(|g| g.idhex.clone()).collect::<Vec<_>>(), vec![fp('A'), fp('C')]);
}

#[test]
fn replenish_restores_layer_sizes_without_duplicates_or_excluded() {
    let now: u64 = 1_700_000_000_000;
    let routers: Vec<Router> = "ABCDEFGHIJKLMNOPQRST".chars().enumerate().map(|(i, c)| relay(&fp(c), &[], 1 + i as u64)).collect();
    let g = generator(routers);
    let ex = ExcludeNodes::parse(&format!("${},${}", fp('A'), fp('B')), None);
    let config = VanguardsConfig::default();
    let mut state = VanguardState::new("s");
    for c in "CDEFGH".chars() {
        state.layer2.push(GuardNode::new(fp(c), 1, 2));
    }
    state.layer3.push(GuardNode::new(fp('C'), 1, 2));
    state.replenish_layers_at(&g, &ex, &config, now).unwrap();
    assert_eq!(state.layer2.len(), 4);
    assert_eq!(state.layer3.len(), 8);
    // trimming keeps the first guards
    assert_eq!(state.layer2.iter().map(|g| g.idhex.clone()).collect::<Vec<_>>(), vec![fp('C'), fp('D'), fp('E'), fp('F')]);
    assert_eq!(state.layer3[0], GuardNode::new(fp('C'), 1, 2));
    for (i, guard) in state.layer3.iter().enumerate() {
        assert!(guard.idhex != fp('A') && guard.idhex != fp('B'));
        assert!(state.layer3.iter().skip(i + 1).all(|h| h.idhex != guard.idhex));
        if i > 0 {
            assert_eq!(guard.chosen_at, now);
            assert!(guard.expires_at >= now + 3_600_000 && guard.expires_at <= now + 48 * 3_600_000);
        }
    }
    state.replenish_layers(&g, &ex, &config).unwrap();
    assert_eq!((state.layer2.len(), state.layer3.len()), (4, 8));
}

#[test]
fn adding_a_guard_fails_when_every_relay_is_taken_or_excluded() {
    let g = generator(vec![relay(&fp('A'), &[], 1), relay(&fp('B'), &[], 1)]);
    let ex = ExcludeNodes::parse(&format!("${}", fp('B')), None);
    let mut layer = vec![GuardNode::new(fp('A'), 0, 1)];
    assert!(!candidate_ok(&layer, &relay(&fp('A'), &[], 1), &ex));
    assert!(!candidate_ok(&layer, &relay(&fp('B'), &[], 1), &ex));
    assert!(candidate_ok(&layer, &relay(&fp('C'), &[], 1), &ex));
    assert!(matches!(add_guard(&mut layer, &g, &ex, 1, 1, 0), Err(Error::NoNodesRemain)));
    assert_eq!(layer.len(), 1);
    assert!(matches!(fill_layer(&mut layer, 3, &g, &ex, 1, 2, 0), Err(Error::NoNodesRemain)));
    let none = ExcludeNodes::new();
    fill_layer(&mut layer, 2, &g, &none, 1, 1, 7).unwrap();
    assert_eq!(layer[1], GuardNode::new(fp('B'), 7, 7 + 3_600_000));
    let mut state = VanguardState::new("s");
    state.add_new_layer2(&g, &none, &VanguardsConfig::default()).unwrap();
    state.add_new_layer3(&g, &none, &VanguardsConfig::default()).unwrap();
    assert_eq!((state.layer2.len(), state.layer3.len()), (1, 1));
}

#[test]
fn lifetime_mean_exceeds_the_midpoint() {
    let n = 2000;
    let total: u64 = (0..n).map(|_| VanguardState::calculate_guard_lifetime(10, 20)).sum();
    let mean_hours = total as f64 / n as f64 / 3_600_000.0;
    assert!(mean_hours > 15.0, "mean {}", mean_hours);
    assert_eq!(VanguardState::calculate_guard_lifetime(3, 3), 3 * 3_600_000);
}

#[test]
fn xfer_use_counts_reweights_and_carries_counts() {
    let mut exit = relay(&fp('E'), &["Exit"], 30);
    exit.measured = Some(60);
    let routers = vec![relay(&fp('A'), &[], 10), relay(&fp('B'), &[], 30), exit];
    let none: NodeRestrictionList<FlagsRestriction> = NodeRestrictionList::new(vec![]);
    let mut w = StrMap::new();
    w.insert("Wmm".to_string(), 10000i64);
    w.insert("Wme".to_string(), 10000i64);
    w.insert("Wee".to_string(), 5000i64);
    let mut g = BwWeightedGenerator::new(routers, none, w, Position::Middle).unwrap();
    assert_eq!(share_of(&g, 2), 600_000_000);
    g.repair_exits().unwrap();
    assert_eq!(share_of(&g, 0), 100_000_000);
    assert_eq!(share_of(&g, 1), 300_000_000);
    assert_eq!(share_of(&g, 2), 1_000_000_000);

    let mut rg = RendGuard::new();
    for (k, used) in [(fp('A'), 7.0), (fp('Z'), 4.0), ("NOT_IN_CONSENSUS".to_string(), 9.0)] {
        rg.use_counts.insert(k.clone(), RendUseCount { idhex: k, used: fixed(used), weight: 1 });
    }
    rg.total_use_counts = fixed(20.0);
    let config = RendguardConfig { use_scale_at_count: 20, ..Default::default() };
    rg.xfer_use_counts(&g, &config);
    let got: Vec<(String, u64, u64)> = [fp('A'), fp('B'), fp('E'), "NOT_IN_CONSENSUS".to_string()]
        .iter()
        .map(|k| {
            let c = rg.use_counts.get(k).unwrap();
            (c.idhex.clone(), c.used, c.weight)
        })
        .collect();
    assert_eq!(
        got,
        vec![
            (fp('A'), fixed(3.5), 100_000_000),
            (fp('B'), 0, 300_000_000),
            (fp('E'), 0, 1_000_000_000),
            ("NOT_IN_CONSENSUS".to_string(), fixed(4.5), 10_000_000),
        ]
    );
    assert_eq!(rg.use_counts.len(), 4);
    assert_eq!(rg.total_use_counts, fixed(8.0));

    let keep = RendguardConfig { use_scale_at_count: 9, ..Default::default() };
    rg.xfer_use_counts(&g, &keep);
    assert_eq!(rg.use_counts.get(&fp('A')).unwrap().used, fixed(3.5));
    assert_eq!(rg.total_use_counts, fixed(8.0));
}

#[test]
fn a_drawn_relay_joins_unless_taken_or_excluded() {
    let ex = ExcludeNodes::parse(&format!("${}", fp('B')), None);
    let mut layer = vec![GuardNode::new(fp('A'), 0, 1)];
    assert!(!try_add_guard(&mut layer, &relay(&fp('A'), &[], 1), &ex, 10, 5));
    assert!(!try_add_guard(&mut layer, &relay(&fp('B'), &[], 1), &ex, 10, 5));
    assert_eq!(layer, vec![GuardNode::new(fp('A'), 0, 1)]);
    assert!(try_add_guard(&mut layer, &relay(&fp('C'), &[], 1), &ex, 10, 5));
    assert_eq!(layer, vec![GuardNode::new(fp('A'), 0, 1), GuardNode::new(fp('C'), 10, 15)]);
}

#[test]
fn a_full_layer_needs_no_draw() {
    // the only relay weighs nothing, so nothing can be drawn
    let g = generator(vec![relay(&fp('Z'), &[], 0)]);
    let none = ExcludeNodes::new();
    let guard = |c: char| GuardNode::new(fp(c), 1, 2);
    let mut layer = vec![guard('A'), guard('B'), guard('C')];
    fill_layer(&mut layer, 2, &g, &none, 1, 2, 0).unwrap();
    assert_eq!(layer, vec![guard('A'), guard('B')]);
    assert!(matches!(add_guard(&mut layer, &g, &none, 1, 2, 0), Err(Error::NoNodesRemain)));
    assert!(matches!(fill_layer(&mut layer, 3, &g, &none, 1, 2, 0), Err(Error::NoNodesRemain)));
    assert_eq!(layer, vec![guard('A'), guard('B')]);

    let config = VanguardsConfig::default();
    let mut state = VanguardState::new("s");
    state.layer2 = "ABCDE".chars().map(guard).collect();
    state.layer3 = "ABCDEFGH".chars().map(guard).collect();
    state.replenish_layers(&g, &none, &config).unwrap();
    assert_eq!(state.layer2, "ABCD".chars().map(guard).collect::<Vec<_>>());
    assert_eq!(state.layer3.len(), 8);
    state.replenish_layers_at(&g, &none, &config, 5).unwrap();
    state.layer3.pop();
    assert!(matches!(state.replenish_layers(&g, &none, &config), Err(Error::NoNodesRemain)));
    assert!(matches!(state.add_new_layer3(&g, &none, &config), Err(Error::NoNodesRemain)));
    assert_eq!((state.layer2.len(), state.layer3.len()), (4, 7));
}
