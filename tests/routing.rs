use anybls::net::IpAddress;
use anybls::routing::cache::MatchCache;
use anybls::routing::matchers::{DomainMatcher, IpMatcher, MatcherCache, MatcherResult};
use anybls::routing::router::{HighPerformanceRouter, RouteRule};
use anybls::routing::rule_sets::{DomainRuleSet, IpRuleSet, RuleSet, RuleSetManager};

fn strings(v: &[&str]) -> Vec<String> {
    v.iter().map(|s| s.to_string()).collect()
}

fn domain_set(id: &str, exact: &[&str], suffix: &[&str], keyword: &[&str], regex: &[&str]) -> DomainRuleSet {
    DomainRuleSet {
        id: id.to_string(),
        domain: strings(exact),
        domain_suffix: strings(suffix),
        domain_keyword: strings(keyword),
        domain_regex: strings(regex),
    }
}

#[test]
fn test_rule_set_manager() {
    let mut manager = RuleSetManager::new();
    let domain_set = DomainRuleSet {
        id: "test_domain".to_string(),
        domain: vec!["example.com".to_string()],
        domain_suffix: vec!["google.com".to_string()],
        domain_keyword: vec!["test".to_string()],
        domain_regex: vec![r"^test.*\.com$".to_string()],
    };
    manager.add_domain_set(domain_set);
    assert!(manager.get_domain_set(&"test_domain".to_string()).is_some());
    assert!(manager.get_domain_set(&"nonexistent".to_string()).is_none());
}

#[test]
fn rule_set_replacement_keeps_one_entry() {
    let mut manager = RuleSetManager::new();
    manager.add_domain_set(domain_set("a", &["x.com"], &[], &[], &[]));
    manager.add_domain_set(domain_set("a", &["y.com"], &[], &[], &[]));
    manager.add_ip_set(IpRuleSet { id: "a".to_string(), ip_cidr: strings(&["10.0.0.0/8"]) });
    assert_eq!(manager.domain_set_ids().len(), 1);
    assert_eq!(manager.get_domain_set("a").unwrap().domain, strings(&["y.com"]));
    assert_eq!(manager.all_domain_sets().len(), 1);
    assert_eq!(manager.ip_set_ids().len(), 1);
    let set = RuleSet::Ip(IpRuleSet { id: "ips".to_string(), ip_cidr: vec![] });
    assert_eq!(set.id(), "ips");
}

#[test]
fn test_domain_matcher() {
    let matcher = DomainMatcher::new(
        vec!["example.com".to_string()],
        vec!["google.com".to_string()],
        vec!["test".to_string()],
        vec![r"^test.*\.com$".to_string()],
    )
    .unwrap();
    assert_eq!(matcher.matches("example.com"), MatcherResult::Match);
    assert_eq!(matcher.matches("www.google.com"), MatcherResult::Match);
    assert_eq!(matcher.matches("test.example.com"), MatcherResult::Match);
    assert_eq!(matcher.matches("test123.com"), MatcherResult::Match);
    assert_eq!(matcher.matches("other.com"), MatcherResult::NoMatch);
}

#[test]
fn suffix_matches_only_at_label_boundaries() {
    let m = DomainMatcher::new(vec![], strings(&["google.com"]), vec![], vec![]).unwrap();
    assert_eq!(m.matches("google.com"), MatcherResult::Match);
    assert_eq!(m.matches("www.google.com"), MatcherResult::Match);
    assert_eq!(m.matches("a.b.google.com"), MatcherResult::Match);
    assert_eq!(m.matches("notgoogle.com"), MatcherResult::NoMatch);
    assert_eq!(m.matches("google.com.evil"), MatcherResult::NoMatch);
    assert_eq!(m.matches("com"), MatcherResult::NoMatch);
    assert_eq!(m.matches(""), MatcherResult::NoMatch);
}

#[test]
fn exact_lists_in_any_order_and_with_repeats() {
    let m = DomainMatcher::new(strings(&["zeta.org", "alpha.org", "zeta.org", "mid.org"]), vec![], vec![], vec![]).unwrap();
    assert_eq!(m.matches("alpha.org"), MatcherResult::Match);
    assert_eq!(m.matches("zeta.org"), MatcherResult::Match);
    assert_eq!(m.matches("mid.org"), MatcherResult::Match);
    assert_eq!(m.matches("www.alpha.org"), MatcherResult::NoMatch);
}

#[test]
fn keyword_and_regex_lists() {
    let m = DomainMatcher::new(vec![], vec![], strings(&["ads", "track"]), strings(&[r"^cdn\d+\."])).unwrap();
    assert_eq!(m.matches("myads.net"), MatcherResult::Match);
    assert_eq!(m.matches("x.tracker.io"), MatcherResult::Match);
    assert_eq!(m.matches("cdn42.example.com"), MatcherResult::Match);
    assert_eq!(m.matches("cdnx.example.com"), MatcherResult::NoMatch);
    let empty = DomainMatcher::new(vec![], vec![], vec![], vec![]).unwrap();
    assert_eq!(empty.matches("anything.com"), MatcherResult::NoMatch);
}

#[test]
fn invalid_regex_is_rejected() {
    assert!(DomainMatcher::new(vec![], vec![], vec![], strings(&["(unclosed"])).is_err());
}

#[test]
fn test_ip_matcher() {
    let matcher = IpMatcher::new(vec!["192.168.1.0/24".to_string(), "10.0.0.0/8".to_string()]).unwrap();
    assert_eq!(matcher.matches(IpAddress::v4(192, 168, 1, 1)), MatcherResult::Match);
    assert_eq!(matcher.matches(IpAddress::v4(10, 1, 1, 1)), MatcherResult::Match);
    assert_eq!(matcher.matches(IpAddress::v4(8, 8, 8, 8)), MatcherResult::NoMatch);
}

#[test]
fn cidr_containment_boundaries() {
    let m = IpMatcher::new(strings(&["192.168.0.0/16"])).unwrap();
    assert_eq!(m.matches(IpAddress::v4(192, 168, 1, 1)), MatcherResult::Match);
    assert_eq!(m.matches(IpAddress::v4(192, 168, 255, 255)), MatcherResult::Match);
    assert_eq!(m.matches(IpAddress::v4(192, 169, 0, 0)), MatcherResult::NoMatch);
    assert_eq!(m.matches(IpAddress::v4(10, 1, 1, 1)), MatcherResult::NoMatch);
    let host_bits = IpMatcher::new(strings(&["10.1.2.3/8"])).unwrap();
    assert_eq!(host_bits.matches(IpAddress::v4(10, 200, 0, 1)), MatcherResult::Match);
    let single = IpMatcher::new(strings(&["1.2.3.4/32"])).unwrap();
    assert_eq!(single.matches(IpAddress::v4(1, 2, 3, 4)), MatcherResult::Match);
    assert_eq!(single.matches(IpAddress::v4(1, 2, 3, 5)), MatcherResult::NoMatch);
    let all = IpMatcher::new(strings(&["0.0.0.0/0"])).unwrap();
    assert_eq!(all.matches(IpAddress::v4(255, 1, 2, 3)), MatcherResult::Match);
    assert_eq!(all.matches(IpAddress::v6([0; 16])), MatcherResult::NoMatch);
}

#[test]
fn ipv6_networks() {
    let m = IpMatcher::new(strings(&["fd00::/8"])).unwrap();
    let mut inside = [0u8; 16];
    inside[0] = 0xfd;
    inside[15] = 1;
    let mut outside = [0u8; 16];
    outside[0] = 0xfe;
    assert_eq!(m.matches(IpAddress::v6(inside)), MatcherResult::Match);
    assert_eq!(m.matches(IpAddress::v6(outside)), MatcherResult::NoMatch);
    assert_eq!(m.matches(IpAddress::v4(253, 0, 0, 1)), MatcherResult::NoMatch);
}

#[test]
fn invalid_cidr_is_rejected() {
    assert!(IpMatcher::new(strings(&["10.0.0.0/33"])).is_err());
    assert!(IpMatcher::new(strings(&["not a network"])).is_err());
    assert!(IpMatcher::new(strings(&["10.0.0.0/8", "300.0.0.0/8"])).is_err());
}

#[test]
fn address_constructors() {
    assert_eq!(IpAddress::v4(192, 168, 1, 1), IpAddress::V4(0xC0A8_0101));
    let mut o = [0u8; 16];
    o[15] = 1;
    assert_eq!(IpAddress::v6(o), IpAddress::V6(1));
    o[0] = 0x20;
    assert_eq!(IpAddress::v6(o), IpAddress::V6((0x20u128 << 120) | 1));
}

#[test]
fn matcher_cache_builds_once_per_id() {
    let mut cache = MatcherCache::new();
    assert!(cache.get_domain_matcher("g", vec![], strings(&["google.com"]), vec![], vec![]).is_ok());
    assert!(cache.get_domain_matcher("g", vec![], vec![], vec![], strings(&["(bad"])).is_ok());
    assert_eq!(cache.domain_matcher("g").unwrap().matches("mail.google.com"), MatcherResult::Match);
    assert!(cache.get_ip_matcher("n", strings(&["bad"])).is_err());
    assert!(cache.ip_matcher("n").is_none());
    assert!(cache.get_ip_matcher("n", strings(&["10.0.0.0/8"])).is_ok());
    cache.invalidate("g");
    assert!(cache.domain_matcher("g").is_none());
}

#[test]
fn test_domain_cache() {
    let mut cache = MatchCache::new(100);
    cache.set_domain("example.com".to_string(), MatcherResult::Match);
    assert_eq!(cache.get_domain("example.com"), Some(&MatcherResult::Match));
    assert_eq!(cache.get_domain("other.com"), None);
}

#[test]
fn test_ip_cache() {
    let mut cache = MatchCache::new(100);
    let ip = IpAddress::v4(192, 168, 1, 1);
    cache.set_ip(ip, MatcherResult::Match);
    assert_eq!(cache.get_ip(&ip), Some(&MatcherResult::Match));
}

#[test]
fn cache_evicts_half_when_full() {
    let mut cache: MatchCache<u32> = MatchCache::new(4);
    for i in 0..4u32 {
        cache.set_domain(format!("d{}.com", i), i);
    }
    assert_eq!(cache.stats().domain_cache_size, 4);
    cache.set_domain("new.com".to_string(), 9);
    let stats = cache.stats();
    assert_eq!(stats.domain_cache_size, 3);
    assert_eq!(cache.get_domain("new.com"), Some(&9));
    assert_eq!(cache.get_domain("d0.com"), None);
    assert_eq!(cache.get_domain("d3.com"), Some(&3));
    cache.set_domain("d3.com".to_string(), 7);
    assert_eq!(cache.stats().domain_cache_size, 3);
    assert_eq!(cache.get_domain("d3.com"), Some(&7));
    cache.set_ip(IpAddress::v4(1, 1, 1, 1), 1);
    cache.set_ip(IpAddress::V6(0x0101_0101), 2);
    assert_eq!(cache.get_ip(&IpAddress::v4(1, 1, 1, 1)), Some(&1));
    assert_eq!(cache.get_ip(&IpAddress::V6(0x0101_0101)), Some(&2));
    assert_eq!(cache.stats().ip_cache_size, 2);
    assert_eq!(cache.stats().total_size, 5);
    cache.clear();
    assert_eq!(cache.stats().total_size, 0);
}

#[test]
fn zero_bound_cache_keeps_one_entry() {
    let mut cache: MatchCache<u8> = MatchCache::new(0);
    cache.set_domain("a".to_string(), 1);
    cache.set_domain("b".to_string(), 2);
    assert_eq!(cache.stats().domain_cache_size, 1);
    assert_eq!(cache.get_domain("b"), Some(&2));
}

fn google_router() -> HighPerformanceRouter {
    let mut router = HighPerformanceRouter::new("direct".to_string());
    let mut manager = RuleSetManager::new();
    manager.add_domain_set(DomainRuleSet {
        id: "google_domains".to_string(),
        domain: vec!["google.com".to_string()],
        domain_suffix: vec!["google.com".to_string()],
        domain_keyword: vec!["google".to_string()],
        domain_regex: vec![],
    });
    router.set_rule_manager(manager).unwrap();
    router.add_rule(RouteRule { rule_sets: vec!["google_domains".to_string()], outbound: "proxy".to_string() });
    router
}

#[test]
fn test_router_domain_matching() {
    let mut router = google_router();
    assert_eq!(router.select_outbound_for_domain("google.com"), "proxy");
    assert_eq!(router.select_outbound_for_domain("www.google.com"), "proxy");
    assert_eq!(router.select_outbound_for_domain("other.com"), "direct");
}

#[test]
fn test_router_ip_matching() {
    let mut router = HighPerformanceRouter::new("direct".to_string());
    let mut manager = RuleSetManager::new();
    manager.add_ip_set(IpRuleSet {
        id: "private_ips".to_string(),
        ip_cidr: vec!["192.168.0.0/16".to_string(), "10.0.0.0/8".to_string()],
    });
    router.set_rule_manager(manager).unwrap();
    router.add_rule(RouteRule { rule_sets: vec!["private_ips".to_string()], outbound: "direct".to_string() });
    assert_eq!(router.select_outbound_for_ip(IpAddress::v4(192, 168, 1, 1)), "direct");
    assert_eq!(router.select_outbound_for_ip(IpAddress::v4(10, 1, 1, 1)), "direct");
    assert_eq!(router.select_outbound_for_ip(IpAddress::v4(8, 8, 8, 8)), "direct");
}

#[test]
fn router_ip_rules_and_default() {
    let mut router = HighPerformanceRouter::new("fallback".to_string());
    let mut manager = RuleSetManager::new();
    manager.add_ip_set(IpRuleSet { id: "lan".to_string(), ip_cidr: strings(&["192.168.0.0/16"]) });
    router.set_rule_manager(manager).unwrap();
    router.add_rule(RouteRule { rule_sets: strings(&["missing", "lan"]), outbound: "local".to_string() });
    assert_eq!(router.select_outbound_for_ip(IpAddress::v4(192, 168, 1, 1)), "local");
    assert_eq!(router.select_outbound_for_ip(IpAddress::v4(10, 1, 1, 1)), "fallback");
    assert_eq!(router.select_outbound_for_domain("lan"), "fallback");
}

#[test]
fn first_matching_rule_wins() {
    let mut router = HighPerformanceRouter::new("direct".to_string());
    let mut manager = RuleSetManager::new();
    manager.add_domain_set(domain_set("A", &[], &["example.com"], &[], &[]));
    manager.add_domain_set(domain_set("B", &[], &[], &["example"], &[]));
    router.set_rule_manager(manager).unwrap();
    router.add_rule(RouteRule { rule_sets: strings(&["A"]), outbound: "x".to_string() });
    router.add_rule(RouteRule { rule_sets: strings(&["B"]), outbound: "y".to_string() });
    assert_eq!(router.select_outbound_for_domain("www.example.com"), "x");
    assert_eq!(router.select_outbound_for_domain("example.org"), "y");
    assert_eq!(router.select_outbound_for_domain("other.org"), "direct");
    assert_eq!(router.rule_count(), 2);
    assert_eq!(router.rule_set_count(), 2);
}

#[test]
fn repeated_and_cleared_queries_agree() {
    let mut router = google_router();
    let domains = ["google.com", "mail.google.com", "x.org", "googleapis.com"];
    let first: Vec<String> = domains.iter().map(|d| router.select_outbound_for_domain(d)).collect();
    let second: Vec<String> = domains.iter().map(|d| router.select_outbound_for_domain(d)).collect();
    assert_eq!(first, second);
    assert!(router.get_cache_stats().domain_cache_size >= 4);
    router.clear_cache();
    assert_eq!(router.get_cache_stats().total_size, 0);
    let third: Vec<String> = domains.iter().map(|d| router.select_outbound_for_domain(d)).collect();
    assert_eq!(first, third);
    assert_eq!(first, vec!["proxy", "proxy", "direct", "proxy"]);
}

#[test]
fn malformed_rule_sets_are_refused_whole() {
    let mut router = google_router();
    let mut manager = RuleSetManager::new();
    manager.add_ip_set(IpRuleSet { id: "bad".to_string(), ip_cidr: strings(&["10.0.0.0/40"]) });
    assert!(router.set_rule_manager(manager).is_err());
    assert_eq!(router.select_outbound_for_domain("google.com"), "proxy");
}

#[test]
fn replacing_a_rule_set_recompiles_its_matcher() {
    let mut router = google_router();
    assert_eq!(router.select_outbound_for_domain("www.google.com"), "proxy");
    router.add_domain_set(domain_set("google_domains", &[], &["example.org"], &[], &[])).unwrap();
    assert_eq!(router.select_outbound_for_domain("www.google.com"), "direct");
    assert_eq!(router.select_outbound_for_domain("a.example.org"), "proxy");
    assert!(router.add_domain_set(domain_set("google_domains", &[], &[], &[], &["(bad"])).is_err());
    assert_eq!(router.select_outbound_for_domain("a.example.org"), "proxy");
    router.add_rule(RouteRule { rule_sets: strings(&["nets"]), outbound: "lan".to_string() });
    assert!(router.add_ip_set(IpRuleSet { id: "nets".to_string(), ip_cidr: strings(&["bad"]) }).is_err());
    assert_eq!(router.select_outbound_for_ip(IpAddress::v4(10, 0, 0, 1)), "direct");
    router.add_ip_set(IpRuleSet { id: "nets".to_string(), ip_cidr: strings(&["10.0.0.0/8"]) }).unwrap();
    assert_eq!(router.select_outbound_for_ip(IpAddress::v4(10, 0, 0, 1)), "lan");
}

#[test]
fn empty_lists_always_compile() {
    let m = DomainMatcher::new(vec![], vec![], vec![], vec![]);
    assert!(m.is_ok());
    let mut router = HighPerformanceRouter::new("direct".to_string());
    assert!(router.add_domain_set(domain_set("e", &[], &[], &[], &[])).is_ok());
}

#[test]
fn below_bound_inserts_keep_other_entries() {
    let mut cache: MatchCache<u8> = MatchCache::new(3);
    cache.set_domain("a".to_string(), 1);
    cache.set_domain("b".to_string(), 2);
    cache.set_domain("a".to_string(), 3);
    cache.set_domain("c".to_string(), 4);
    assert_eq!(cache.get_domain("a"), Some(&3));
    assert_eq!(cache.get_domain("b"), Some(&2));
    assert_eq!(cache.get_domain("c"), Some(&4));
    assert_eq!(cache.stats().domain_cache_size, 3);
}
