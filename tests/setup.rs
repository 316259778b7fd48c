use anybls::config::{Config, DomainLists, OutboundConfig, OutboundType, RouterConfig, RouterRuleConfig};
use anybls::net::IpAddress;
use anybls::outbound::OutboundManager;
use anybls::protocol::Address;
use anybls::protocols::Protocol;
use anybls::proxy::{cached_route, failure_reply, failure_reply_allowed, next_phase, route_address, success_reply, Phase, PhaseEvent};
use anybls::routing::router::{HighPerformanceRouter, RouteRule};
use anybls::routing::rule_sets::{DomainRuleSet, IpRuleSet, RuleSetManager};
use anybls::traffic_mark::{MarkOption, Platform, TrafficMarkConfig};

#[test]
fn test_default_config() {
    let config = Config::default();
    assert_eq!(config.server.port, 1080);
    assert_eq!(config.server.host, IpAddress::v4(127, 0, 0, 1));
}

#[test]
fn test_config_validation() {
    let mut config = Config::default();
    assert!(config.validate().is_ok());
    config.server.port = 0;
    assert!(config.validate().is_err());
}

#[test]
fn config_validation_cases() {
    let mut c = Config::default();
    c.logging.level = "verbose".to_string();
    assert!(c.validate().is_err());
    c.logging.level = "warn".to_string();
    assert!(c.validate().is_ok());
    c.performance.buffer_size = 0;
    assert!(c.validate().is_err());
    let mut c = Config::default();
    c.outbounds.clear();
    assert!(c.validate().is_err());
    let mut c = Config::default();
    c.connection_pool.max_total_connections = 0;
    assert!(c.validate().is_err());
    assert_eq!(Config::default().pool_idle_timeout(), 300);
    assert_eq!(Config::default().cleanup_interval(), 60);
}

#[test]
fn test_traffic_mark_config_creation() {
    let config = TrafficMarkConfig::with_so_mark(255);
    assert_eq!(config.so_mark, Some(255));
    assert_eq!(config.net_service_type, None);
}

#[test]
fn test_traffic_mark_config_with_service_type() {
    let config = TrafficMarkConfig::with_net_service_type(1);
    assert_eq!(config.so_mark, None);
    assert_eq!(config.net_service_type, Some(1));
}

#[test]
fn test_traffic_mark_config_combined() {
    let config = TrafficMarkConfig::new(Some(255), Some(1));
    assert_eq!(config.so_mark, Some(255));
    assert_eq!(config.net_service_type, Some(1));
}

#[test]
fn traffic_mark_options_per_platform() {
    let config = TrafficMarkConfig::from_values(255, 1);
    assert!(config.is_enabled());
    assert_eq!(config.options_for(Platform::Linux), vec![MarkOption::SoMark(255)]);
    assert_eq!(config.options_for(Platform::MacOs), vec![MarkOption::NetServiceType(1)]);
    assert_eq!(config.options_for(Platform::Other), vec![]);
    assert!(!TrafficMarkConfig::from_values(0, 0).is_enabled());
}

#[test]
fn outbound_registry_later_names_win() {
    let configs = vec![
        OutboundConfig::direct("direct"),
        OutboundConfig { name: "proxy".to_string(), kind: OutboundType::Socks5 { address: "10.0.0.1:1080".to_string() } },
        OutboundConfig { name: "direct".to_string(), kind: OutboundType::Blackhole },
    ];
    let manager = OutboundManager::from_configs(&configs);
    assert!(matches!(manager.get("direct"), Some(Protocol::Blackhole(_))));
    assert!(matches!(manager.get("proxy"), Some(Protocol::Socks5(_))));
    assert!(manager.get("missing").is_none());
}

#[test]
fn phases_run_in_order() {
    let mut p = Phase::Accepted;
    let expected = [Phase::Handshaking, Phase::RequestParsed, Phase::Routed, Phase::Connecting, Phase::Relaying, Phase::Closed];
    for e in expected {
        p = next_phase(p, PhaseEvent::Done);
        assert_eq!(p, e);
    }
    assert_eq!(next_phase(Phase::Closed, PhaseEvent::Error), Phase::Closed);
    assert_eq!(next_phase(Phase::Routed, PhaseEvent::Error), Phase::Failed);
    assert_eq!(next_phase(Phase::Failed, PhaseEvent::Done), Phase::Failed);
    assert!(failure_reply_allowed(Phase::Connecting));
    assert!(!failure_reply_allowed(Phase::Handshaking));
    assert!(!failure_reply_allowed(Phase::Relaying));
}

#[test]
fn requests_are_routed_by_domain_or_address() {
    let mut router = HighPerformanceRouter::new("direct".to_string());
    let mut manager = RuleSetManager::new();
    manager.add_domain_set(DomainRuleSet {
        id: "blocked".to_string(),
        domain: vec![],
        domain_suffix: vec!["ads.example".to_string()],
        domain_keyword: vec![],
        domain_regex: vec![],
    });
    manager.add_ip_set(IpRuleSet { id: "lan".to_string(), ip_cidr: vec!["10.0.0.0/8".to_string()] });
    router.set_rule_manager(manager).unwrap();
    router.add_rule(RouteRule { rule_sets: vec!["blocked".to_string()], outbound: "block".to_string() });
    router.add_rule(RouteRule { rule_sets: vec!["lan".to_string()], outbound: "lan".to_string() });
    assert_eq!(cached_route(&router, &Address::Domain("x.ads.example".to_string())), None);
    assert_eq!(route_address(&mut router, &Address::Domain("x.ads.example".to_string())), "block");
    assert_eq!(cached_route(&router, &Address::Domain("x.ads.example".to_string())), Some("block".to_string()));
    assert_eq!(router.cached_outbound_for_ip(IpAddress::v4(10, 2, 3, 4)), None);
    assert_eq!(route_address(&mut router, &Address::V4([10, 2, 3, 4])), "lan");
    assert_eq!(route_address(&mut router, &Address::V4([11, 2, 3, 4])), "direct");
    assert_eq!(router.cached_outbound_for_ip(IpAddress::v4(10, 2, 3, 4)), Some("lan".to_string()));
    assert_eq!(Protocol::Direct(anybls::protocols::DirectProtocol::new()).name(), "direct");
    assert_eq!(success_reply(Address::V4([1, 2, 3, 4]), 80), vec![5, 0, 0, 1, 1, 2, 3, 4, 0, 80]);
    assert_eq!(failure_reply(Address::V4([1, 2, 3, 4]), 80)[1], 1);
}

#[test]
fn router_compiled_from_configuration() {
    let cfg = RouterConfig {
        default_outbound: "direct".to_string(),
        rules: vec![
            RouterRuleConfig {
                outbound: "proxy".to_string(),
                domains: DomainLists {
                    domain: vec![],
                    domain_suffix: vec!["google.com".to_string()],
                    domain_keyword: vec![],
                    domain_regex: vec![],
                },
                ip_cidr: vec!["8.8.8.0/24".to_string()],
                rule_sets: vec![],
            },
            RouterRuleConfig {
                outbound: "lan".to_string(),
                domains: DomainLists::default(),
                ip_cidr: vec!["10.0.0.0/8".to_string()],
                rule_sets: vec!["corp".to_string()],
            },
        ],
    };
    let mut router = HighPerformanceRouter::from_config(&cfg).unwrap();
    assert_eq!(router.select_outbound_for_domain("www.google.com"), "proxy");
    assert_eq!(router.select_outbound_for_domain("example.com"), "direct");
    assert_eq!(router.select_outbound_for_ip(IpAddress::v4(8, 8, 8, 8)), "proxy");
    assert_eq!(router.select_outbound_for_ip(IpAddress::v4(10, 9, 9, 9)), "lan");
    assert_eq!(router.select_outbound_for_ip(IpAddress::v4(1, 1, 1, 1)), "direct");
    assert_eq!(router.rule_count(), 2);
    assert_eq!(router.select_outbound_for_domain("intranet.corp"), "direct");
    router
        .add_domain_set(DomainRuleSet {
            id: "corp".to_string(),
            domain: vec![],
            domain_suffix: vec!["corp".to_string()],
            domain_keyword: vec![],
            domain_regex: vec![],
        })
        .unwrap();
    assert_eq!(router.select_outbound_for_domain("intranet.corp"), "lan");
    let bad = RouterConfig {
        default_outbound: "direct".to_string(),
        rules: vec![RouterRuleConfig {
            outbound: "x".to_string(),
            domains: DomainLists::default(),
            ip_cidr: vec!["nope".to_string()],
            rule_sets: vec![],
        }],
    };
    assert!(HighPerformanceRouter::from_config(&bad).is_err());
}
