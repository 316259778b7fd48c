use vstd::prelude::*;
use crate::error::ProxyError;
use crate::net::IpAddress;
use crate::routing::cache::{CacheStats, MatchCache};
use crate::routing::matchers::{
    DomainMatcher, IpMatcher, MatcherCache, MatcherResult, all_parse, domain_lists_build, domain_lists_match,
    networks_contain, parsed_networks,
};
use crate::routing::rule_sets::{DomainRuleSet, IpRuleSet, RuleSetManager, views};
use crate::config::{RouterConfig, RouterRuleConfig};
use vstd::string::StringExecFns;

verus! {

/// A routing rule: if the queried value matches any of the named rule sets,
/// the connection goes to `outbound`.
#[derive(Clone, Debug)]
pub struct RouteRule {
    pub rule_sets: Vec<String>,
    pub outbound: String,
}

/// The number of decisions each decision-cache table keeps.
pub const DECISION_CACHE_SIZE: usize = 10000;

/// Domain `d` matches the domain rule set.
pub open spec fn domain_set_accepts(set: DomainRuleSet, d: Seq<char>) -> bool {
    domain_lists_match(
        views(set.domain@),
        views(set.domain_suffix@),
        views(set.domain_keyword@),
        views(set.domain_regex@),
        d,
    )
}

/// `ip` lies in one of the networks of the IP rule set.
pub open spec fn ip_set_accepts(set: IpRuleSet, ip: IpAddress) -> bool {
    networks_contain(parsed_networks(set.ip_cidr@), ip)
}

/// The keyword and regex lists of a domain rule set compile.
pub open spec fn domain_set_builds(set: DomainRuleSet) -> bool {
    domain_lists_build(views(set.domain_keyword@), views(set.domain_regex@))
}

/// Every domain rule set compiles and every network of every IP rule set
/// parses.
pub open spec fn sets_build(domain: Map<Seq<char>, DomainRuleSet>, ip: Map<Seq<char>, IpRuleSet>) -> bool {
    &&& forall|k: Seq<char>| #[trigger] domain.contains_key(k) ==> domain_set_builds(domain[k])
    &&& forall|k: Seq<char>| #[trigger] ip.contains_key(k) ==> all_parse(ip[k].ip_cidr@)
}

/// Rule `i` of a configuration compiles: its keyword and regex lists, and
/// its networks.
pub open spec fn config_rule_builds(rule: RouterRuleConfig) -> bool {
    domain_lists_build(views(rule.domains.domain_keyword@), views(rule.domains.domain_regex@))
        && all_parse(rule.ip_cidr@)
}

/// One of the domain rule sets that the rule names, and that exists,
/// matches `d`.
pub open spec fn rule_accepts_domain(rule: RouteRule, sets: Map<Seq<char>, DomainRuleSet>, d: Seq<char>) -> bool {
    exists|j: int|
        0 <= j < rule.rule_sets@.len() && sets.contains_key(#[trigger] rule.rule_sets@[j]@)
            && domain_set_accepts(sets[rule.rule_sets@[j]@], d)
}

/// One of the IP rule sets that the rule names, and that exists, holds `ip`.
pub open spec fn rule_accepts_ip(rule: RouteRule, sets: Map<Seq<char>, IpRuleSet>, ip: IpAddress) -> bool {
    exists|j: int|
        0 <= j < rule.rule_sets@.len() && sets.contains_key(#[trigger] rule.rule_sets@[j]@)
            && ip_set_accepts(sets[rule.rule_sets@[j]@], ip)
}

/// The outbound for `d`, trying the rules from index `i` on: the outbound
/// of the first rule that matches, or the default if none does.
pub open spec fn route_domain_from(
    rules: Seq<RouteRule>,
    sets: Map<Seq<char>, DomainRuleSet>,
    default: Seq<char>,
    d: Seq<char>,
    i: int,
) -> Seq<char>
    decreases rules.len() - i,
{
    if i < 0 || i >= rules.len() {
        default
    } else if rule_accepts_domain(rules[i], sets, d) {
        rules[i].outbound@
    } else {
        route_domain_from(rules, sets, default, d, i + 1)
    }
}

/// The outbound for `ip`, trying the rules from index `i` on.
pub open spec fn route_ip_from(
    rules: Seq<RouteRule>,
    sets: Map<Seq<char>, IpRuleSet>,
    default: Seq<char>,
    ip: IpAddress,
    i: int,
) -> Seq<char>
    decreases rules.len() - i,
{
    if i < 0 || i >= rules.len() {
        default
    } else if rule_accepts_ip(rules[i], sets, ip) {
        rules[i].outbound@
    } else {
        route_ip_from(rules, sets, default, ip, i + 1)
    }
}

/// The identifier of the rule sets compiled from configured rule `i`:
/// `i + 1` hash signs, so that no two rules share one.
pub open spec fn config_set_id(i: int) -> Seq<char> {
    Seq::new((i + 1) as nat, |k: int| '#')
}

fn config_set_id_exec(i: usize) -> (r: String)
    requires
        i < usize::MAX,
    ensures
        r@ == config_set_id(i as int),
{
    let mut s = String::new();
    let mut j: usize = 0;
    proof {
        reveal_strlit("#");
    }
    while j <= i
        invariant
            j <= i + 1,
            i < usize::MAX,
            s@ == config_set_id(j as int - 1),
            "#"@ == seq!['#'],
        decreases i + 1 - j,
    {
        s.append("#");
        j = j + 1;
        assert(s@ =~= config_set_id(j as int - 1));
    }
    s
}

/// Chooses an outbound for a domain or an IP address by ordered rules over
/// named rule sets, remembering its decisions.
pub struct HighPerformanceRouter {
    rule_manager: RuleSetManager,
    matcher_cache: MatcherCache,
    match_cache: MatchCache<String>,
    rules: Vec<RouteRule>,
    default_outbound: String,
}

impl HighPerformanceRouter {
    pub closed spec fn rules_view(&self) -> Seq<RouteRule> {
        self.rules@
    }

    pub closed spec fn domain_sets(&self) -> Map<Seq<char>, DomainRuleSet> {
        self.rule_manager.domain_map()
    }

    pub closed spec fn ip_sets(&self) -> Map<Seq<char>, IpRuleSet> {
        self.rule_manager.ip_map()
    }

    pub closed spec fn default_view(&self) -> Seq<char> {
        self.default_outbound@
    }

    /// The store of rule sets.
    pub closed spec fn store(&self) -> RuleSetManager {
        self.rule_manager
    }

    /// The decision cache.
    pub closed spec fn decision_cache(&self) -> MatchCache<String> {
        self.match_cache
    }

    /// The decisions the router has cached for domains.
    pub closed spec fn cached_domains(&self) -> Map<Seq<char>, String> {
        self.match_cache.domain_entries()
    }

    /// The outbound that the rules give for domain `d`.
    pub open spec fn route_domain(&self, d: Seq<char>) -> Seq<char> {
        route_domain_from(self.rules_view(), self.domain_sets(), self.default_view(), d, 0)
    }

    /// The outbound that the rules give for `ip`.
    pub open spec fn route_ip(&self, ip: IpAddress) -> Seq<char> {
        route_ip_from(self.rules_view(), self.ip_sets(), self.default_view(), ip, 0)
    }

    /// Both routers hold the same rules, rule sets and default.
    pub open spec fn same_routing(&self, other: &HighPerformanceRouter) -> bool {
        &&& self.rules_view() == other.rules_view()
        &&& self.domain_sets() == other.domain_sets()
        &&& self.ip_sets() == other.ip_sets()
        &&& self.default_view() == other.default_view()
    }

    pub closed spec fn wf(&self) -> bool {
        &&& self.rule_manager.wf()
        &&& self.matcher_cache.wf()
        &&& self.match_cache.wf()
        &&& forall|k: Seq<char>| #[trigger] self.matcher_cache.domain_map().contains_key(k)
            <==> self.rule_manager.domain_map().contains_key(k)
        &&& forall|k: Seq<char>| #[trigger] self.matcher_cache.ip_map().contains_key(k)
            <==> self.rule_manager.ip_map().contains_key(k)
        &&& forall|k: Seq<char>| #[trigger] self.rule_manager.domain_map().contains_key(k)
            ==> forall|d: Seq<char>| #[trigger] self.matcher_cache.domain_map()[k].accepts(d)
                == domain_set_accepts(self.rule_manager.domain_map()[k], d)
        &&& forall|k: Seq<char>| #[trigger] self.rule_manager.ip_map().contains_key(k)
            ==> self.matcher_cache.ip_map()[k].networks() == parsed_networks(self.rule_manager.ip_map()[k].ip_cidr@)
        &&& forall|k: Seq<char>| #[trigger] self.match_cache.domain_entries().contains_key(k)
            ==> self.match_cache.domain_entries()[k]@ == self.route_domain(k)
        &&& forall|ip: IpAddress| #[trigger] self.match_cache.ip_entry(ip) is Some
            ==> self.match_cache.ip_entry(ip).unwrap()@ == self.route_ip(ip)
    }

    /// A router with no rules and no rule sets, sending everything to
    /// `default_outbound`.
    pub fn new(default_outbound: String) -> (r: HighPerformanceRouter)
        ensures
            r.wf(),
            r.rules_view() == Seq::<RouteRule>::empty(),
            r.domain_sets() == Map::<Seq<char>, DomainRuleSet>::empty(),
            r.ip_sets() == Map::<Seq<char>, IpRuleSet>::empty(),
            r.default_view() == default_outbound@,
    {
        HighPerformanceRouter {
            rule_manager: RuleSetManager::new(),
            matcher_cache: MatcherCache::new(),
            match_cache: MatchCache::new(DECISION_CACHE_SIZE),
            rules: Vec::new(),
            default_outbound,
        }
    }

    /// Compiles a configured router: rule `i` becomes a domain rule set and
    /// an IP rule set, both named `config_set_id(i)`, and a route rule that
    /// names them first and then the rule sets the configured rule names.
    /// Fails as `set_rule_manager` does.
    pub fn from_config(cfg: &RouterConfig) -> (r: Result<HighPerformanceRouter, ProxyError>)
        requires
            cfg.rules@.len() < usize::MAX,
        ensures
            r matches Ok(router) ==> router.wf() && router.default_view() == cfg.default_outbound@
                && router.rules_view().len() == cfg.rules@.len(),
            r matches Ok(router) ==> forall|i: int| 0 <= i < cfg.rules@.len() ==> {
                &&& (#[trigger] router.rules_view()[i]).outbound@ == cfg.rules@[i].outbound@
                &&& views(router.rules_view()[i].rule_sets@) == seq![config_set_id(i)] + views(cfg.rules@[i].rule_sets@)
                &&& router.domain_sets().contains_key(config_set_id(i))
                &&& router.domain_sets()[config_set_id(i)].domain@ == cfg.rules@[i].domains.domain@
                &&& router.domain_sets()[config_set_id(i)].domain_suffix@ == cfg.rules@[i].domains.domain_suffix@
                &&& router.domain_sets()[config_set_id(i)].domain_keyword@ == cfg.rules@[i].domains.domain_keyword@
                &&& router.domain_sets()[config_set_id(i)].domain_regex@ == cfg.rules@[i].domains.domain_regex@
                &&& router.ip_sets().contains_key(config_set_id(i))
                &&& router.ip_sets()[config_set_id(i)].ip_cidr@ == cfg.rules@[i].ip_cidr@
            },
            r is Ok <==> forall|i: int| 0 <= i < cfg.rules@.len() ==> config_rule_builds(#[trigger] cfg.rules@[i]),
    {
        let mut manager = RuleSetManager::new();
        let mut router = HighPerformanceRouter::new(cfg.default_outbound.clone());
        let n = cfg.rules.len();
        let mut i: usize = 0;
        while i < n
            invariant
                n == cfg.rules@.len(),
                n < usize::MAX,
                i <= n,
                manager.wf(),
                router.wf(),
                router.default_view() == cfg.default_outbound@,
                router.rules_view().len() == i,
                forall|k: Seq<char>| #[trigger] manager.domain_map().contains_key(k) ==> exists|j: int| 0 <= j < i && k == config_set_id(j),
                forall|k: Seq<char>| #[trigger] manager.ip_map().contains_key(k) ==> exists|j: int| 0 <= j < i && k == config_set_id(j),
                forall|j: int| 0 <= j < i ==> {
                    &&& (#[trigger] router.rules_view()[j]).outbound@ == cfg.rules@[j].outbound@
                    &&& views(router.rules_view()[j].rule_sets@) == seq![config_set_id(j)] + views(cfg.rules@[j].rule_sets@)
                    &&& manager.domain_map().contains_key(config_set_id(j))
                    &&& manager.domain_map()[config_set_id(j)].domain@ == cfg.rules@[j].domains.domain@
                    &&& manager.domain_map()[config_set_id(j)].domain_suffix@ == cfg.rules@[j].domains.domain_suffix@
                    &&& manager.domain_map()[config_set_id(j)].domain_keyword@ == cfg.rules@[j].domains.domain_keyword@
                    &&& manager.domain_map()[config_set_id(j)].domain_regex@ == cfg.rules@[j].domains.domain_regex@
                    &&& manager.ip_map().contains_key(config_set_id(j))
                    &&& manager.ip_map()[config_set_id(j)].ip_cidr@ == cfg.rules@[j].ip_cidr@
                },
            decreases n - i,
        {
            let rule = &cfg.rules[i];
            let id = config_set_id_exec(i);
            let ghost old_manager = manager;
            manager.add_domain_set(DomainRuleSet {
                id: id.clone(),
                domain: rule.domains.domain.clone(),
                domain_suffix: rule.domains.domain_suffix.clone(),
                domain_keyword: rule.domains.domain_keyword.clone(),
                domain_regex: rule.domains.domain_regex.clone(),
            });
            manager.add_ip_set(IpRuleSet { id: id.clone(), ip_cidr: rule.ip_cidr.clone() });
            let mut names: Vec<String> = rule.rule_sets.clone();
            let ghost named = names@;
            names.insert(0, id);
            assert(views(names@) =~= seq![config_set_id(i as int)] + views(named));
            let ghost old_rules = router.rules_view();
            router.add_rule(RouteRule { rule_sets: names, outbound: rule.outbound.clone() });
            proof {
                assert(views(router.rules_view()[i as int].rule_sets@) =~= seq![config_set_id(i as int)] + views(cfg.rules@[i as int].rule_sets@));
                assert forall|j: int| 0 <= j < i + 1 implies {
                    &&& (#[trigger] router.rules_view()[j]).outbound@ == cfg.rules@[j].outbound@
                    &&& views(router.rules_view()[j].rule_sets@) == seq![config_set_id(j)] + views(cfg.rules@[j].rule_sets@)
                    &&& manager.domain_map().contains_key(config_set_id(j))
                    &&& manager.domain_map()[config_set_id(j)].domain@ == cfg.rules@[j].domains.domain@
                    &&& manager.domain_map()[config_set_id(j)].domain_suffix@ == cfg.rules@[j].domains.domain_suffix@
                    &&& manager.domain_map()[config_set_id(j)].domain_keyword@ == cfg.rules@[j].domains.domain_keyword@
                    &&& manager.domain_map()[config_set_id(j)].domain_regex@ == cfg.rules@[j].domains.domain_regex@
                    &&& manager.ip_map().contains_key(config_set_id(j))
                    &&& manager.ip_map()[config_set_id(j)].ip_cidr@ == cfg.rules@[j].ip_cidr@
                } by {
                    if j < i {
                        assert(config_set_id(j).len() != config_set_id(i as int).len());
                        assert(router.rules_view()[j] == old_rules[j]);
                    }
                }
                assert forall|k: Seq<char>| #[trigger] manager.domain_map().contains_key(k) implies exists|j: int| 0 <= j < i + 1 && k == config_set_id(j) by {
                    if k != config_set_id(i as int) {
                        assert(old_manager.domain_map().contains_key(k));
                    }
                }
                assert forall|k: Seq<char>| #[trigger] manager.ip_map().contains_key(k) implies exists|j: int| 0 <= j < i + 1 && k == config_set_id(j) by {
                    if k != config_set_id(i as int) {
                        assert(old_manager.ip_map().contains_key(k));
                    }
                }
            }
            i = i + 1;
        }
        let ghost m = manager;
        let ghost compiled = router.rules_view();
        proof {
            assert forall|i: int| 0 <= i < cfg.rules@.len() implies (config_rule_builds(#[trigger] cfg.rules@[i])
                <==> domain_set_builds(m.domain_map()[config_set_id(i)]) && all_parse(m.ip_map()[config_set_id(i)].ip_cidr@)) by {
                assert(compiled[i].outbound@ == cfg.rules@[i].outbound@);
            }
            if forall|i: int| 0 <= i < cfg.rules@.len() ==> config_rule_builds(#[trigger] cfg.rules@[i]) {
                assert forall|k: Seq<char>| #[trigger] m.domain_map().contains_key(k) implies domain_set_builds(m.domain_map()[k]) by {
                    let j = choose|j: int| 0 <= j < n && k == config_set_id(j);
                    assert(config_rule_builds(cfg.rules@[j]));
                }
                assert forall|k: Seq<char>| #[trigger] m.ip_map().contains_key(k) implies all_parse(m.ip_map()[k].ip_cidr@) by {
                    let j = choose|j: int| 0 <= j < n && k == config_set_id(j);
                    assert(config_rule_builds(cfg.rules@[j]));
                }
                assert(sets_build(m.domain_map(), m.ip_map()));
            }
            if sets_build(m.domain_map(), m.ip_map()) {
                assert forall|i: int| 0 <= i < cfg.rules@.len() implies config_rule_builds(#[trigger] cfg.rules@[i]) by {
                    assert(compiled[i].outbound@ == cfg.rules@[i].outbound@);
                    assert(m.domain_map().contains_key(config_set_id(i)));
                    assert(m.ip_map().contains_key(config_set_id(i)));
                }
            }
        }
        match router.set_rule_manager(manager) {
            Ok(()) => {},
            Err(e) => return Err(e),
        }
        proof {
            assert forall|i: int| 0 <= i < cfg.rules@.len() implies (#[trigger] router.rules_view()[i]).outbound@ == cfg.rules@[i].outbound@ by {
                assert(compiled[i].outbound@ == cfg.rules@[i].outbound@);
            }
        }
        Ok(router)
    }

    /// Appends a rule after the existing ones. Cached decisions are dropped,
    /// since the new rule may change them.
    pub fn add_rule(&mut self, rule: RouteRule)
        requires
            old(self).wf(),
        ensures
            final(self).wf(),
            final(self).rules_view() == old(self).rules_view().push(rule),
            final(self).domain_sets() == old(self).domain_sets(),
            final(self).ip_sets() == old(self).ip_sets(),
            final(self).default_view() == old(self).default_view(),
    {
        self.rules.push(rule);
        self.match_cache.clear();
    }

    /// Replaces the rule sets, compiling a matcher for each. On failure
    /// (an invalid CIDR, regex or list) the router is left unchanged.
    pub fn set_rule_manager(&mut self, manager: RuleSetManager) -> (r: Result<(), ProxyError>)
        requires
            old(self).wf(),
            manager.wf(),
        ensures
            final(self).wf(),
            r is Ok ==> final(self).domain_sets() == manager.domain_map() && final(self).ip_sets()
                == manager.ip_map(),
            r is Err ==> final(self).domain_sets() == old(self).domain_sets() && final(self).ip_sets()
                == old(self).ip_sets(),
            r is Ok <==> sets_build(manager.domain_map(), manager.ip_map()),
            final(self).rules_view() == old(self).rules_view(),
            final(self).default_view() == old(self).default_view(),
    {
        let mut matchers = MatcherCache::new();
        let domain_ids = manager.domain_set_ids();
        let mut i: usize = 0;
        while i < domain_ids.len()
            invariant
                *self == *old(self),
                old(self).wf(),
                manager.wf(),
                views(domain_ids@) == manager.domain_id_list(),
                i <= domain_ids@.len(),
                matchers.wf(),
                matchers.ip_map() == Map::<Seq<char>, IpMatcher>::empty(),
                forall|k: Seq<char>| #[trigger] matchers.domain_map().contains_key(k) <==> views(domain_ids@).subrange(0, i as int).contains(k),
                forall|k: Seq<char>| #[trigger] matchers.domain_map().contains_key(k) ==> manager.domain_map().contains_key(k)
                    && forall|d: Seq<char>| #[trigger] matchers.domain_map()[k].accepts(d) == domain_set_accepts(manager.domain_map()[k], d),
                forall|k: Seq<char>| #[trigger] matchers.domain_map().contains_key(k) ==> domain_set_builds(manager.domain_map()[k]),
            decreases domain_ids.len() - i,
        {
            let id = &domain_ids[i];
            assert(manager.domain_id_list()[i as int] == id@);
            assert(manager.domain_id_list().contains(id@));
            let set = match manager.get_domain_set(id.as_str()) {
                Some(s) => s,
                None => {
                    assert(false);
                    return Err(ProxyError::Protocol("missing rule set".to_string()));
                },
            };
            let ghost before = matchers.domain_map();
            let built = matchers.get_domain_matcher(
                id.as_str(),
                set.domain.clone(),
                set.domain_suffix.clone(),
                set.domain_keyword.clone(),
                set.domain_regex.clone(),
            );
            if built.is_err() {
                proof {
                    assert(!domain_set_builds(manager.domain_map()[id@]));
                }
                return Err(ProxyError::Protocol("invalid domain rule set".to_string()));
            }
            proof {
                let sub0 = views(domain_ids@).subrange(0, i as int);
                let sub1 = views(domain_ids@).subrange(0, i as int + 1);
                assert(sub1 =~= sub0.push(id@));
                assert forall|k: Seq<char>| #[trigger] matchers.domain_map().contains_key(k) <==> sub1.contains(k) by {
                    if k == id@ {
                        assert(sub1[i as int] == k);
                    } else {
                        if matchers.domain_map().contains_key(k) {
                            assert(before.contains_key(k));
                            let x = choose|x: int| 0 <= x < sub0.len() && sub0[x] == k;
                            assert(sub1[x] == k);
                        }
                        if sub1.contains(k) {
                            let x = choose|x: int| 0 <= x < sub1.len() && sub1[x] == k;
                            assert(sub0[x] == k);
                            assert(sub0.contains(k));
                        }
                    }
                }
                assert forall|k: Seq<char>| #[trigger] matchers.domain_map().contains_key(k) implies manager.domain_map().contains_key(k)
                    && forall|d: Seq<char>| #[trigger] matchers.domain_map()[k].accepts(d) == domain_set_accepts(manager.domain_map()[k], d) by {
                    if k != id@ || before.contains_key(k) {
                        assert(before.contains_key(k));
                    }
                }
                assert forall|k: Seq<char>| #[trigger] matchers.domain_map().contains_key(k) implies domain_set_builds(manager.domain_map()[k]) by {
                    if k != id@ || before.contains_key(k) {
                        assert(before.contains_key(k));
                    } else {
                        matchers.domain_map()[k].lemma_built();
                    }
                }
            }
            i = i + 1;
        }
        proof {
            assert(views(domain_ids@).subrange(0, i as int) =~= views(domain_ids@));
        }
        let ip_ids = manager.ip_set_ids();
        let mut i: usize = 0;
        while i < ip_ids.len()
            invariant
                *self == *old(self),
                old(self).wf(),
                manager.wf(),
                views(ip_ids@) == manager.ip_id_list(),
                i <= ip_ids@.len(),
                matchers.wf(),
                forall|k: Seq<char>| #[trigger] matchers.domain_map().contains_key(k) <==> manager.domain_map().contains_key(k),
                forall|k: Seq<char>| #[trigger] matchers.domain_map().contains_key(k) ==> domain_set_builds(manager.domain_map()[k]),
                forall|k: Seq<char>| #[trigger] matchers.domain_map().contains_key(k) ==> manager.domain_map().contains_key(k)
                    && forall|d: Seq<char>| #[trigger] matchers.domain_map()[k].accepts(d) == domain_set_accepts(manager.domain_map()[k], d),
                forall|k: Seq<char>| #[trigger] matchers.ip_map().contains_key(k) <==> views(ip_ids@).subrange(0, i as int).contains(k),
                forall|k: Seq<char>| #[trigger] matchers.ip_map().contains_key(k) ==> manager.ip_map().contains_key(k)
                    && matchers.ip_map()[k].networks() == parsed_networks(manager.ip_map()[k].ip_cidr@),
                forall|j: int| 0 <= j < i ==> all_parse(#[trigger] manager.ip_map()[views(ip_ids@)[j]].ip_cidr@),
            decreases ip_ids.len() - i,
        {
            let id = &ip_ids[i];
            assert(manager.ip_id_list()[i as int] == id@);
            assert(manager.ip_id_list().contains(id@));
            let set = match manager.get_ip_set(id.as_str()) {
                Some(s) => s,
                None => {
                    assert(false);
                    return Err(ProxyError::Protocol("missing rule set".to_string()));
                },
            };
            let ghost before = matchers.ip_map();
            let built = matchers.get_ip_matcher(id.as_str(), set.ip_cidr.clone());
            if built.is_err() {
                proof {
                    assert(!all_parse(manager.ip_map()[id@].ip_cidr@));
                    assert(manager.ip_map().contains_key(id@));
                }
                assert(!sets_build(manager.domain_map(), manager.ip_map()));
                return Err(ProxyError::Protocol("invalid IP rule set".to_string()));
            }
            proof {
                let sub0 = views(ip_ids@).subrange(0, i as int);
                let sub1 = views(ip_ids@).subrange(0, i as int + 1);
                assert(sub1 =~= sub0.push(id@));
                assert forall|k: Seq<char>| #[trigger] matchers.ip_map().contains_key(k) <==> sub1.contains(k) by {
                    if k == id@ {
                        assert(sub1[i as int] == k);
                    } else {
                        if matchers.ip_map().contains_key(k) {
                            assert(before.contains_key(k));
                            let x = choose|x: int| 0 <= x < sub0.len() && sub0[x] == k;
                            assert(sub1[x] == k);
                        }
                        if sub1.contains(k) {
                            let x = choose|x: int| 0 <= x < sub1.len() && sub1[x] == k;
                            assert(sub0[x] == k);
                            assert(sub0.contains(k));
                        }
                    }
                }
                assert forall|k: Seq<char>| #[trigger] matchers.ip_map().contains_key(k) implies manager.ip_map().contains_key(k)
                    && matchers.ip_map()[k].networks() == parsed_networks(manager.ip_map()[k].ip_cidr@) by {
                    if k != id@ {
                        assert(before.contains_key(k));
                    }
                }
                assert forall|j: int| 0 <= j < i + 1 implies all_parse(#[trigger] manager.ip_map()[views(ip_ids@)[j]].ip_cidr@) by {
                    if j == i {
                        assert(views(ip_ids@)[j] == id@);
                    }
                }
            }
            i = i + 1;
        }
        proof {
            assert(views(ip_ids@).subrange(0, i as int) =~= views(ip_ids@));
            assert forall|k: Seq<char>| #[trigger] manager.ip_map().contains_key(k) implies all_parse(manager.ip_map()[k].ip_cidr@) by {
                assert(manager.ip_id_list().contains(k));
                let j = choose|j: int| 0 <= j < views(ip_ids@).len() && views(ip_ids@)[j] == k;
            }
            assert forall|k: Seq<char>| #[trigger] manager.domain_map().contains_key(k) implies domain_set_builds(manager.domain_map()[k]) by {
                assert(matchers.domain_map().contains_key(k));
            }
            assert(sets_build(manager.domain_map(), manager.ip_map()));
        }
        proof {
            assert forall|k: Seq<char>| #[trigger] matchers.ip_map().contains_key(k) <==> manager.ip_map().contains_key(k) by {
                assert(views(ip_ids@).subrange(0, i as int).contains(k) <==> manager.ip_id_list().contains(k));
            }
        }
        self.rule_manager = manager;
        self.matcher_cache = matchers;
        self.match_cache.clear();
        proof {
            assert forall|k: Seq<char>| #[trigger] self.rule_manager.ip_map().contains_key(k)
                implies self.matcher_cache.ip_map()[k].networks() == parsed_networks(self.rule_manager.ip_map()[k].ip_cidr@) by {
                assert(self.matcher_cache.ip_map().contains_key(k));
            }
            assert forall|k: Seq<char>| #[trigger] self.rule_manager.domain_map().contains_key(k)
                implies forall|d: Seq<char>| #[trigger] self.matcher_cache.domain_map()[k].accepts(d)
                == domain_set_accepts(self.rule_manager.domain_map()[k], d) by {
                assert(self.matcher_cache.domain_map().contains_key(k));
            }
            assert forall|ip: IpAddress| #[trigger] self.match_cache.ip_entry(ip) is Some
                implies self.match_cache.ip_entry(ip).unwrap()@ == self.route_ip(ip) by {
            }
        }
        Ok(())
    }

    /// Registers a domain rule set, replacing any set with its identifier;
    /// its matcher is compiled first and replaces the cached one, and cached
    /// decisions are dropped. If it cannot be compiled the router is left
    /// unchanged.
    pub fn add_domain_set(&mut self, set: DomainRuleSet) -> (r: Result<(), ProxyError>)
        requires
            old(self).wf(),
        ensures
            final(self).wf(),
            r is Ok <==> domain_set_builds(set),
            r is Ok ==> final(self).domain_sets() == old(self).domain_sets().insert(set.id@, set),
            r is Err ==> final(self).domain_sets() == old(self).domain_sets(),
            final(self).ip_sets() == old(self).ip_sets(),
            final(self).rules_view() == old(self).rules_view(),
            final(self).default_view() == old(self).default_view(),
    {
        let m = match DomainMatcher::new(
            set.domain.clone(),
            set.domain_suffix.clone(),
            set.domain_keyword.clone(),
            set.domain_regex.clone(),
        ) {
            Ok(m) => m,
            Err(e) => return Err(e),
        };
        let ghost id = set.id@;
        self.matcher_cache.insert_domain_matcher(set.id.clone(), m);
        self.rule_manager.add_domain_set(set);
        self.match_cache.clear();
        proof {
            assert forall|k: Seq<char>| #[trigger] self.rule_manager.domain_map().contains_key(k)
                implies forall|d: Seq<char>| #[trigger] self.matcher_cache.domain_map()[k].accepts(d)
                == domain_set_accepts(self.rule_manager.domain_map()[k], d) by {
                if k != id {
                    assert(old(self).rule_manager.domain_map().contains_key(k));
                }
            }
            assert forall|k: Seq<char>| #[trigger] self.matcher_cache.domain_map().contains_key(k)
                <==> self.rule_manager.domain_map().contains_key(k) by {
                if k != id {
                    assert(old(self).matcher_cache.domain_map().contains_key(k) == old(self).rule_manager.domain_map().contains_key(k));
                }
            }
            assert forall|ip: IpAddress| #[trigger] self.match_cache.ip_entry(ip) is Some
                implies self.match_cache.ip_entry(ip).unwrap()@ == self.route_ip(ip) by {
            }
        }
        Ok(())
    }

    /// Registers an IP rule set, replacing any set with its identifier; its
    /// matcher is compiled first and replaces the cached one, and cached
    /// decisions are dropped. Fails, leaving the router unchanged, exactly
    /// when one of its networks does not parse.
    pub fn add_ip_set(&mut self, set: IpRuleSet) -> (r: Result<(), ProxyError>)
        requires
            old(self).wf(),
        ensures
            final(self).wf(),
            r is Ok <==> all_parse(set.ip_cidr@),
            r is Ok ==> final(self).ip_sets() == old(self).ip_sets().insert(set.id@, set),
            r is Err ==> final(self).ip_sets() == old(self).ip_sets(),
            final(self).domain_sets() == old(self).domain_sets(),
            final(self).rules_view() == old(self).rules_view(),
            final(self).default_view() == old(self).default_view(),
    {
        let m = match IpMatcher::new(set.ip_cidr.clone()) {
            Ok(m) => m,
            Err(e) => return Err(e),
        };
        let ghost id = set.id@;
        self.matcher_cache.insert_ip_matcher(set.id.clone(), m);
        self.rule_manager.add_ip_set(set);
        self.match_cache.clear();
        proof {
            assert forall|k: Seq<char>| #[trigger] self.rule_manager.ip_map().contains_key(k)
                implies self.matcher_cache.ip_map()[k].networks() == parsed_networks(self.rule_manager.ip_map()[k].ip_cidr@) by {
                if k != id {
                    assert(old(self).rule_manager.ip_map().contains_key(k));
                }
            }
            assert forall|k: Seq<char>| #[trigger] self.matcher_cache.ip_map().contains_key(k)
                <==> self.rule_manager.ip_map().contains_key(k) by {
                if k != id {
                    assert(old(self).matcher_cache.ip_map().contains_key(k) == old(self).rule_manager.ip_map().contains_key(k));
                }
            }
            assert forall|k: Seq<char>| #[trigger] self.rule_manager.domain_map().contains_key(k)
                implies forall|d: Seq<char>| #[trigger] self.matcher_cache.domain_map()[k].accepts(d)
                == domain_set_accepts(self.rule_manager.domain_map()[k], d) by {
                assert(old(self).rule_manager.domain_map().contains_key(k));
            }
            assert forall|ip: IpAddress| #[trigger] self.match_cache.ip_entry(ip) is Some
                implies self.match_cache.ip_entry(ip).unwrap()@ == self.route_ip(ip) by {
            }
        }
        Ok(())
    }

    /// Whether `domain` matches one of the domain rule sets the rule names.
    fn matches_domain_rule(&self, domain: &str, rule: &RouteRule) -> (r: bool)
        requires
            self.wf(),
        ensures
            r == rule_accepts_domain(*rule, self.domain_sets(), domain@),
    {
        let mut j: usize = 0;
        while j < rule.rule_sets.len()
            invariant
                self.wf(),
                j <= rule.rule_sets@.len(),
                forall|x: int| 0 <= x < j ==> !(self.domain_sets().contains_key(#[trigger] rule.rule_sets@[x]@)
                    && domain_set_accepts(self.domain_sets()[rule.rule_sets@[x]@], domain@)),
            decreases rule.rule_sets.len() - j,
        {
            let id = &rule.rule_sets[j];
            if let Some(m) = self.matcher_cache.domain_matcher(id.as_str()) {
                assert(self.matcher_cache.domain_map().contains_key(id@));
                assert(m.wf());
                if m.matches(domain) == MatcherResult::Match {
                    assert(m.accepts(domain@));
                    return true;
                }
                assert(!m.accepts(domain@));
            }
            j = j + 1;
        }
        false
    }

    /// Whether `ip` lies in one of the IP rule sets the rule names.
    fn matches_ip_rule(&self, ip: IpAddress, rule: &RouteRule) -> (r: bool)
        requires
            self.wf(),
        ensures
            r == rule_accepts_ip(*rule, self.ip_sets(), ip),
    {
        let mut j: usize = 0;
        while j < rule.rule_sets.len()
            invariant
                self.wf(),
                j <= rule.rule_sets@.len(),
                forall|x: int| 0 <= x < j ==> !(self.ip_sets().contains_key(#[trigger] rule.rule_sets@[x]@)
                    && ip_set_accepts(self.ip_sets()[rule.rule_sets@[x]@], ip)),
            decreases rule.rule_sets.len() - j,
        {
            let id = &rule.rule_sets[j];
            if let Some(m) = self.matcher_cache.ip_matcher(id.as_str()) {
                assert(self.matcher_cache.ip_map().contains_key(id@));
                assert(m.wf());
                if m.matches(ip) == MatcherResult::Match {
                    return true;
                }
            }
            j = j + 1;
        }
        false
    }

    /// Walks the rules in order for a domain, without the cache.
    fn evaluate_domain(&self, domain: &str) -> (r: String)
        requires
            self.wf(),
        ensures
            r@ == self.route_domain(domain@),
    {
        let mut i: usize = 0;
        while i < self.rules.len()
            invariant
                self.wf(),
                i <= self.rules@.len(),
                self.route_domain(domain@) == route_domain_from(self.rules_view(), self.domain_sets(), self.default_view(), domain@, i as int),
            decreases self.rules.len() - i,
        {
            if self.matches_domain_rule(domain, &self.rules[i]) {
                return self.rules[i].outbound.clone();
            }
            i = i + 1;
        }
        self.default_outbound.clone()
    }

    /// Walks the rules in order for an address, without the cache.
    fn evaluate_ip(&self, ip: IpAddress) -> (r: String)
        requires
            self.wf(),
        ensures
            r@ == self.route_ip(ip),
    {
        let mut i: usize = 0;
        while i < self.rules.len()
            invariant
                self.wf(),
                i <= self.rules@.len(),
                self.route_ip(ip) == route_ip_from(self.rules_view(), self.ip_sets(), self.default_view(), ip, i as int),
            decreases self.rules.len() - i,
        {
            if self.matches_ip_rule(ip, &self.rules[i]) {
                return self.rules[i].outbound.clone();
            }
            i = i + 1;
        }
        self.default_outbound.clone()
    }

    /// The cached decision for a domain, if there is one; it is the
    /// outbound the rules give.
    pub fn cached_outbound_for_domain(&self, domain: &str) -> (r: Option<String>)
        requires
            self.wf(),
        ensures
            r matches Some(v) ==> v@ == self.route_domain(domain@),
            r is None ==> !self.cached_domains().contains_key(domain@),
    {
        match self.match_cache.get_domain(domain) {
            Some(v) => Some(v.clone()),
            None => None,
        }
    }

    /// The cached decision for an address, if there is one; it is the
    /// outbound the rules give.
    pub fn cached_outbound_for_ip(&self, ip: IpAddress) -> (r: Option<String>)
        requires
            self.wf(),
        ensures
            r matches Some(v) ==> v@ == self.route_ip(ip),
    {
        match self.match_cache.get_ip(&ip) {
            Some(v) => Some(v.clone()),
            None => None,
        }
    }

    /// The outbound for a domain: the cached decision if there is one, else
    /// the outbound of the first matching rule (or the default), which is
    /// then cached.
    pub fn select_outbound_for_domain(&mut self, domain: &str) -> (r: String)
        requires
            old(self).wf(),
        ensures
            final(self).wf(),
            final(self).same_routing(old(self)),
            r@ == old(self).route_domain(domain@),
    {
        if let Some(v) = self.match_cache.get_domain(domain) {
            return v.clone();
        }
        let r = self.evaluate_domain(domain);
        let ghost before = *self;
        self.match_cache.set_domain(domain.to_owned(), r.clone());
        proof {
            assert forall|k: Seq<char>| #[trigger] self.match_cache.domain_entries().contains_key(k)
                implies self.match_cache.domain_entries()[k]@ == self.route_domain(k) by {
                if k != domain@ {
                    assert(before.match_cache.domain_entries().contains_key(k));
                }
            }
            assert forall|ip: IpAddress| #[trigger] self.match_cache.ip_entry(ip) is Some implies self.match_cache.ip_entry(ip).unwrap()@ == self.route_ip(ip) by {
                assert(before.match_cache.ip_entry(ip) == self.match_cache.ip_entry(ip));
            }
        }
        r
    }

    /// The outbound for an address, by the same procedure.
    pub fn select_outbound_for_ip(&mut self, ip: IpAddress) -> (r: String)
        requires
            old(self).wf(),
        ensures
            final(self).wf(),
            final(self).same_routing(old(self)),
            r@ == old(self).route_ip(ip),
    {
        if let Some(v) = self.match_cache.get_ip(&ip) {
            return v.clone();
        }
        let r = self.evaluate_ip(ip);
        let ghost before = *self;
        self.match_cache.set_ip(ip, r.clone());
        proof {
            assert forall|other: IpAddress| #[trigger] self.match_cache.ip_entry(other) is Some implies self.match_cache.ip_entry(other).unwrap()@ == self.route_ip(other) by {
                if other != ip {
                    assert(self.match_cache.ip_entry(other) is Some);
                    assert(self.match_cache.ip_entry(other) == before.match_cache.ip_entry(other));
                }
            }
        }
        r
    }

    /// Sizes of the decision cache.
    pub fn get_cache_stats(&self) -> (r: CacheStats)
        requires
            self.wf(),
        ensures
            r.domain_cache_size == self.decision_cache().domain_size(),
            r.ip_cache_size == crate::routing::cache::sat_add(self.decision_cache().ipv4_size(), self.decision_cache().ipv6_size()),
    {
        self.match_cache.stats()
    }

    /// Forgets every cached decision; routing itself is unchanged.
    pub fn clear_cache(&mut self)
        requires
            old(self).wf(),
        ensures
            final(self).wf(),
            final(self).same_routing(old(self)),
            final(self).cached_domains() == Map::<Seq<char>, String>::empty(),
    {
        self.match_cache.clear();
    }

    /// The number of rules.
    pub fn rule_count(&self) -> (r: usize)
        ensures
            r == self.rules_view().len(),
    {
        self.rules.len()
    }

    /// The number of registered rule sets of both kinds.
    pub fn rule_set_count(&self) -> (r: usize)
        requires
            self.wf(),
        ensures
            r == crate::routing::cache::sat_add(
                self.store().domain_id_list().len(),
                self.store().ip_id_list().len(),
            ),
    {
        self.rule_manager.domain_set_ids().len().saturating_add(self.rule_manager.ip_set_ids().len())
    }
}

/// The route of a value is fixed by the rules, the rule sets and the
/// default alone: two routers that agree on those give every domain and
/// every address the same outbound, whatever their decision caches hold.
/// A router keeps them across `select_outbound_for_*` and `clear_cache`,
/// so repeated queries, and queries after clearing the cache, agree.
pub proof fn law_routing_ignores_cache(a: &HighPerformanceRouter, b: &HighPerformanceRouter, d: Seq<char>, ip: IpAddress)
    requires
        a.same_routing(b),
    ensures
        a.route_domain(d) == b.route_domain(d),
        a.route_ip(ip) == b.route_ip(ip),
{
}

/// The first rule that matches decides: if rule `i` matches `d` and no
/// earlier rule does, `d` goes to rule `i`'s outbound.
pub proof fn law_first_match_wins(
    rules: Seq<RouteRule>,
    sets: Map<Seq<char>, DomainRuleSet>,
    default: Seq<char>,
    d: Seq<char>,
    i: int,
)
    requires
        0 <= i < rules.len(),
        rule_accepts_domain(rules[i], sets, d),
        forall|j: int| 0 <= j < i ==> !rule_accepts_domain(#[trigger] rules[j], sets, d),
    ensures
        route_domain_from(rules, sets, default, d, 0) == rules[i].outbound@,
{
    lemma_skip_unmatched_domain(rules, sets, default, d, 0, i);
}

proof fn lemma_skip_unmatched_domain(
    rules: Seq<RouteRule>,
    sets: Map<Seq<char>, DomainRuleSet>,
    default: Seq<char>,
    d: Seq<char>,
    from: int,
    to: int,
)
    requires
        0 <= from <= to <= rules.len(),
        forall|j: int| from <= j < to ==> !rule_accepts_domain(#[trigger] rules[j], sets, d),
    ensures
        route_domain_from(rules, sets, default, d, from) == route_domain_from(rules, sets, default, d, to),
    decreases to - from,
{
    if from < to {
        assert(!rule_accepts_domain(rules[from], sets, d));
        lemma_skip_unmatched_domain(rules, sets, default, d, from + 1, to);
    }
}

proof fn lemma_skip_unmatched_ip(
    rules: Seq<RouteRule>,
    sets: Map<Seq<char>, IpRuleSet>,
    default: Seq<char>,
    ip: IpAddress,
    from: int,
    to: int,
)
    requires
        0 <= from <= to <= rules.len(),
        forall|j: int| from <= j < to ==> !rule_accepts_ip(#[trigger] rules[j], sets, ip),
    ensures
        route_ip_from(rules, sets, default, ip, from) == route_ip_from(rules, sets, default, ip, to),
    decreases to - from,
{
    if from < to {
        assert(!rule_accepts_ip(rules[from], sets, ip));
        lemma_skip_unmatched_ip(rules, sets, default, ip, from + 1, to);
    }
}

/// A domain or an address that no rule matches goes to the default outbound.
pub proof fn law_default_fallback(
    rules: Seq<RouteRule>,
    domain_sets: Map<Seq<char>, DomainRuleSet>,
    ip_sets: Map<Seq<char>, IpRuleSet>,
    default: Seq<char>,
    d: Seq<char>,
    ip: IpAddress,
)
    ensures
        (forall|j: int| 0 <= j < rules.len() ==> !rule_accepts_domain(#[trigger] rules[j], domain_sets, d))
            ==> route_domain_from(rules, domain_sets, default, d, 0) == default,
        (forall|j: int| 0 <= j < rules.len() ==> !rule_accepts_ip(#[trigger] rules[j], ip_sets, ip))
            ==> route_ip_from(rules, ip_sets, default, ip, 0) == default,
{
    if forall|j: int| 0 <= j < rules.len() ==> !rule_accepts_domain(#[trigger] rules[j], domain_sets, d) {
        lemma_skip_unmatched_domain(rules, domain_sets, default, d, 0, rules.len() as int);
    }
    if forall|j: int| 0 <= j < rules.len() ==> !rule_accepts_ip(#[trigger] rules[j], ip_sets, ip) {
        lemma_skip_unmatched_ip(rules, ip_sets, default, ip, 0, rules.len() as int);
    }
}

} // verus!
