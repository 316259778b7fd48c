use vstd::prelude::*;
use vstd::hash_map::StringHashMap;

verus! {

/// The strings of a vector, as character sequences, in order.
pub open spec fn views(v: Seq<String>) -> Seq<Seq<char>> {
    v.map_values(|s: String| s@)
}

/// A named set of domain criteria.
pub struct DomainRuleSet {
    pub id: String,
    /// Domains matched literally.
    pub domain: Vec<String>,
    /// Domains matched together with all their subdomains.
    pub domain_suffix: Vec<String>,
    /// Substrings that match any domain containing them.
    pub domain_keyword: Vec<String>,
    /// Regular expressions matched against the domain.
    pub domain_regex: Vec<String>,
}

/// A named set of IP networks in CIDR notation.
pub struct IpRuleSet {
    pub id: String,
    pub ip_cidr: Vec<String>,
}

/// A rule set of either kind.
pub enum RuleSet {
    Domain(DomainRuleSet),
    Ip(IpRuleSet),
}

impl RuleSet {
    pub open spec fn id_spec(&self) -> Seq<char> {
        match self {
            RuleSet::Domain(d) => d.id@,
            RuleSet::Ip(i) => i.id@,
        }
    }

    /// The identifier of the rule set.
    pub fn id(&self) -> (r: &String)
        ensures
            r@ == self.id_spec(),
    {
        match self {
            RuleSet::Domain(d) => &d.id,
            RuleSet::Ip(i) => &i.id,
        }
    }
}

/// The store of rule sets, each under its own identifier.
pub struct RuleSetManager {
    domain_sets: StringHashMap<DomainRuleSet>,
    ip_sets: StringHashMap<IpRuleSet>,
    domain_ids: Vec<String>,
    ip_ids: Vec<String>,
}

impl RuleSetManager {
    /// The domain rule sets by identifier.
    pub closed spec fn domain_map(&self) -> Map<Seq<char>, DomainRuleSet> {
        self.domain_sets@
    }

    /// The IP rule sets by identifier.
    pub closed spec fn ip_map(&self) -> Map<Seq<char>, IpRuleSet> {
        self.ip_sets@
    }

    /// The identifiers of the domain rule sets, in order of registration.
    pub closed spec fn domain_id_list(&self) -> Seq<Seq<char>> {
        views(self.domain_ids@)
    }

    /// The identifiers of the IP rule sets, in order of registration.
    pub closed spec fn ip_id_list(&self) -> Seq<Seq<char>> {
        views(self.ip_ids@)
    }

    /// Every set is stored under its own identifier, and the identifier
    /// lists name exactly the stored sets.
    pub open spec fn wf(&self) -> bool {
        &&& forall|k: Seq<char>| #[trigger] self.domain_map().contains_key(k) ==> self.domain_map()[k].id@ == k
        &&& forall|k: Seq<char>| #[trigger] self.ip_map().contains_key(k) ==> self.ip_map()[k].id@ == k
        &&& forall|k: Seq<char>| #[trigger] self.domain_map().contains_key(k) <==> self.domain_id_list().contains(k)
        &&& forall|k: Seq<char>| #[trigger] self.ip_map().contains_key(k) <==> self.ip_id_list().contains(k)
    }

    /// An empty store.
    pub fn new() -> (r: RuleSetManager)
        ensures
            r.wf(),
            r.domain_map() == Map::<Seq<char>, DomainRuleSet>::empty(),
            r.ip_map() == Map::<Seq<char>, IpRuleSet>::empty(),
    {
        let r = RuleSetManager {
            domain_sets: StringHashMap::new(),
            ip_sets: StringHashMap::new(),
            domain_ids: Vec::new(),
            ip_ids: Vec::new(),
        };
        assert(r.domain_id_list() =~= Seq::<Seq<char>>::empty());
        assert(r.ip_id_list() =~= Seq::<Seq<char>>::empty());
        r
    }

    /// Registers a domain rule set, replacing any set with the same identifier.
    pub fn add_domain_set(&mut self, set: DomainRuleSet)
        requires
            old(self).wf(),
        ensures
            final(self).wf(),
            final(self).domain_map() == old(self).domain_map().insert(set.id@, set),
            final(self).ip_map() == old(self).ip_map(),
    {
        let id = set.id.clone();
        let ghost ids0 = self.domain_id_list();
        if !self.domain_sets.contains_key(id.as_str()) {
            let ghost before = self.domain_id_list();
            self.domain_ids.push(id.clone());
            assert(self.domain_id_list() =~= before.push(id@));
        }
        self.domain_sets.insert(id, set);
        assert forall|k: Seq<char>| #[trigger] self.domain_map().contains_key(k) implies self.domain_map()[k].id@ == k by {
            if k != id@ {
                assert(old(self).domain_map().contains_key(k));
            }
        }
        assert forall|k: Seq<char>| #[trigger] self.domain_map().contains_key(k) <==> self.domain_id_list().contains(k) by {
            if old(self).domain_map().contains_key(id@) {
                assert(self.domain_id_list() == ids0);
                if k == id@ {
                    assert(old(self).domain_id_list().contains(k));
                } else if self.domain_map().contains_key(k) {
                    assert(old(self).domain_map().contains_key(k));
                }
            } else {
                assert(self.domain_id_list() == ids0.push(id@));
                if k == id@ {
                    assert(self.domain_id_list()[self.domain_id_list().len() - 1] == k);
                } else {
                    if self.domain_id_list().contains(k) {
                        let j = choose|j: int| 0 <= j < self.domain_id_list().len() && self.domain_id_list()[j] == k;
                        assert(ids0[j] == k);
                        assert(ids0.contains(k));
                    }
                    if old(self).domain_map().contains_key(k) {
                        assert(ids0.contains(k));
                        let j = choose|j: int| 0 <= j < ids0.len() && ids0[j] == k;
                        assert(self.domain_id_list()[j] == k);
                    }
                }
            }
        }
        assert(self.ip_id_list() == old(self).ip_id_list());
        assert(self.ip_map() == old(self).ip_map());
        assert(self.wf());
    }

    /// Registers an IP rule set, replacing any set with the same identifier.
    pub fn add_ip_set(&mut self, set: IpRuleSet)
        requires
            old(self).wf(),
        ensures
            final(self).wf(),
            final(self).ip_map() == old(self).ip_map().insert(set.id@, set),
            final(self).domain_map() == old(self).domain_map(),
    {
        let id = set.id.clone();
        let ghost ids0 = self.ip_id_list();
        if !self.ip_sets.contains_key(id.as_str()) {
            let ghost before = self.ip_id_list();
            self.ip_ids.push(id.clone());
            assert(self.ip_id_list() =~= before.push(id@));
        }
        self.ip_sets.insert(id, set);
        assert forall|k: Seq<char>| #[trigger] self.ip_map().contains_key(k) implies self.ip_map()[k].id@ == k by {
            if k != id@ {
                assert(old(self).ip_map().contains_key(k));
            }
        }
        assert forall|k: Seq<char>| #[trigger] self.ip_map().contains_key(k) <==> self.ip_id_list().contains(k) by {
            if old(self).ip_map().contains_key(id@) {
                assert(self.ip_id_list() == ids0);
                if k == id@ {
                    assert(old(self).ip_id_list().contains(k));
                } else if self.ip_map().contains_key(k) {
                    assert(old(self).ip_map().contains_key(k));
                }
            } else {
                assert(self.ip_id_list() == ids0.push(id@));
                if k == id@ {
                    assert(self.ip_id_list()[self.ip_id_list().len() - 1] == k);
                } else {
                    if self.ip_id_list().contains(k) {
                        let j = choose|j: int| 0 <= j < self.ip_id_list().len() && self.ip_id_list()[j] == k;
                        assert(ids0[j] == k);
                        assert(ids0.contains(k));
                    }
                    if old(self).ip_map().contains_key(k) {
                        assert(ids0.contains(k));
                        let j = choose|j: int| 0 <= j < ids0.len() && ids0[j] == k;
                        assert(self.ip_id_list()[j] == k);
                    }
                }
            }
        }
        assert(self.domain_id_list() == old(self).domain_id_list());
        assert(self.domain_map() == old(self).domain_map());
        assert(self.wf());
    }

    /// The domain rule set registered under `id`, if any.
    pub fn get_domain_set(&self, id: &str) -> (r: Option<&DomainRuleSet>)
        ensures
            r matches Some(s) ==> self.domain_map().contains_key(id@) && *s == self.domain_map()[id@],
            r is None ==> !self.domain_map().contains_key(id@),
    {
        self.domain_sets.get(id)
    }

    /// The IP rule set registered under `id`, if any.
    pub fn get_ip_set(&self, id: &str) -> (r: Option<&IpRuleSet>)
        ensures
            r matches Some(s) ==> self.ip_map().contains_key(id@) && *s == self.ip_map()[id@],
            r is None ==> !self.ip_map().contains_key(id@),
    {
        self.ip_sets.get(id)
    }

    /// The identifiers of the domain rule sets, in order of registration.
    pub fn domain_set_ids(&self) -> (r: &Vec<String>)
        ensures
            views(r@) == self.domain_id_list(),
    {
        &self.domain_ids
    }

    /// The identifiers of the IP rule sets, in order of registration.
    pub fn ip_set_ids(&self) -> (r: &Vec<String>)
        ensures
            views(r@) == self.ip_id_list(),
    {
        &self.ip_ids
    }

    /// All domain rule sets, by identifier.
    pub fn all_domain_sets(&self) -> (r: &StringHashMap<DomainRuleSet>)
        ensures
            r@ == self.domain_map(),
    {
        &self.domain_sets
    }

    /// All IP rule sets, by identifier.
    pub fn all_ip_sets(&self) -> (r: &StringHashMap<IpRuleSet>)
        ensures
            r@ == self.ip_map(),
    {
        &self.ip_sets
    }
}

} // verus!
