use vstd::prelude::*;
use vstd::hash_map::{HashMapWithView, StringHashMap};
use crate::net::IpAddress;
use crate::routing::rule_sets::views;

verus! {

broadcast use vstd::std_specs::hash::group_hash_axioms;

/// The most entries a table of the given bound may hold: the bound itself,
/// and one for a bound of zero.
pub open spec fn capacity_of(max_size: usize) -> nat {
    if max_size == 0 { 1 } else { max_size as nat }
}

/// A map with integer keys that remembers the order in which its keys
/// arrived, so that the oldest half can be dropped when it is full.
#[verifier::reject_recursive_types(V)]
pub struct KeyTable<V> {
    map: HashMapWithView<u128, V>,
    order: Vec<u128>,
}

impl<V> KeyTable<V> {
    pub closed spec fn entries(&self) -> Map<u128, V> {
        self.map@
    }

    pub closed spec fn size(&self) -> nat {
        self.order@.len()
    }

    pub closed spec fn wf(&self) -> bool {
        &&& self.order@.no_duplicates()
        &&& forall|k: u128| #[trigger] self.map@.contains_key(k) <==> self.order@.contains(k)
    }

    pub fn new() -> (r: Self)
        ensures
            r.wf(),
            r.entries() == Map::<u128, V>::empty(),
            r.size() == 0,
    {
        KeyTable { map: HashMapWithView::new(), order: Vec::new() }
    }

    pub fn get(&self, k: &u128) -> (r: Option<&V>)
        requires
            self.wf(),
        ensures
            r matches Some(v) ==> self.entries().contains_key(*k) && *v == self.entries()[*k],
            r is None ==> !self.entries().contains_key(*k),
    {
        self.map.get(k)
    }

    /// Drops the older half of the entries, rounded up.
    fn evict_half(&mut self)
        requires
            old(self).wf(),
        ensures
            final(self).wf(),
            final(self).size() == old(self).size() / 2,
            forall|k: u128| #[trigger] final(self).entries().contains_key(k) ==> old(self).entries().contains_key(k) && final(self).entries()[k] == old(self).entries()[k],
    {
        let n = self.order.len();
        let cut = n - n / 2;
        let ghost order = self.order@;
        let ghost map0 = self.map@;
        let mut kept: Vec<u128> = Vec::new();
        let mut i: usize = 0;
        while i < n
            invariant
                n == order.len(),
                cut == n - n / 2,
                i <= n,
                self.order@ == order,
                order.no_duplicates(),
                forall|k: u128| #[trigger] self.map@.contains_key(k) <==> exists|j: int| (if i < cut { i as int } else { cut as int }) <= j < n && order[j] == k,
                forall|k: u128| #[trigger] self.map@.contains_key(k) ==> map0.contains_key(k) && self.map@[k] == map0[k],
                kept@ == order.subrange(cut as int, if i < cut { cut as int } else { i as int }),
            decreases n - i,
        {
            if i < cut {
                let k = self.order[i];
                let _ = self.map.remove(&k);
            } else {
                kept.push(self.order[i]);
            }
            i = i + 1;
        }
        proof {
            assert(kept@ =~= order.subrange(cut as int, n as int));
            assert forall|k: u128| #[trigger] self.map@.contains_key(k) <==> kept@.contains(k) by {
                if self.map@.contains_key(k) {
                    let j = choose|j: int| cut <= j < n && order[j] == k;
                    assert(kept@[j - cut] == k);
                }
                if kept@.contains(k) {
                    let j = choose|j: int| 0 <= j < kept@.len() && kept@[j] == k;
                    assert(order[j + cut] == k);
                }
            }
        }
        self.order = kept;
    }

    /// Stores `v` under `k`, first dropping the older half of the entries if
    /// the table holds `max_size` keys or more and `k` is new.
    pub fn insert_bounded(&mut self, k: u128, v: V, max_size: usize)
        requires
            old(self).wf(),
            old(self).size() <= capacity_of(max_size),
        ensures
            final(self).wf(),
            final(self).size() <= capacity_of(max_size),
            final(self).entries().contains_key(k) && final(self).entries()[k] == v,
            forall|j: u128| #[trigger] final(self).entries().contains_key(j) && j != k ==> old(self).entries().contains_key(j) && final(self).entries()[j] == old(self).entries()[j],
            old(self).entries().contains_key(k) ==> final(self).entries() == old(self).entries().insert(k, v)
                && final(self).size() == old(self).size(),
            !old(self).entries().contains_key(k) && old(self).size() < max_size ==> final(self).entries()
                == old(self).entries().insert(k, v) && final(self).size() == old(self).size() + 1,
            !old(self).entries().contains_key(k) && old(self).size() >= max_size ==> final(self).size()
                == old(self).size() / 2 + 1,
    {
        if self.map.contains_key(&k) {
            self.map.insert(k, v);
            return;
        }
        let ghost m0 = self.entries();
        if self.order.len() >= max_size {
            self.evict_half();
        }
        let ghost o = self.order@;
        let ghost m1 = self.entries();
        assert(!m1.contains_key(k)) by {
            if m1.contains_key(k) {
                assert(self.entries().contains_key(k));
            }
        }
        self.order.push(k);
        self.map.insert(k, v);
        proof {
            assert forall|a: int, b: int| 0 <= a < b < self.order@.len() implies self.order@[a] != self.order@[b] by {
                if b == self.order@.len() - 1 {
                    assert(o.contains(o[a]));
                    assert(m1.contains_key(o[a]));
                } else {
                    assert(o[a] != o[b]);
                }
            }
            assert(self.order@.no_duplicates());
            assert forall|j: u128| #[trigger] self.map@.contains_key(j) <==> self.order@.contains(j) by {
                if self.order@.contains(j) && j != k {
                    let x = choose|x: int| 0 <= x < self.order@.len() && self.order@[x] == j;
                    assert(o[x] == j);
                    assert(o.contains(j));
                }
                if j != k && self.map@.contains_key(j) {
                    assert(m1.contains_key(j));
                    assert(o.contains(j));
                    let x = choose|x: int| 0 <= x < o.len() && o[x] == j;
                    assert(self.order@[x] == j);
                }
                if j == k {
                    assert(self.order@[self.order@.len() - 1] == k);
                }
            }
            assert forall|j: u128| #[trigger] self.map@.contains_key(j) && j != k implies m0.contains_key(j) && self.map@[j] == m0[j] by {
                assert(m1.contains_key(j));
                if m1 != m0 {
                    assert(old(self).entries().contains_key(j));
                }
            }
        }
    }

    pub fn clear(&mut self)
        requires
            old(self).wf(),
        ensures
            final(self).wf(),
            final(self).entries() == Map::<u128, V>::empty(),
            final(self).size() == 0,
    {
        self.map.clear();
        self.order = Vec::new();
    }

    pub fn len(&self) -> (r: usize)
        ensures
            r == self.size(),
    {
        self.order.len()
    }
}

/// A map with string keys that remembers the order in which its keys
/// arrived, so that the oldest half can be dropped when it is full.
#[verifier::reject_recursive_types(V)]
pub struct StringTable<V> {
    map: StringHashMap<V>,
    order: Vec<String>,
}

impl<V> StringTable<V> {
    pub closed spec fn entries(&self) -> Map<Seq<char>, V> {
        self.map@
    }

    pub closed spec fn size(&self) -> nat {
        self.order@.len()
    }

    closed spec fn keys(&self) -> Seq<Seq<char>> {
        views(self.order@)
    }

    pub closed spec fn wf(&self) -> bool {
        &&& self.keys().no_duplicates()
        &&& forall|k: Seq<char>| #[trigger] self.map@.contains_key(k) <==> self.keys().contains(k)
    }

    pub fn new() -> (r: Self)
        ensures
            r.wf(),
            r.entries() == Map::<Seq<char>, V>::empty(),
            r.size() == 0,
    {
        let r = StringTable { map: StringHashMap::new(), order: Vec::new() };
        assert(r.keys() =~= Seq::<Seq<char>>::empty());
        r
    }

    pub fn get(&self, k: &str) -> (r: Option<&V>)
        ensures
            r matches Some(v) ==> self.entries().contains_key(k@) && *v == self.entries()[k@],
            r is None ==> !self.entries().contains_key(k@),
    {
        self.map.get(k)
    }

    /// Drops the older half of the entries, rounded up.
    fn evict_half(&mut self)
        requires
            old(self).wf(),
        ensures
            final(self).wf(),
            final(self).size() == old(self).size() / 2,
            forall|k: Seq<char>| #[trigger] final(self).entries().contains_key(k) ==> old(self).entries().contains_key(k) && final(self).entries()[k] == old(self).entries()[k],
    {
        let n = self.order.len();
        let cut = n - n / 2;
        let ghost order = self.keys();
        let ghost map0 = self.map@;
        let mut kept: Vec<String> = Vec::new();
        let mut i: usize = 0;
        while i < n
            invariant
                n == order.len(),
                n == self.order@.len(),
                cut == n - n / 2,
                i <= n,
                views(self.order@) == order,
                order.no_duplicates(),
                forall|k: Seq<char>| #[trigger] self.map@.contains_key(k) <==> exists|j: int| (if i < cut { i as int } else { cut as int }) <= j < n && order[j] == k,
                forall|k: Seq<char>| #[trigger] self.map@.contains_key(k) ==> map0.contains_key(k) && self.map@[k] == map0[k],
                views(kept@) == order.subrange(cut as int, if i < cut { cut as int } else { i as int }),
            decreases n - i,
        {
            if i < cut {
                self.map.remove(self.order[i].as_str());
                assert(order[i as int] == self.order@[i as int]@);
            } else {
                let k = self.order[i].clone();
                let ghost before = kept@;
                kept.push(k);
                assert(views(kept@) =~= views(before).push(order[i as int]));
            }
            i = i + 1;
        }
        proof {
            assert(views(kept@) =~= order.subrange(cut as int, n as int));
            assert forall|k: Seq<char>| #[trigger] self.map@.contains_key(k) <==> views(kept@).contains(k) by {
                if self.map@.contains_key(k) {
                    let j = choose|j: int| cut <= j < n && order[j] == k;
                    assert(views(kept@)[j - cut] == k);
                }
                if views(kept@).contains(k) {
                    let j = choose|j: int| 0 <= j < views(kept@).len() && views(kept@)[j] == k;
                    assert(order[j + cut] == k);
                }
            }
        }
        self.order = kept;
    }

    /// Stores `v` under `k`, first dropping the older half of the entries if
    /// the table holds `max_size` keys or more and `k` is new.
    pub fn insert_bounded(&mut self, k: String, v: V, max_size: usize)
        requires
            old(self).wf(),
            old(self).size() <= capacity_of(max_size),
        ensures
            final(self).wf(),
            final(self).size() <= capacity_of(max_size),
            final(self).entries().contains_key(k@) && final(self).entries()[k@] == v,
            forall|j: Seq<char>| #[trigger] final(self).entries().contains_key(j) && j != k@ ==> old(self).entries().contains_key(j) && final(self).entries()[j] == old(self).entries()[j],
            old(self).entries().contains_key(k@) ==> final(self).entries() == old(self).entries().insert(k@, v)
                && final(self).size() == old(self).size(),
            !old(self).entries().contains_key(k@) && old(self).size() < max_size ==> final(self).entries()
                == old(self).entries().insert(k@, v) && final(self).size() == old(self).size() + 1,
            !old(self).entries().contains_key(k@) && old(self).size() >= max_size ==> final(self).size()
                == old(self).size() / 2 + 1,
    {
        if self.map.contains_key(k.as_str()) {
            self.map.insert(k, v);
            return;
        }
        let ghost m0 = self.entries();
        if self.order.len() >= max_size {
            self.evict_half();
        }
        let ghost o = self.keys();
        let ghost m1 = self.entries();
        assert(!m1.contains_key(k@)) by {
            if m1.contains_key(k@) {
                assert(self.entries().contains_key(k@));
            }
        }
        let key = k.clone();
        self.order.push(key);
        self.map.insert(k, v);
        proof {
            assert(self.keys() =~= o.push(k@));
            assert forall|a: int, b: int| 0 <= a < b < self.keys().len() implies self.keys()[a] != self.keys()[b] by {
                if b == self.keys().len() - 1 {
                    assert(o.contains(o[a]));
                    assert(m1.contains_key(o[a]));
                } else {
                    assert(o[a] != o[b]);
                }
            }
            assert(self.keys().no_duplicates());
            assert forall|j: Seq<char>| #[trigger] self.map@.contains_key(j) <==> self.keys().contains(j) by {
                if self.keys().contains(j) && j != k@ {
                    let x = choose|x: int| 0 <= x < self.keys().len() && self.keys()[x] == j;
                    assert(o[x] == j);
                    assert(o.contains(j));
                }
                if j != k@ && self.map@.contains_key(j) {
                    assert(m1.contains_key(j));
                    assert(o.contains(j));
                    let x = choose|x: int| 0 <= x < o.len() && o[x] == j;
                    assert(self.keys()[x] == j);
                }
                if j == k@ {
                    assert(self.keys()[self.keys().len() - 1] == k@);
                }
            }
            assert forall|j: Seq<char>| #[trigger] self.map@.contains_key(j) && j != k@ implies m0.contains_key(j) && self.map@[j] == m0[j] by {
                assert(m1.contains_key(j));
                if m1 != m0 {
                    assert(old(self).entries().contains_key(j));
                }
            }
        }
    }

    pub fn clear(&mut self)
        ensures
            final(self).wf(),
            final(self).entries() == Map::<Seq<char>, V>::empty(),
            final(self).size() == 0,
    {
        self.map.clear();
        self.order = Vec::new();
        assert(self.keys() =~= Seq::<Seq<char>>::empty());
    }

    pub fn len(&self) -> (r: usize)
        ensures
            r == self.size(),
    {
        self.order.len()
    }
}

/// Sizes of the decision cache.
#[derive(Clone, Copy, Debug)]
pub struct CacheStats {
    pub domain_cache_size: usize,
    pub ip_cache_size: usize,
    pub total_size: usize,
}

/// `a + b`, or `usize::MAX` where that does not fit.
pub open spec fn sat_add(a: nat, b: nat) -> nat {
    if a + b > usize::MAX { usize::MAX as nat } else { a + b }
}

/// The routing decisions already taken, by domain and by IP address. Each
/// table is bounded: when a new key arrives at a full table, the older half
/// of its entries is dropped first.
#[verifier::reject_recursive_types(V)]
pub struct MatchCache<V> {
    domain_cache: StringTable<V>,
    ipv4_cache: KeyTable<V>,
    ipv6_cache: KeyTable<V>,
    max_size: usize,
}

impl<V> MatchCache<V> {
    /// The cached decisions for domains.
    pub closed spec fn domain_entries(&self) -> Map<Seq<char>, V> {
        self.domain_cache.entries()
    }

    /// The cached decision for an IP address, if any.
    pub closed spec fn ip_entry(&self, ip: IpAddress) -> Option<V> {
        match ip {
            IpAddress::V4(x) => if self.ipv4_cache.entries().contains_key(x as u128) {
                Some(self.ipv4_cache.entries()[x as u128])
            } else {
                None
            },
            IpAddress::V6(x) => if self.ipv6_cache.entries().contains_key(x) {
                Some(self.ipv6_cache.entries()[x])
            } else {
                None
            },
        }
    }

    /// The size at which a table drops its older half before a new key.
    pub closed spec fn max_size_spec(&self) -> nat {
        self.max_size as nat
    }

    /// The bound each table keeps to.
    pub closed spec fn bound(&self) -> nat {
        capacity_of(self.max_size)
    }

    pub closed spec fn domain_size(&self) -> nat {
        self.domain_cache.size()
    }

    pub closed spec fn ipv4_size(&self) -> nat {
        self.ipv4_cache.size()
    }

    pub closed spec fn ipv6_size(&self) -> nat {
        self.ipv6_cache.size()
    }

    pub closed spec fn wf(&self) -> bool {
        &&& self.domain_cache.wf()
        &&& self.ipv4_cache.wf()
        &&& self.ipv6_cache.wf()
        &&& self.domain_cache.size() <= capacity_of(self.max_size)
        &&& self.ipv4_cache.size() <= capacity_of(self.max_size)
        &&& self.ipv6_cache.size() <= capacity_of(self.max_size)
    }

    /// An empty cache whose tables each hold at most `max_size` entries
    /// (one, for a bound of zero).
    pub fn new(max_size: usize) -> (r: MatchCache<V>)
        ensures
            r.wf(),
            r.bound() == capacity_of(max_size),
            r.domain_entries() == Map::<Seq<char>, V>::empty(),
            forall|ip: IpAddress| r.ip_entry(ip) is None,
    {
        MatchCache {
            domain_cache: StringTable::new(),
            ipv4_cache: KeyTable::new(),
            ipv6_cache: KeyTable::new(),
            max_size,
        }
    }

    /// The cached decision for a domain.
    pub fn get_domain(&self, domain: &str) -> (r: Option<&V>)
        requires
            self.wf(),
        ensures
            r matches Some(v) ==> self.domain_entries().contains_key(domain@) && *v == self.domain_entries()[domain@],
            r is None ==> !self.domain_entries().contains_key(domain@),
    {
        self.domain_cache.get(domain)
    }

    /// Records the decision for a domain.
    pub fn set_domain(&mut self, domain: String, outbound: V)
        requires
            old(self).wf(),
        ensures
            final(self).wf(),
            final(self).bound() == old(self).bound(),
            final(self).domain_entries().contains_key(domain@),
            final(self).domain_entries()[domain@] == outbound,
            final(self).domain_size() <= final(self).bound(),
            old(self).domain_entries().contains_key(domain@) || old(self).domain_size() < old(self).max_size_spec()
                ==> final(self).domain_entries() == old(self).domain_entries().insert(domain@, outbound),
            !old(self).domain_entries().contains_key(domain@) && old(self).domain_size() < old(self).max_size_spec()
                ==> final(self).domain_size() == old(self).domain_size() + 1,
            !old(self).domain_entries().contains_key(domain@) && old(self).domain_size() >= old(self).max_size_spec()
                ==> final(self).domain_size() == old(self).domain_size() / 2 + 1,
            final(self).ipv4_size() == old(self).ipv4_size() && final(self).ipv6_size() == old(self).ipv6_size(),
            forall|k: Seq<char>| #[trigger] final(self).domain_entries().contains_key(k) && k != domain@ ==> old(self).domain_entries().contains_key(k) && final(self).domain_entries()[k] == old(self).domain_entries()[k],
            forall|ip: IpAddress| final(self).ip_entry(ip) == old(self).ip_entry(ip),
    {
        self.domain_cache.insert_bounded(domain, outbound, self.max_size);
    }

    /// The cached decision for an IP address.
    pub fn get_ip(&self, ip: &IpAddress) -> (r: Option<&V>)
        requires
            self.wf(),
        ensures
            r matches Some(v) ==> self.ip_entry(*ip) == Some(*v),
            r is None ==> self.ip_entry(*ip) is None,
    {
        match ip {
            IpAddress::V4(x) => self.ipv4_cache.get(&(*x as u128)),
            IpAddress::V6(x) => self.ipv6_cache.get(x),
        }
    }

    /// Records the decision for an IP address.
    pub fn set_ip(&mut self, ip: IpAddress, outbound: V)
        requires
            old(self).wf(),
        ensures
            final(self).wf(),
            final(self).bound() == old(self).bound(),
            final(self).ip_entry(ip) == Some(outbound),
            final(self).ipv4_size() <= final(self).bound() && final(self).ipv6_size() <= final(self).bound(),
            ip matches IpAddress::V4(x) ==> (old(self).ip_entry(ip) is Some || old(self).ipv4_size() < old(self).max_size_spec()
                ==> forall|other: IpAddress| other != ip ==> #[trigger] final(self).ip_entry(other) == old(self).ip_entry(other)),
            ip matches IpAddress::V6(x) ==> (old(self).ip_entry(ip) is Some || old(self).ipv6_size() < old(self).max_size_spec()
                ==> forall|other: IpAddress| other != ip ==> #[trigger] final(self).ip_entry(other) == old(self).ip_entry(other)),
            ip matches IpAddress::V4(x) && old(self).ip_entry(ip) is None && old(self).ipv4_size() >= old(self).max_size_spec()
                ==> final(self).ipv4_size() == old(self).ipv4_size() / 2 + 1,
            ip matches IpAddress::V6(x) && old(self).ip_entry(ip) is None && old(self).ipv6_size() >= old(self).max_size_spec()
                ==> final(self).ipv6_size() == old(self).ipv6_size() / 2 + 1,
            ip is V4 ==> final(self).ipv6_size() == old(self).ipv6_size(),
            ip is V6 ==> final(self).ipv4_size() == old(self).ipv4_size(),
            final(self).domain_size() == old(self).domain_size(),
            forall|other: IpAddress| #[trigger] final(self).ip_entry(other) is Some && other != ip ==> final(self).ip_entry(other) == old(self).ip_entry(other),
            final(self).domain_entries() == old(self).domain_entries(),
    {
        match ip {
            IpAddress::V4(x) => {
                self.ipv4_cache.insert_bounded(x as u128, outbound, self.max_size);
                assert forall|other: IpAddress| #[trigger] self.ip_entry(other) is Some && other != ip implies self.ip_entry(other) == old(self).ip_entry(other) by {
                    if let IpAddress::V4(y) = other {
                        assert(y as u128 != x as u128);
                    }
                }
            },
            IpAddress::V6(x) => {
                self.ipv6_cache.insert_bounded(x, outbound, self.max_size);
            },
        }
    }

    /// Forgets every decision.
    pub fn clear(&mut self)
        requires
            old(self).wf(),
        ensures
            final(self).wf(),
            final(self).bound() == old(self).bound(),
            final(self).domain_entries() == Map::<Seq<char>, V>::empty(),
            forall|ip: IpAddress| final(self).ip_entry(ip) is None,
    {
        self.domain_cache.clear();
        self.ipv4_cache.clear();
        self.ipv6_cache.clear();
    }

    /// How many decisions each table holds.
    pub fn stats(&self) -> (r: CacheStats)
        requires
            self.wf(),
        ensures
            r.domain_cache_size == self.domain_size(),
            r.ip_cache_size == sat_add(self.ipv4_size(), self.ipv6_size()),
            r.total_size == sat_add(self.domain_size(), r.ip_cache_size as nat),
    {
        let domain = self.domain_cache.len();
        let ip = self.ipv4_cache.len().saturating_add(self.ipv6_cache.len());
        CacheStats { domain_cache_size: domain, ip_cache_size: ip, total_size: domain.saturating_add(ip) }
    }
}

} // verus!
