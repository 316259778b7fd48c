use vstd::prelude::*;
use vstd::string::StrSliceExecFns;
use vstd::hash_map::StringHashMap;
use vstd::utf8::{decode_utf8, encode_utf8};
use crate::error::ProxyError;
use crate::net::{Cidr, IpAddress, law_v4_network_range, v4_bit, v4_prefix_agrees};
use crate::outside::{
    ac_build, ac_is_match, ac_patterns, dedup_strings, fst_contains, fst_set_from_strings,
    fst_strings, is_prefix, occurs_in, ac_builds, regex_set_valid, strictly_sorted_by_bytes, bytes_lt, parse_cidr, parsed_cidr, regex_matches, regex_set_build,
    regex_set_is_match, regex_set_patterns, sort_strings, string_set, trie_has_ancestor,
    trie_insert, trie_keys, trie_new,
};
use crate::routing::rule_sets::views;

verus! {

/// The outcome of testing a value against one rule set.
#[derive(Clone, Copy, Debug, PartialEq, Eq, Structural)]
pub enum MatcherResult {
    Match,
    NoMatch,
}

/// `d` is the suffix `s` itself, or a subdomain of it: it ends with `"." + s`.
pub open spec fn suffix_covers(s: Seq<char>, d: Seq<char>) -> bool {
    ||| d == s
    ||| (d.len() > s.len() && d[d.len() - s.len() - 1] == '.' && d.subrange(
        d.len() - s.len(),
        d.len() as int,
    ) == s)
}

/// Whether domain `d` matches a rule set with these four lists: it is one of
/// the exact domains, lies under one of the suffixes, contains one of the
/// keywords, or is matched by one of the regular expressions.
pub open spec fn domain_lists_match(
    exact: Seq<Seq<char>>,
    suffix: Seq<Seq<char>>,
    keyword: Seq<Seq<char>>,
    regex: Seq<Seq<char>>,
    d: Seq<char>,
) -> bool {
    ||| exact.contains(d)
    ||| (exists|i: int| 0 <= i < suffix.len() && #[trigger] suffix_covers(suffix[i], d))
    ||| (exists|i: int| 0 <= i < keyword.len() && occurs_in(#[trigger] keyword[i], d))
    ||| (exists|i: int| 0 <= i < regex.len() && regex_matches(#[trigger] regex[i], d))
}

/// The keyword and regex lists of a domain rule set compile: the
/// Aho-Corasick automaton builds and every regex is valid.
pub open spec fn domain_lists_build(keyword: Seq<Seq<char>>, regex: Seq<Seq<char>>) -> bool {
    ac_builds(keyword) && regex_set_valid(regex)
}

/// A compiled, read-only matcher for one domain rule set.
pub struct DomainMatcher {
    exact_domains: fst::Set<Vec<u8>>,
    suffix_domains: fst::Set<Vec<u8>>,
    keyword_matcher: aho_corasick::AhoCorasick,
    regex_matcher: regex::RegexSet,
    lists: Ghost<(Seq<Seq<char>>, Seq<Seq<char>>, Seq<Seq<char>>, Seq<Seq<char>>)>,
}

impl DomainMatcher {
    /// The exact, suffix, keyword and regex lists the matcher was built from.
    pub closed spec fn lists(&self) -> (Seq<Seq<char>>, Seq<Seq<char>>, Seq<Seq<char>>, Seq<Seq<char>>) {
        self.lists@
    }

    /// Whether the matcher accepts domain `d`.
    pub open spec fn accepts(&self, d: Seq<char>) -> bool {
        domain_lists_match(self.lists().0, self.lists().1, self.lists().2, self.lists().3, d)
    }

    pub closed spec fn wf(&self) -> bool {
        &&& forall|k: Seq<char>| fst_strings(self.exact_domains).contains(k) <==> self.lists@.0.contains(k)
        &&& forall|k: Seq<char>| fst_strings(self.suffix_domains).contains(k) <==> self.lists@.1.contains(k)
        &&& ac_patterns(self.keyword_matcher) == self.lists@.2
        &&& regex_set_patterns(self.regex_matcher) == self.lists@.3
        &&& domain_lists_build(self.lists@.2, self.lists@.3)
    }

    /// A well-formed matcher was built from lists that compile.
    pub proof fn lemma_built(&self)
        requires
            self.wf(),
        ensures
            domain_lists_build(self.lists().2, self.lists().3),
    {
    }

    /// Sorts and deduplicates keys and builds an fst set holding them.
    fn build_key_set(keys: &Vec<String>) -> (r: Result<fst::Set<Vec<u8>>, ProxyError>)
        ensures
            r is Ok,
            r matches Ok(s) ==> forall|k: Seq<char>| fst_strings(s).contains(k) <==> views(keys@).contains(k),
    {
        let mut sorted = keys.clone();
        assert(sorted@ == keys@);
        sort_strings(&mut sorted);
        dedup_strings(&mut sorted);
        proof {
            assert forall|i: int| 0 <= i < sorted@.len() - 1 implies bytes_lt(encode_utf8((#[trigger] sorted@[i])@), encode_utf8(sorted@[i + 1]@)) by {
                let a = encode_utf8(sorted@[i]@);
                let b = encode_utf8(sorted@[i + 1]@);
                assert(a == b || bytes_lt(a, b));
                if a == b {
                    vstd::utf8::encode_utf8_decode_utf8(sorted@[i]@);
                    vstd::utf8::encode_utf8_decode_utf8(sorted@[i + 1]@);
                    assert(decode_utf8(a) == sorted@[i]@);
                    assert(decode_utf8(b) == sorted@[i + 1]@);
                }
            }
            assert(strictly_sorted_by_bytes(sorted@));
        }
        match fst_set_from_strings(&sorted) {
            Ok(s) => {
                assert forall|k: Seq<char>| fst_strings(s).contains(k) <==> views(keys@).contains(k) by {
                    if fst_strings(s).contains(k) {
                        assert(string_set(sorted@).contains(k));
                        let i = choose|i: int| 0 <= i < sorted@.len() && #[trigger] sorted@[i]@ == k;
                        assert(sorted@.contains(sorted@[i]));
                        assert(keys@.contains(sorted@[i]));
                        let j = choose|j: int| 0 <= j < keys@.len() && keys@[j] == sorted@[i];
                        assert(views(keys@)[j] == k);
                    }
                    if views(keys@).contains(k) {
                        let j = choose|j: int| 0 <= j < views(keys@).len() && views(keys@)[j] == k;
                        assert(keys@.contains(keys@[j]));
                        assert(sorted@.contains(keys@[j]));
                        let i = choose|i: int| 0 <= i < sorted@.len() && sorted@[i] == keys@[j];
                        assert(sorted@[i]@ == k);
                        assert(string_set(sorted@).contains(k));
                    }
                }
                Ok(s)
            },
            Err(_) => Err(ProxyError::Protocol("invalid domain list".to_string())),
        }
    }

    /// Compiles the four lists of a domain rule set. Fails, with a protocol
    /// error, exactly when the keyword automaton cannot be built or a
    /// regular expression is invalid.
    pub fn new(
        exact_domains: Vec<String>,
        suffix_domains: Vec<String>,
        keyword_domains: Vec<String>,
        regex_domains: Vec<String>,
    ) -> (r: Result<DomainMatcher, ProxyError>)
        ensures
            r matches Ok(m) ==> m.wf() && m.lists() == (
                views(exact_domains@),
                views(suffix_domains@),
                views(keyword_domains@),
                views(regex_domains@),
            ),
            r is Ok <==> domain_lists_build(views(keyword_domains@), views(regex_domains@)),
            r matches Err(e) ==> e is Protocol,
    {
        let exact = match Self::build_key_set(&exact_domains) {
            Ok(s) => s,
            Err(e) => return Err(e),
        };
        let suffix = match Self::build_key_set(&suffix_domains) {
            Ok(s) => s,
            Err(e) => return Err(e),
        };
        let keyword_matcher = match ac_build(&keyword_domains) {
            Ok(a) => a,
            Err(_) => return Err(ProxyError::Protocol("invalid keyword list".to_string())),
        };
        let regex_matcher = match regex_set_build(&regex_domains) {
            Ok(s) => s,
            Err(_) => return Err(ProxyError::Protocol("invalid domain regex".to_string())),
        };
        let m = DomainMatcher {
            exact_domains: exact,
            suffix_domains: suffix,
            keyword_matcher,
            regex_matcher,
            lists: Ghost(
                (
                    views(exact_domains@),
                    views(suffix_domains@),
                    views(keyword_domains@),
                    views(regex_domains@),
                ),
            ),
        };
        Ok(m)
    }

    /// Whether `d` or one of its parent domains is in the suffix set.
    fn matches_suffix(&self, d: &str) -> (r: bool)
        requires
            self.wf(),
        ensures
            r == (exists|i: int| 0 <= i < self.lists().1.len() && #[trigger] suffix_covers(self.lists().1[i], d@)),
    {
        let ghost sfx = self.lists().1;
        if fst_contains(&self.suffix_domains, d) {
            assert(sfx.contains(d@));
            let ghost i = choose|i: int| 0 <= i < sfx.len() && sfx[i] == d@;
            assert(suffix_covers(sfx[i], d@));
            return true;
        }
        let n = d.unicode_len();
        let mut i: usize = 0;
        while i < n
            invariant
                self.wf(),
                sfx == self.lists().1,
                n == d@.len(),
                i <= n,
                !sfx.contains(d@),
                forall|j: int| 0 <= j < i && d@[j] == '.' ==> !sfx.contains(#[trigger] d@.subrange(j + 1, n as int)),
            decreases n - i,
        {
            if d.get_char(i) == '.' {
                let tail = d.substring_char(i + 1, n);
                if fst_contains(&self.suffix_domains, tail) {
                    let ghost s = tail@;
                    assert(sfx.contains(s));
                    let ghost k = choose|k: int| 0 <= k < sfx.len() && sfx[k] == s;
                    assert(d@.len() - s.len() - 1 == i);
                    assert(suffix_covers(sfx[k], d@));
                    return true;
                }
            }
            i = i + 1;
        }
        assert forall|k: int| 0 <= k < sfx.len() implies !#[trigger] suffix_covers(sfx[k], d@) by {
            assert(sfx.contains(sfx[k]));
            if d@.len() > sfx[k].len() {
                let j = d@.len() - sfx[k].len() - 1;
                if d@[j] == '.' {
                    assert(!sfx.contains(d@.subrange(j + 1, n as int)));
                }
            }
        }
        false
    }

    /// Tests a domain against the exact, suffix, keyword and regex lists, in
    /// that order.
    pub fn matches(&self, domain: &str) -> (r: MatcherResult)
        requires
            self.wf(),
        ensures
            (r == MatcherResult::Match) == self.accepts(domain@),
    {
        if fst_contains(&self.exact_domains, domain) {
            return MatcherResult::Match;
        }
        if self.matches_suffix(domain) {
            return MatcherResult::Match;
        }
        if ac_is_match(&self.keyword_matcher, domain) {
            return MatcherResult::Match;
        }
        if regex_set_is_match(&self.regex_matcher, domain) {
            return MatcherResult::Match;
        }
        MatcherResult::NoMatch
    }
}

/// The trie key for the leading `n` bits of an IPv4 address: one byte per
/// bit, 1 for a set bit and 0 for a clear one.
pub open spec fn v4_key(x: u32, n: u32) -> Seq<u8> {
    Seq::new(n as nat, |i: int| if v4_bit(x, i as u32) { 1u8 } else { 0u8 })
}

/// The networks read from a list of CIDR strings.
pub open spec fn parsed_networks(v: Seq<String>) -> Seq<Cidr> {
    v.map_values(|s: String| parsed_cidr(s@).unwrap())
}

/// Every string of the list reads as a network.
pub open spec fn all_parse(v: Seq<String>) -> bool {
    forall|i: int| 0 <= i < v.len() ==> (#[trigger] parsed_cidr(v[i]@)) is Some
}

/// Whether `ip` lies in one of the networks.
pub open spec fn networks_contain(nets: Seq<Cidr>, ip: IpAddress) -> bool {
    exists|i: int| 0 <= i < nets.len() && #[trigger] nets[i].contains_spec(ip)
}

/// The trie key of `c`, if `c` is an IPv4 network with a non-empty prefix.
pub open spec fn trie_key_of(c: Cidr, k: Seq<u8>) -> bool {
    c matches Cidr::V4 { addr, prefix_len } && prefix_len > 0 && k == v4_key(addr, prefix_len as u32)
}

proof fn lemma_v4_key_prefix(x: u32, a: u32, n: u32)
    requires
        n <= 32,
    ensures
        is_prefix(v4_key(a, n), v4_key(x, 32)) <==> v4_prefix_agrees(x, a, n),
{
    if is_prefix(v4_key(a, n), v4_key(x, 32)) {
        assert forall|i: u32| i < n implies #[trigger] v4_bit(x, i) == v4_bit(a, i) by {
            assert(v4_key(x, 32).subrange(0, n as int)[i as int] == v4_key(a, n)[i as int]);
        }
    }
    if v4_prefix_agrees(x, a, n) {
        assert(v4_key(x, 32).subrange(0, n as int) =~= v4_key(a, n)) by {
            assert forall|i: int| 0 <= i < n implies v4_key(x, 32)[i] == v4_key(a, n)[i] by {
                assert(v4_bit(x, i as u32) == v4_bit(a, i as u32));
            }
        }
    }
}

/// A compiled, read-only matcher for one IP rule set.
pub struct IpMatcher {
    ipv4_trie: radix_trie::Trie<Vec<u8>, ()>,
    ipv4_any: bool,
    ipv6_networks: Vec<Cidr>,
    networks: Ghost<Seq<Cidr>>,
}

impl IpMatcher {
    /// The networks the matcher was built from, in order.
    pub closed spec fn networks(&self) -> Seq<Cidr> {
        self.networks@
    }

    /// Whether the matcher accepts `ip`.
    pub open spec fn accepts(&self, ip: IpAddress) -> bool {
        networks_contain(self.networks(), ip)
    }

    spec fn parts_wf(
        trie: radix_trie::Trie<Vec<u8>, ()>,
        any: bool,
        v6: Seq<Cidr>,
        nets: Seq<Cidr>,
    ) -> bool {
        &&& forall|i: int| 0 <= i < nets.len() ==> (#[trigger] nets[i]).wf()
        &&& forall|k: Seq<u8>| #[trigger] trie_keys(trie).contains(k) <==> exists|i: int| 0 <= i < nets.len() && trie_key_of(#[trigger] nets[i], k)
        &&& any <==> exists|i: int| 0 <= i < nets.len() && (#[trigger] nets[i] matches Cidr::V4 { prefix_len, .. } && prefix_len == 0)
        &&& forall|j: int| 0 <= j < v6.len() ==> (#[trigger] v6[j]) is V6 && v6[j].wf()
        &&& forall|i: int| 0 <= i < nets.len() && (#[trigger] nets[i]) is V6 ==> v6.contains(nets[i])
        &&& forall|j: int| 0 <= j < v6.len() ==> nets.contains(#[trigger] v6[j])
    }

    pub closed spec fn wf(&self) -> bool {
        Self::parts_wf(self.ipv4_trie, self.ipv4_any, self.ipv6_networks@, self.networks@)
    }

    fn v4_key_exec(x: u32, n: u32) -> (r: Vec<u8>)
        requires
            n <= 32,
        ensures
            r@ == v4_key(x, n),
    {
        let mut key: Vec<u8> = Vec::new();
        let mut i: u32 = 0;
        while i < n
            invariant
                i <= n <= 32,
                key@ =~= v4_key(x, i),
            decreases n - i,
        {
            let bit: u8 = if (x >> (31 - i)) & 1 == 1 { 1 } else { 0 };
            key.push(bit);
            i = i + 1;
            assert(key@ =~= v4_key(x, i));
        }
        key
    }

    /// Parses and compiles a list of CIDR strings. Fails with a protocol
    /// error exactly when one of them is not a network.
    pub fn new(ip_cidrs: Vec<String>) -> (r: Result<IpMatcher, ProxyError>)
        ensures
            r is Ok <==> all_parse(ip_cidrs@),
            r matches Ok(m) ==> m.wf() && m.networks() == parsed_networks(ip_cidrs@),
            r matches Err(e) ==> e is Protocol,
    {
        let mut trie = trie_new();
        let mut any = false;
        let mut v6: Vec<Cidr> = Vec::new();
        let ghost mut nets: Seq<Cidr> = Seq::empty();
        let mut i: usize = 0;
        while i < ip_cidrs.len()
            invariant
                i <= ip_cidrs.len(),
                Self::parts_wf(trie, any, v6@, nets),
                nets =~= parsed_networks(ip_cidrs@).subrange(0, i as int),
                forall|j: int| 0 <= j < i ==> (#[trigger] parsed_cidr(ip_cidrs@[j]@)) is Some,
            decreases ip_cidrs.len() - i,
        {
            let c = match parse_cidr(ip_cidrs[i].as_str()) {
                Ok(c) => c,
                Err(_) => {
                    return Err(ProxyError::Protocol("invalid CIDR".to_string()));
                },
            };
            let ghost old_nets = nets;
            let ghost old_trie = trie;
            let ghost old_v6 = v6@;
            proof {
                nets = nets.push(c);
            }
            match c {
                Cidr::V4 { addr, prefix_len } => {
                    if prefix_len == 0 {
                        any = true;
                    } else {
                        let key = Self::v4_key_exec(addr, prefix_len as u32);
                        trie_insert(&mut trie, key);
                    }
                },
                Cidr::V6 { .. } => {
                    v6.push(c);
                },
            }
            proof {
                assert(nets[nets.len() - 1] == c);
                assert forall|k: Seq<u8>| #[trigger] trie_keys(trie).contains(k) <==> exists|j: int| 0 <= j < nets.len() && trie_key_of(#[trigger] nets[j], k) by {
                    if trie_keys(trie).contains(k) && !trie_keys(old_trie).contains(k) {
                        assert(trie_key_of(nets[nets.len() - 1], k));
                    }
                    if trie_keys(old_trie).contains(k) {
                        let j = choose|j: int| 0 <= j < old_nets.len() && trie_key_of(#[trigger] old_nets[j], k);
                        assert(nets[j] == old_nets[j]);
                    }
                    if exists|j: int| 0 <= j < nets.len() && trie_key_of(#[trigger] nets[j], k) {
                        let j = choose|j: int| 0 <= j < nets.len() && trie_key_of(#[trigger] nets[j], k);
                        if j < old_nets.len() {
                            assert(old_nets[j] == nets[j]);
                        }
                    }
                }
                assert forall|j: int| 0 <= j < v6@.len() implies nets.contains(#[trigger] v6@[j]) by {
                    if j < old_v6.len() {
                        assert(old_nets.contains(old_v6[j]));
                        let k = choose|k: int| 0 <= k < old_nets.len() && old_nets[k] == old_v6[j];
                        assert(nets[k] == old_v6[j]);
                    } else {
                        assert(nets[nets.len() - 1] == v6@[j]);
                    }
                }
                assert forall|j: int| 0 <= j < nets.len() && (#[trigger] nets[j]) is V6 implies v6@.contains(nets[j]) by {
                    if j < old_nets.len() {
                        assert(old_nets[j] == nets[j]);
                        assert(old_v6.contains(old_nets[j]));
                        let k = choose|k: int| 0 <= k < old_v6.len() && old_v6[k] == old_nets[j];
                        assert(v6@[k] == old_v6[k]);
                    } else {
                        assert(v6@[v6@.len() - 1] == c);
                    }
                }
                if any {
                    if exists|j: int| 0 <= j < old_nets.len() && (#[trigger] old_nets[j] matches Cidr::V4 { prefix_len, .. } && prefix_len == 0) {
                        let j = choose|j: int| 0 <= j < old_nets.len() && (#[trigger] old_nets[j] matches Cidr::V4 { prefix_len, .. } && prefix_len == 0);
                        assert(nets[j] == old_nets[j]);
                    } else {
                        assert(nets[nets.len() - 1] == c);
                    }
                } else {
                    assert forall|j: int| 0 <= j < nets.len() implies !(#[trigger] nets[j] matches Cidr::V4 { prefix_len, .. } && prefix_len == 0) by {
                        if j < old_nets.len() {
                            assert(old_nets[j] == nets[j]);
                        }
                    }
                }
            }
            i = i + 1;
        }
        proof {
            assert(parsed_networks(ip_cidrs@).subrange(0, i as int) =~= parsed_networks(ip_cidrs@));
        }
        Ok(IpMatcher { ipv4_trie: trie, ipv4_any: any, ipv6_networks: v6, networks: Ghost(nets) })
    }

    /// Tests an address against the networks: IPv4 through the trie of
    /// prefixes, IPv6 by a scan.
    pub fn matches(&self, ip: IpAddress) -> (r: MatcherResult)
        requires
            self.wf(),
        ensures
            (r == MatcherResult::Match) == self.accepts(ip),
    {
        let ghost nets = self.networks@;
        match ip {
            IpAddress::V4(x) => {
                if self.ipv4_any {
                    let ghost j = choose|j: int| 0 <= j < nets.len() && (#[trigger] nets[j] matches Cidr::V4 { prefix_len, .. } && prefix_len == 0);
                    assert(nets[j].contains_spec(ip));
                    return MatcherResult::Match;
                }
                let key = Self::v4_key_exec(x, 32);
                let found = trie_has_ancestor(&self.ipv4_trie, &key);
                proof {
                    if found {
                        let k = choose|k: Seq<u8>| #[trigger] trie_keys(self.ipv4_trie).contains(k) && is_prefix(k, key@);
                        let j = choose|j: int| 0 <= j < nets.len() && trie_key_of(#[trigger] nets[j], k);
                        if let Cidr::V4 { addr, prefix_len } = nets[j] {
                            lemma_v4_key_prefix(x, addr, prefix_len as u32);
                        }
                        assert(nets[j].contains_spec(ip));
                    } else {
                        assert forall|j: int| 0 <= j < nets.len() implies !#[trigger] nets[j].contains_spec(ip) by {
                            assert(nets[j].wf());
                            if let Cidr::V4 { addr, prefix_len } = nets[j] {
                                if prefix_len > 0 {
                                    lemma_v4_key_prefix(x, addr, prefix_len as u32);
                                    assert(trie_key_of(nets[j], v4_key(addr, prefix_len as u32)));
                                    assert(trie_keys(self.ipv4_trie).contains(v4_key(addr, prefix_len as u32)));
                                }
                            }
                        }
                    }
                }
                if found { MatcherResult::Match } else { MatcherResult::NoMatch }
            },
            IpAddress::V6(_) => {
                let mut j: usize = 0;
                while j < self.ipv6_networks.len()
                    invariant
                        self.wf(),
                        nets == self.networks@,
                        ip is V6,
                        j <= self.ipv6_networks@.len(),
                        forall|k: int| 0 <= k < j ==> !(#[trigger] self.ipv6_networks@[k]).contains_spec(ip),
                    decreases self.ipv6_networks.len() - j,
                {
                    let net = &self.ipv6_networks[j];
                    if net.contains(&ip) {
                        assert(nets.contains(self.ipv6_networks@[j as int]));
                        return MatcherResult::Match;
                    }
                    j = j + 1;
                }
                assert forall|k: int| 0 <= k < nets.len() implies !#[trigger] nets[k].contains_spec(ip) by {
                    if nets[k] is V6 {
                        assert(self.ipv6_networks@.contains(nets[k]));
                    }
                }
                MatcherResult::NoMatch
            },
        }
    }
}

/// Compiled matchers, built once per rule-set identifier.
pub struct MatcherCache {
    domain_matchers: StringHashMap<DomainMatcher>,
    ip_matchers: StringHashMap<IpMatcher>,
}

impl MatcherCache {
    pub closed spec fn domain_map(&self) -> Map<Seq<char>, DomainMatcher> {
        self.domain_matchers@
    }

    pub closed spec fn ip_map(&self) -> Map<Seq<char>, IpMatcher> {
        self.ip_matchers@
    }

    /// Every cached matcher is well formed.
    pub open spec fn wf(&self) -> bool {
        &&& forall|k: Seq<char>| #[trigger] self.domain_map().contains_key(k) ==> self.domain_map()[k].wf()
        &&& forall|k: Seq<char>| #[trigger] self.ip_map().contains_key(k) ==> self.ip_map()[k].wf()
    }

    pub fn new() -> (r: MatcherCache)
        ensures
            r.wf(),
            r.domain_map() == Map::<Seq<char>, DomainMatcher>::empty(),
            r.ip_map() == Map::<Seq<char>, IpMatcher>::empty(),
    {
        MatcherCache { domain_matchers: StringHashMap::new(), ip_matchers: StringHashMap::new() }
    }

    /// Keeps the domain matcher cached under `key`, or compiles one from the
    /// lists and caches it.
    pub fn get_domain_matcher(
        &mut self,
        key: &str,
        exact_domains: Vec<String>,
        suffix_domains: Vec<String>,
        keyword_domains: Vec<String>,
        regex_domains: Vec<String>,
    ) -> (r: Result<(), ProxyError>)
        requires
            old(self).wf(),
        ensures
            final(self).wf(),
            final(self).ip_map() == old(self).ip_map(),
            old(self).domain_map().contains_key(key@) ==> r is Ok && final(self).domain_map() == old(self).domain_map(),
            !old(self).domain_map().contains_key(key@) ==> (r is Ok <==> domain_lists_build(views(keyword_domains@), views(regex_domains@))),
            !old(self).domain_map().contains_key(key@) && r is Ok ==> final(self).domain_map().contains_key(key@)
                && final(self).domain_map()[key@].lists() == (
                    views(exact_domains@),
                    views(suffix_domains@),
                    views(keyword_domains@),
                    views(regex_domains@),
                ) && final(self).domain_map() == old(self).domain_map().insert(key@, final(self).domain_map()[key@]),
            r is Err ==> final(self).domain_map() == old(self).domain_map(),
    {
        if self.domain_matchers.contains_key(key) {
            return Ok(());
        }
        match DomainMatcher::new(exact_domains, suffix_domains, keyword_domains, regex_domains) {
            Ok(m) => {
                self.domain_matchers.insert(key.to_owned(), m);
                assert forall|k: Seq<char>| #[trigger] self.domain_map().contains_key(k) implies self.domain_map()[k].wf() by {
                    if k != key@ {
                        assert(old(self).domain_map().contains_key(k));
                    }
                }
                assert(self.ip_map() == old(self).ip_map());
                Ok(())
            },
            Err(e) => Err(e),
        }
    }

    /// Keeps the IP matcher cached under `key`, or compiles one from the
    /// CIDR list and caches it.
    pub fn get_ip_matcher(&mut self, key: &str, ip_cidrs: Vec<String>) -> (r: Result<(), ProxyError>)
        requires
            old(self).wf(),
        ensures
            final(self).wf(),
            final(self).domain_map() == old(self).domain_map(),
            old(self).ip_map().contains_key(key@) ==> r is Ok && final(self).ip_map() == old(self).ip_map(),
            !old(self).ip_map().contains_key(key@) ==> (r is Ok <==> all_parse(ip_cidrs@)),
            !old(self).ip_map().contains_key(key@) && r is Ok ==> final(self).ip_map().contains_key(key@)
                && final(self).ip_map()[key@].networks() == parsed_networks(ip_cidrs@)
                && final(self).ip_map() == old(self).ip_map().insert(key@, final(self).ip_map()[key@]),
            r is Err ==> final(self).ip_map() == old(self).ip_map(),
    {
        if self.ip_matchers.contains_key(key) {
            return Ok(());
        }
        match IpMatcher::new(ip_cidrs) {
            Ok(m) => {
                self.ip_matchers.insert(key.to_owned(), m);
                assert forall|k: Seq<char>| #[trigger] self.ip_map().contains_key(k) implies self.ip_map()[k].wf() by {
                    if k != key@ {
                        assert(old(self).ip_map().contains_key(k));
                    }
                }
                assert(self.domain_map() == old(self).domain_map());
                Ok(())
            },
            Err(e) => Err(e),
        }
    }

    /// Caches `matcher` under `key`, replacing any matcher cached there.
    pub fn insert_domain_matcher(&mut self, key: String, matcher: DomainMatcher)
        requires
            old(self).wf(),
            matcher.wf(),
        ensures
            final(self).wf(),
            final(self).domain_map() == old(self).domain_map().insert(key@, matcher),
            final(self).ip_map() == old(self).ip_map(),
    {
        let ghost k0 = key@;
        self.domain_matchers.insert(key, matcher);
        assert forall|k: Seq<char>| #[trigger] self.domain_map().contains_key(k) implies self.domain_map()[k].wf() by {
            if k != k0 {
                assert(old(self).domain_map().contains_key(k));
            }
        }
        assert(self.ip_map() == old(self).ip_map());
    }

    /// Caches `matcher` under `key`, replacing any matcher cached there.
    pub fn insert_ip_matcher(&mut self, key: String, matcher: IpMatcher)
        requires
            old(self).wf(),
            matcher.wf(),
        ensures
            final(self).wf(),
            final(self).ip_map() == old(self).ip_map().insert(key@, matcher),
            final(self).domain_map() == old(self).domain_map(),
    {
        let ghost k0 = key@;
        self.ip_matchers.insert(key, matcher);
        assert forall|k: Seq<char>| #[trigger] self.ip_map().contains_key(k) implies self.ip_map()[k].wf() by {
            if k != k0 {
                assert(old(self).ip_map().contains_key(k));
            }
        }
        assert(self.domain_map() == old(self).domain_map());
    }

    /// Drops the matchers cached under `key`, so that the next request
    /// compiles them again.
    pub fn invalidate(&mut self, key: &str)
        requires
            old(self).wf(),
        ensures
            final(self).wf(),
            final(self).domain_map() == old(self).domain_map().remove(key@),
            final(self).ip_map() == old(self).ip_map().remove(key@),
    {
        self.domain_matchers.remove(key);
        self.ip_matchers.remove(key);
        assert forall|k: Seq<char>| #[trigger] self.domain_map().contains_key(k) implies self.domain_map()[k].wf() by {
            assert(old(self).domain_map().contains_key(k));
        }
        assert forall|k: Seq<char>| #[trigger] self.ip_map().contains_key(k) implies self.ip_map()[k].wf() by {
            assert(old(self).ip_map().contains_key(k));
        }
    }

    /// The domain matcher cached under `key`, if any.
    pub fn domain_matcher(&self, key: &str) -> (r: Option<&DomainMatcher>)
        ensures
            r matches Some(m) ==> self.domain_map().contains_key(key@) && *m == self.domain_map()[key@],
            r is None ==> !self.domain_map().contains_key(key@),
    {
        self.domain_matchers.get(key)
    }

    /// The IP matcher cached under `key`, if any.
    pub fn ip_matcher(&self, key: &str) -> (r: Option<&IpMatcher>)
        ensures
            r matches Some(m) ==> self.ip_map().contains_key(key@) && *m == self.ip_map()[key@],
            r is None ==> !self.ip_map().contains_key(key@),
    {
        self.ip_matchers.get(key)
    }
}

/// A rule set whose only entry is the suffix `s` matches a domain exactly
/// when the domain is `s` itself or ends with `"."` followed by `s`.
pub proof fn law_suffix_match(s: Seq<char>, d: Seq<char>)
    ensures
        domain_lists_match(seq![], seq![s], seq![], seq![], d) <==> (d == s || (d.len() >= s.len() + 1
            && d.subrange(d.len() - s.len() - 1, d.len() as int) == seq!['.'] + s)),
{
    let sfx = seq![s];
    if d.len() >= s.len() + 1 && d.subrange(d.len() - s.len() - 1, d.len() as int) == seq!['.'] + s {
        let t = d.subrange(d.len() - s.len() - 1, d.len() as int);
        assert(t[0] == '.');
        assert(d[d.len() - s.len() - 1] == '.');
        assert(d.subrange(d.len() - s.len(), d.len() as int) =~= t.subrange(1, t.len() as int));
        assert(t.subrange(1, t.len() as int) =~= s);
        assert(suffix_covers(sfx[0], d));
    }
    if d == s {
        assert(suffix_covers(sfx[0], d));
    }
    if domain_lists_match(seq![], sfx, seq![], seq![], d) {
        assert(!Seq::<Seq<char>>::empty().contains(d));
        let i = choose|i: int| 0 <= i < sfx.len() && #[trigger] suffix_covers(sfx[i], d);
        assert(i == 0);
        if d != s {
            assert(d.subrange(d.len() - s.len() - 1, d.len() as int) =~= seq!['.'] + s);
        }
    }
}

/// A rule set with the single network `c` matches an address exactly when
/// the address lies in `c`; for IPv4, when its network number (the address
/// without its host bits) is the one of `c`.
pub proof fn law_cidr_match(c: Cidr, ip: IpAddress)
    requires
        c.wf(),
    ensures
        networks_contain(seq![c], ip) <==> c.contains_spec(ip),
        c matches Cidr::V4 { addr, prefix_len } ==> (ip matches IpAddress::V4(x) ==> (networks_contain(seq![c], ip)
            <==> (prefix_len == 0 || x >> (32 - prefix_len) as u32 == addr >> (32 - prefix_len) as u32))),
{
    if c.contains_spec(ip) {
        assert(seq![c][0].contains_spec(ip));
    }
    if let Cidr::V4 { addr, prefix_len } = c {
        if let IpAddress::V4(x) = ip {
            law_v4_network_range(addr, prefix_len, x);
        }
    }
}

} // verus!
