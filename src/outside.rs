//! The calls that the routing tables make into other crates, each with the
//! contract that this library relies on.
use vstd::prelude::*;
use crate::net::Cidr;
use vstd::utf8::encode_utf8;

verus! {

/// The strings held by a vector, as character sequences.
pub open spec fn string_set(v: Seq<String>) -> Set<Seq<char>> {
    Set::new(|k: Seq<char>| exists|i: int| 0 <= i < v.len() && #[trigger] v[i]@ == k)
}

/// `needle` occurs in `hay` at some position.
pub open spec fn occurs_in(needle: Seq<char>, hay: Seq<char>) -> bool {
    exists|p: int|
        0 <= p && p + needle.len() <= hay.len() && #[trigger] hay.subrange(p, p + needle.len())
            == needle
}

/// `a` comes before `b` in the lexicographic order of byte strings.
pub open spec fn bytes_lt(a: Seq<u8>, b: Seq<u8>) -> bool
    decreases a.len(),
{
    if a.len() == 0 {
        b.len() > 0
    } else if b.len() == 0 {
        false
    } else if a[0] != b[0] {
        a[0] < b[0]
    } else {
        bytes_lt(a.drop_first(), b.drop_first())
    }
}

/// The UTF-8 bytes of each string of `v` are at most those of the next.
pub open spec fn sorted_by_bytes(v: Seq<String>) -> bool {
    forall|i: int| 0 <= i < v.len() - 1 ==> {
        let a = encode_utf8((#[trigger] v[i])@);
        let b = encode_utf8(v[i + 1]@);
        a == b || bytes_lt(a, b)
    }
}

/// The UTF-8 bytes of each string of `v` come strictly before those of the
/// next.
pub open spec fn strictly_sorted_by_bytes(v: Seq<String>) -> bool {
    forall|i: int| 0 <= i < v.len() - 1 ==> bytes_lt(encode_utf8((#[trigger] v[i])@), encode_utf8(v[i + 1]@))
}

// ---- std ----

/// Relies on slice::sort_unstable: the vector is reordered into ascending
/// order, which for `String` is the lexicographic order of the bytes.
#[verifier::external_body]
pub(crate) fn sort_strings(v: &mut Vec<String>)
    ensures
        final(v)@.len() == old(v)@.len(),
        forall|s: String| final(v)@.contains(s) <==> old(v)@.contains(s),
        sorted_by_bytes(final(v)@),
{
    v.sort_unstable()
}

/// Relies on Vec::dedup: of each run of equal neighbours only the first
/// stays, in the order they had, so the same elements remain, no two
/// neighbours are equal, and ascending order is kept.
#[verifier::external_body]
pub(crate) fn dedup_strings(v: &mut Vec<String>)
    ensures
        final(v)@.len() <= old(v)@.len(),
        forall|s: String| final(v)@.contains(s) <==> old(v)@.contains(s),
        forall|i: int| 0 <= i < final(v)@.len() - 1 ==> (#[trigger] final(v)@[i])@ != final(v)@[i + 1]@,
        sorted_by_bytes(old(v)@) ==> sorted_by_bytes(final(v)@),
{
    v.dedup()
}

/// Relies on String::from_utf8: it fails exactly when the bytes are not
/// UTF-8, and otherwise holds the characters they encode.
#[verifier::external_body]
pub(crate) fn string_from_utf8(bytes: Vec<u8>) -> (r: Option<String>)
    ensures
        r is Some <==> vstd::utf8::valid_utf8(bytes@),
        r matches Some(s) ==> s@ == vstd::utf8::decode_utf8(bytes@),
{
    String::from_utf8(bytes).ok()
}

// ---- fst ----

#[verifier::external_type_specification]
#[verifier::external_body]
#[verifier::reject_recursive_types(D)]
pub struct ExFstSet<D>(fst::Set<D>);

#[verifier::external_type_specification]
#[verifier::external_body]
pub struct ExFstError(fst::Error);

/// The strings whose UTF-8 encodings an fst set holds.
pub uninterp spec fn fst_strings(s: fst::Set<Vec<u8>>) -> Set<Seq<char>>;

/// Relies on fst::Set::from_iter: on success the set holds exactly the keys
/// given; it fails only on a key that is not greater than the one before
/// (the in-memory writer cannot fail).
#[verifier::external_body]
pub(crate) fn fst_set_from_strings(keys: &Vec<String>) -> (r: Result<fst::Set<Vec<u8>>, fst::Error>)
    ensures
        r matches Ok(s) ==> fst_strings(s) == string_set(keys@),
        strictly_sorted_by_bytes(keys@) ==> r is Ok,
{
    fst::Set::from_iter(keys.iter())
}

/// Relies on fst::Set::contains: membership of the key's UTF-8 bytes.
#[verifier::external_body]
pub(crate) fn fst_contains(s: &fst::Set<Vec<u8>>, key: &str) -> (r: bool)
    ensures
        r == fst_strings(*s).contains(key@),
{
    s.contains(key)
}

// ---- aho-corasick ----

#[verifier::external_type_specification]
#[verifier::external_body]
pub struct ExAhoCorasick(aho_corasick::AhoCorasick);

#[verifier::external_type_specification]
#[verifier::external_body]
pub struct ExAcBuildError(aho_corasick::BuildError);

/// The patterns an Aho-Corasick automaton searches for, in order.
pub uninterp spec fn ac_patterns(a: aho_corasick::AhoCorasick) -> Seq<Seq<char>>;

/// Whether aho-corasick builds an automaton for these patterns (it fails
/// when identifiers of states or patterns would overflow).
pub uninterp spec fn ac_builds(patterns: Seq<Seq<char>>) -> bool;

/// Relies on aho_corasick::AhoCorasick::new: on success the automaton
/// searches for exactly the patterns given; whether it succeeds depends on
/// the patterns alone, and no patterns at all always build.
#[verifier::external_body]
pub(crate) fn ac_build(patterns: &Vec<String>) -> (r: Result<aho_corasick::AhoCorasick, aho_corasick::BuildError>)
    ensures
        r matches Ok(a) ==> ac_patterns(a) == patterns@.map_values(|p: String| p@),
        r is Ok <==> ac_builds(patterns@.map_values(|p: String| p@)),
        patterns@.len() == 0 ==> r is Ok,
{
    aho_corasick::AhoCorasick::new(patterns)
}

/// Relies on aho_corasick::AhoCorasick::is_match: true if and only if some
/// pattern occurs in the haystack. Patterns and haystack are UTF-8 text, so
/// an occurrence of a pattern's bytes is an occurrence of its characters.
#[verifier::external_body]
pub(crate) fn ac_is_match(a: &aho_corasick::AhoCorasick, hay: &str) -> (r: bool)
    ensures
        r == (exists|i: int| 0 <= i < ac_patterns(*a).len() && occurs_in(#[trigger] ac_patterns(*a)[i], hay@)),
{
    a.is_match(hay)
}

// ---- regex ----

#[verifier::external_type_specification]
#[verifier::external_body]
pub struct ExRegexSet(regex::RegexSet);

#[verifier::external_type_specification]
#[verifier::external_body]
pub struct ExRegexError(regex::Error);

/// The patterns of a regex set, in the order they were given
/// (`RegexSet::patterns`).
pub uninterp spec fn regex_set_patterns(s: regex::RegexSet) -> Seq<Seq<char>>;

/// Whether the regular expression `pattern` matches somewhere in `hay`, by
/// the syntax and semantics of the regex crate.
pub uninterp spec fn regex_matches(pattern: Seq<char>, hay: Seq<char>) -> bool;

/// Whether regex builds a set of these patterns: each is a valid regular
/// expression and the compiled set stays within the default size limits.
pub uninterp spec fn regex_set_valid(patterns: Seq<Seq<char>>) -> bool;

/// Relies on regex::RegexSet::new: on success the set holds exactly the
/// patterns given, in order; whether it succeeds depends on the patterns
/// alone, and no patterns at all always build (`RegexSet::empty`).
#[verifier::external_body]
pub(crate) fn regex_set_build(patterns: &Vec<String>) -> (r: Result<regex::RegexSet, regex::Error>)
    ensures
        r matches Ok(s) ==> regex_set_patterns(s) == patterns@.map_values(|p: String| p@),
        r is Ok <==> regex_set_valid(patterns@.map_values(|p: String| p@)),
        patterns@.len() == 0 ==> r is Ok,
{
    regex::RegexSet::new(patterns)
}

/// Relies on regex::RegexSet::is_match: true if and only if one of the
/// regexes in the set matches the haystack.
#[verifier::external_body]
pub(crate) fn regex_set_is_match(s: &regex::RegexSet, hay: &str) -> (r: bool)
    ensures
        r == (exists|i: int|
            0 <= i < regex_set_patterns(*s).len() && regex_matches(
                #[trigger] regex_set_patterns(*s)[i],
                hay@,
            )),
{
    s.is_match(hay)
}

// ---- ipnet ----

#[verifier::external_type_specification]
#[verifier::external_body]
pub struct ExAddrParseError(ipnet::AddrParseError);

/// The network that ipnet reads from a CIDR string, if it reads one.
pub uninterp spec fn parsed_cidr(s: Seq<char>) -> Option<Cidr>;

/// Relies on `str::parse::<ipnet::IpNet>`: the address and prefix length it
/// reads; ipnet refuses a prefix longer than the address.
#[verifier::external_body]
pub(crate) fn parse_cidr(s: &str) -> (r: Result<Cidr, ipnet::AddrParseError>)
    ensures
        r is Ok <==> parsed_cidr(s@) is Some,
        r matches Ok(c) ==> parsed_cidr(s@) == Some(c) && c.wf(),
{
    match s.parse::<ipnet::IpNet>() {
        Ok(ipnet::IpNet::V4(n)) => Ok(Cidr::V4 { addr: u32::from(n.addr()), prefix_len: n.prefix_len() }),
        Ok(ipnet::IpNet::V6(n)) => Ok(Cidr::V6 { addr: u128::from(n.addr()), prefix_len: n.prefix_len() }),
        Err(e) => Err(e),
    }
}

// ---- radix_trie ----

#[verifier::external_type_specification]
#[verifier::external_body]
#[verifier::reject_recursive_types(K)]
#[verifier::reject_recursive_types(V)]
pub struct ExTrie<K, V>(radix_trie::Trie<K, V>);

/// The keys that a radix trie holds.
pub uninterp spec fn trie_keys(t: radix_trie::Trie<Vec<u8>, ()>) -> Set<Seq<u8>>;

/// `k` is a prefix of `key`.
pub open spec fn is_prefix(k: Seq<u8>, key: Seq<u8>) -> bool {
    k.len() <= key.len() && key.subrange(0, k.len() as int) == k
}

/// Relies on radix_trie::Trie::new: an empty trie.
#[verifier::external_body]
pub(crate) fn trie_new() -> (r: radix_trie::Trie<Vec<u8>, ()>)
    ensures
        trie_keys(r) == Set::<Seq<u8>>::empty(),
{
    radix_trie::Trie::new()
}

/// Relies on radix_trie::Trie::insert: the key is added.
#[verifier::external_body]
pub(crate) fn trie_insert(t: &mut radix_trie::Trie<Vec<u8>, ()>, key: Vec<u8>)
    ensures
        trie_keys(*final(t)) == trie_keys(*old(t)).insert(key@),
{
    t.insert(key, ());
}

/// Relies on radix_trie::Trie::get_ancestor: some node is found if and only
/// if a key holding a value is a prefix of the given key.
#[verifier::external_body]
pub(crate) fn trie_has_ancestor(t: &radix_trie::Trie<Vec<u8>, ()>, key: &Vec<u8>) -> (r: bool)
    ensures
        r == (exists|k: Seq<u8>| #[trigger] trie_keys(*t).contains(k) && is_prefix(k, key@)),
{
    t.get_ancestor(key).is_some()
}

} // verus!
