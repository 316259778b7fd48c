use vstd::prelude::*;
use vstd::hash_map::StringHashMap;
use crate::config::{OutboundConfig, OutboundType};
use crate::protocols::{
    BlackholeProtocol, DirectProtocol, Protocol, Socks5Protocol, VlessProtocol,
};

verus! {

/// `p` is the protocol that the outbound kind `k` configures.
pub open spec fn configures(p: Protocol, k: OutboundType) -> bool {
    match (k, p) {
        (OutboundType::Direct, Protocol::Direct(_)) => true,
        (OutboundType::Blackhole, Protocol::Blackhole(_)) => true,
        (OutboundType::Socks5 { address }, Protocol::Socks5(s)) => s.server_spec() == Some(address@),
        (OutboundType::Vless { address, tls, .. }, Protocol::Vless(v)) => v.server_spec() == Some(address@)
            && v.tls_spec() == tls,
        _ => false,
    }
}

/// Among the first `n` configurations, `name` is last given at index `j`.
pub open spec fn last_named(configs: Seq<OutboundConfig>, n: int, name: Seq<char>, j: int) -> bool {
    &&& 0 <= j < n
    &&& configs[j].name@ == name
    &&& forall|k: int| j < k < n ==> (#[trigger] configs[k]).name@ != name
}

/// The protocol configured by one outbound kind.
fn protocol_of(kind: &OutboundType) -> (r: Protocol)
    ensures
        configures(r, *kind),
{
    match kind {
        OutboundType::Direct => Protocol::Direct(DirectProtocol::new()),
        OutboundType::Blackhole => Protocol::Blackhole(BlackholeProtocol::new()),
        OutboundType::Socks5 { address } => Protocol::Socks5(Socks5Protocol::with_server(address.clone())),
        OutboundType::Vless { address, uuid, tls } => Protocol::Vless(
            VlessProtocol::with_config(address.clone(), uuid.clone(), *tls),
        ),
    }
}

/// The protocol of each configured outbound, by name.
pub struct OutboundManager {
    connectors: StringHashMap<Protocol>,
}

impl OutboundManager {
    pub closed spec fn map(&self) -> Map<Seq<char>, Protocol> {
        self.connectors@
    }

    /// Builds the registry; where a name is given twice, the later
    /// configuration wins.
    pub fn from_configs(configs: &Vec<OutboundConfig>) -> (r: OutboundManager)
        ensures
            forall|name: Seq<char>| #[trigger] r.map().contains_key(name) <==> exists|j: int|
                0 <= j < configs@.len() && configs@[j].name@ == name,
            forall|name: Seq<char>, j: int| #[trigger] last_named(configs@, configs@.len() as int, name, j)
                ==> r.map().contains_key(name) && configures(r.map()[name], configs@[j].kind),
    {
        let mut map: StringHashMap<Protocol> = StringHashMap::new();
        let mut i: usize = 0;
        while i < configs.len()
            invariant
                i <= configs@.len(),
                forall|name: Seq<char>| #[trigger] map@.contains_key(name) <==> exists|j: int|
                    0 <= j < i && configs@[j].name@ == name,
                forall|name: Seq<char>, j: int| #[trigger] last_named(configs@, i as int, name, j)
                    ==> map@.contains_key(name) && configures(map@[name], configs@[j].kind),
            decreases configs.len() - i,
        {
            let cfg = &configs[i];
            let p = protocol_of(&cfg.kind);
            let ghost before = map@;
            map.insert(cfg.name.clone(), p);
            proof {
                assert forall|name: Seq<char>| #[trigger] map@.contains_key(name) <==> exists|j: int|
                    0 <= j < i + 1 && configs@[j].name@ == name by {
                    if name == cfg.name@ {
                        assert(configs@[i as int].name@ == name);
                    } else if map@.contains_key(name) {
                        assert(before.contains_key(name));
                    } else if exists|j: int| 0 <= j < i + 1 && configs@[j].name@ == name {
                        let j = choose|j: int| 0 <= j < i + 1 && configs@[j].name@ == name;
                        assert(j < i);
                    }
                }
                assert forall|name: Seq<char>, j: int| #[trigger] last_named(configs@, i + 1, name, j)
                    implies map@.contains_key(name) && configures(map@[name], configs@[j].kind) by {
                    if name == cfg.name@ {
                        if j < i {
                            assert(configs@[i as int].name@ == name);
                        }
                    } else {
                        assert(j != i);
                        assert(last_named(configs@, i as int, name, j));
                    }
                }
            }
            i = i + 1;
        }
        OutboundManager { connectors: map }
    }

    /// The protocol of the outbound called `name`, if any.
    pub fn get(&self, name: &str) -> (r: Option<&Protocol>)
        ensures
            r matches Some(p) ==> self.map().contains_key(name@) && *p == self.map()[name@],
            r is None ==> !self.map().contains_key(name@),
    {
        self.connectors.get(name)
    }
}

} // verus!
