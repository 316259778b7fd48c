use vstd::prelude::*;
use crate::protocol::{Address, Socks5Response, REPLY_GENERAL_FAILURE, REPLY_SUCCEEDED, response_wire};
use crate::routing::router::HighPerformanceRouter;
use crate::net::IpAddress;

verus! {

/// The phases of one proxied connection.
#[derive(Clone, Copy, Debug, PartialEq, Eq, Structural)]
pub enum Phase {
    Accepted,
    Handshaking,
    RequestParsed,
    Routed,
    Connecting,
    Relaying,
    Closed,
    Failed,
}

/// What happened in the current phase.
#[derive(Clone, Copy, Debug, PartialEq, Eq, Structural)]
pub enum PhaseEvent {
    /// The phase's work completed.
    Done,
    /// The phase's work failed.
    Error,
}

/// The phase after `p`: phases run strictly in order, any failure leads to
/// `Failed`, and `Closed` and `Failed` are final.
pub open spec fn next_phase_spec(p: Phase, e: PhaseEvent) -> Phase {
    match (p, e) {
        (Phase::Closed, _) => Phase::Closed,
        (Phase::Failed, _) => Phase::Failed,
        (_, PhaseEvent::Error) => Phase::Failed,
        (Phase::Accepted, PhaseEvent::Done) => Phase::Handshaking,
        (Phase::Handshaking, PhaseEvent::Done) => Phase::RequestParsed,
        (Phase::RequestParsed, PhaseEvent::Done) => Phase::Routed,
        (Phase::Routed, PhaseEvent::Done) => Phase::Connecting,
        (Phase::Connecting, PhaseEvent::Done) => Phase::Relaying,
        (Phase::Relaying, PhaseEvent::Done) => Phase::Closed,
    }
}

/// The phase after `p` when `e` happens in it.
pub fn next_phase(p: Phase, e: PhaseEvent) -> (r: Phase)
    ensures
        r == next_phase_spec(p, e),
{
    match (p, e) {
        (Phase::Closed, _) => Phase::Closed,
        (Phase::Failed, _) => Phase::Failed,
        (_, PhaseEvent::Error) => Phase::Failed,
        (Phase::Accepted, PhaseEvent::Done) => Phase::Handshaking,
        (Phase::Handshaking, PhaseEvent::Done) => Phase::RequestParsed,
        (Phase::RequestParsed, PhaseEvent::Done) => Phase::Routed,
        (Phase::Routed, PhaseEvent::Done) => Phase::Connecting,
        (Phase::Connecting, PhaseEvent::Done) => Phase::Relaying,
        (Phase::Relaying, PhaseEvent::Done) => Phase::Closed,
    }
}

/// Whether a failure in phase `p` can still be answered with a SOCKS5
/// reply: after the handshake and before the success reply.
pub fn failure_reply_allowed(p: Phase) -> (r: bool)
    ensures
        r == (p == Phase::RequestParsed || p == Phase::Routed || p == Phase::Connecting),
{
    match p {
        Phase::RequestParsed | Phase::Routed | Phase::Connecting => true,
        _ => false,
    }
}

/// The outbound for a requested destination: by domain name for a domain,
/// by address otherwise.
pub fn route_address(router: &mut HighPerformanceRouter, address: &Address) -> (r: String)
    requires
        old(router).wf(),
    ensures
        final(router).wf(),
        final(router).same_routing(old(router)),
        address matches Address::Domain(d) ==> r@ == old(router).route_domain(d@),
        !(address is Domain) ==> r@ == old(router).route_ip(address.ip_spec()),
{
    match address {
        Address::Domain(d) => router.select_outbound_for_domain(d.as_str()),
        Address::V4(o) => router.select_outbound_for_ip(IpAddress::v4(o[0], o[1], o[2], o[3])),
        Address::V6(o) => router.select_outbound_for_ip(IpAddress::v6(*o)),
    }
}

/// The cached outbound for a requested destination, if the router has
/// decided on it before; reading it changes nothing.
pub fn cached_route(router: &HighPerformanceRouter, address: &Address) -> (r: Option<String>)
    requires
        router.wf(),
    ensures
        r matches Some(v) ==> (address matches Address::Domain(d) ==> v@ == router.route_domain(d@)),
        r matches Some(v) ==> (!(address is Domain) ==> v@ == router.route_ip(address.ip_spec())),
{
    match address {
        Address::Domain(d) => router.cached_outbound_for_domain(d.as_str()),
        _ => match address.ip() {
            Some(ip) => router.cached_outbound_for_ip(ip),
            None => None,
        },
    }
}

/// The reply that tells the client its destination is connected.
pub fn success_reply(address: Address, port: u16) -> (r: Vec<u8>)
    requires
        address.wf(),
    ensures
        r@ == response_wire(REPLY_SUCCEEDED, address, port),
{
    Socks5Response::new(REPLY_SUCCEEDED, address, port).to_bytes()
}

/// The reply that tells the client the connection failed.
pub fn failure_reply(address: Address, port: u16) -> (r: Vec<u8>)
    requires
        address.wf(),
    ensures
        r@ == response_wire(REPLY_GENERAL_FAILURE, address, port),
{
    Socks5Response::new(REPLY_GENERAL_FAILURE, address, port).to_bytes()
}

} // verus!
