use vstd::prelude::*;
use crate::error::ProxyError;
use crate::protocol::{Address, SOCKS_VERSION, CMD_CONNECT, METHOD_NO_AUTH, ATYP_IPV4, ATYP_IPV6, ATYP_DOMAIN, REPLY_SUCCEEDED, port_bytes, write_port};

verus! {

/// Connects straight to the target; outbound only.
#[derive(Clone, Copy, Debug)]
pub struct DirectProtocol;

/// Drops every connection; outbound only.
#[derive(Clone, Copy, Debug)]
pub struct BlackholeProtocol;

/// Intercepts traffic with transparent sockets; inbound only.
#[derive(Clone, Copy, Debug)]
pub struct TproxyProtocol;

/// Relays through an upstream SOCKS5 server.
pub struct Socks5Protocol {
    server_addr: Option<String>,
}

/// A protocol whose client is not written yet.
pub struct VlessProtocol {
    server_addr: Option<String>,
    uuid: Option<String>,
    tls: bool,
}

impl DirectProtocol {
    pub fn new() -> (r: Self) {
        DirectProtocol
    }
}

impl BlackholeProtocol {
    pub fn new() -> (r: Self) {
        BlackholeProtocol
    }
}

impl TproxyProtocol {
    pub fn new() -> (r: Self) {
        TproxyProtocol
    }
}

impl Socks5Protocol {
    pub closed spec fn server_spec(&self) -> Option<Seq<char>> {
        match self.server_addr {
            Some(s) => Some(s@),
            None => None,
        }
    }

    /// A SOCKS5 protocol with no upstream server, usable as inbound only.
    pub fn new() -> (r: Self)
        ensures
            r.server_spec() is None,
    {
        Socks5Protocol { server_addr: None }
    }

    /// A SOCKS5 protocol relaying through the server at `server_addr`
    /// (`host:port`).
    pub fn with_server(server_addr: String) -> (r: Self)
        ensures
            r.server_spec() == Some(server_addr@),
    {
        Socks5Protocol { server_addr: Some(server_addr) }
    }
}

impl VlessProtocol {
    pub closed spec fn server_spec(&self) -> Option<Seq<char>> {
        match self.server_addr {
            Some(s) => Some(s@),
            None => None,
        }
    }

    pub closed spec fn tls_spec(&self) -> bool {
        self.tls
    }

    pub fn new() -> (r: Self)
        ensures
            r.server_spec() is None,
            !r.tls_spec(),
    {
        VlessProtocol { server_addr: None, uuid: None, tls: false }
    }

    pub fn with_config(server_addr: String, uuid: String, tls: bool) -> (r: Self)
        ensures
            r.server_spec() == Some(server_addr@),
            r.tls_spec() == tls,
    {
        VlessProtocol { server_addr: Some(server_addr), uuid: Some(uuid), tls }
    }
}

/// The closed set of protocols.
pub enum Protocol {
    Direct(DirectProtocol),
    Socks5(Socks5Protocol),
    Blackhole(BlackholeProtocol),
    Tproxy(TproxyProtocol),
    Vless(VlessProtocol),
}

/// How to reach a target for an outbound protocol.
pub enum OutboundPlan {
    /// Open a TCP connection to the target itself.
    Dial,
    /// Connect to the SOCKS5 server at this `host:port` and ask it for the
    /// target.
    ViaSocks5 { server: String },
}

/// What starting an inbound protocol means.
#[derive(Clone, Copy, Debug, PartialEq, Eq, Structural)]
pub enum InboundPlan {
    /// Listen for SOCKS5 clients.
    Socks5Listener,
    /// Bind a TCP listener and a UDP socket marked transparent.
    TransparentListener,
}

impl Protocol {
    /// The protocol's name.
    pub fn name(&self) -> (r: &'static str)
        ensures
            self is Direct ==> r@ == "direct"@,
            self is Socks5 ==> r@ == "socks5"@,
            self is Blackhole ==> r@ == "blackhole"@,
            self is Tproxy ==> r@ == "tproxy"@,
            self is Vless ==> r@ == "vless"@,
    {
        match self {
            Protocol::Direct(_) => "direct",
            Protocol::Socks5(_) => "socks5",
            Protocol::Blackhole(_) => "blackhole",
            Protocol::Tproxy(_) => "tproxy",
            Protocol::Vless(_) => "vless",
        }
    }

    /// How to connect outbound: directly, or through the configured SOCKS5
    /// server. Blackhole always fails with a connection failure; a SOCKS5
    /// protocol without a server, transparent proxying and the unwritten
    /// protocol fail with a protocol error.
    pub fn connect_outbound(&self) -> (r: Result<OutboundPlan, ProxyError>)
        ensures
            self is Direct ==> r matches Ok(OutboundPlan::Dial),
            self matches Protocol::Socks5(p) ==> match p.server_spec() {
                Some(s) => (r matches Ok(OutboundPlan::ViaSocks5 { server }) && server@ == s),
                None => (r matches Err(e) && e is Protocol),
            },
            self is Blackhole ==> (r matches Err(e) && e is ConnectionFailed),
            (self is Tproxy || self is Vless) ==> (r matches Err(e) && e is Protocol),
    {
        match self {
            Protocol::Direct(_) => Ok(OutboundPlan::Dial),
            Protocol::Socks5(p) => match &p.server_addr {
                Some(s) => Ok(OutboundPlan::ViaSocks5 { server: s.clone() }),
                None => Err(ProxyError::Protocol("SOCKS5 server address not configured".to_string())),
            },
            Protocol::Blackhole(_) => Err(ProxyError::ConnectionFailed("Blackhole outbound - connection dropped".to_string())),
            Protocol::Tproxy(_) => Err(ProxyError::Protocol("TProxy protocol cannot be used as outbound".to_string())),
            Protocol::Vless(_) => Err(ProxyError::Protocol("VLESS protocol not implemented yet".to_string())),
        }
    }

    /// What starting this protocol as an inbound means. Transparent proxying
    /// needs platform support; direct and blackhole are outbound only; the
    /// unwritten protocol is not implemented.
    pub fn start_inbound(&self, platform_supports_transparent: bool) -> (r: Result<InboundPlan, ProxyError>)
        ensures
            self is Socks5 ==> r == Ok::<InboundPlan, ProxyError>(InboundPlan::Socks5Listener),
            self is Tproxy && platform_supports_transparent ==> r == Ok::<InboundPlan, ProxyError>(InboundPlan::TransparentListener),
            self is Tproxy && !platform_supports_transparent ==> (r matches Err(e) && e is Protocol),
            (self is Direct || self is Blackhole || self is Vless) ==> (r matches Err(e) && e is Protocol),
    {
        match self {
            Protocol::Socks5(_) => Ok(InboundPlan::Socks5Listener),
            Protocol::Tproxy(_) => if platform_supports_transparent {
                Ok(InboundPlan::TransparentListener)
            } else {
                Err(ProxyError::Protocol("TProxy is only supported on Linux".to_string()))
            },
            Protocol::Direct(_) => Err(ProxyError::Protocol("Direct protocol cannot be used as inbound".to_string())),
            Protocol::Blackhole(_) => Err(ProxyError::Protocol("Blackhole protocol cannot be used as inbound".to_string())),
            Protocol::Vless(_) => Err(ProxyError::Protocol("VLESS protocol not implemented yet".to_string())),
        }
    }
}

/// The greeting a SOCKS5 client sends: version 5, one method, no
/// authentication.
pub fn socks5_client_greeting() -> (r: Vec<u8>)
    ensures
        r@ == seq![SOCKS_VERSION, 1u8, METHOD_NO_AUTH],
{
    let mut v: Vec<u8> = Vec::new();
    v.push(SOCKS_VERSION);
    v.push(1);
    v.push(METHOD_NO_AUTH);
    assert(v@ =~= seq![SOCKS_VERSION, 1u8, METHOD_NO_AUTH]);
    v
}

/// Checks the upstream server's method selection: it must select "no
/// authentication".
pub fn check_method_selection(reply: &[u8]) -> (r: Result<(), ProxyError>)
    ensures
        r is Ok <==> reply@ == seq![SOCKS_VERSION, METHOD_NO_AUTH],
        r matches Err(e) ==> e is Protocol,
{
    if reply.len() == 2 && reply[0] == SOCKS_VERSION && reply[1] == METHOD_NO_AUTH {
        assert(reply@ =~= seq![SOCKS_VERSION, METHOD_NO_AUTH]);
        Ok(())
    } else {
        Err(ProxyError::Protocol("SOCKS5 authentication failed".to_string()))
    }
}

/// The CONNECT request a SOCKS5 client sends for a target.
pub fn socks5_connect_request(target: &Address, port: u16) -> (r: Vec<u8>)
    requires
        target.wf(),
    ensures
        r@ == seq![SOCKS_VERSION, CMD_CONNECT, 0u8] + target.wire() + port_bytes(port),
{
    let mut v: Vec<u8> = Vec::new();
    v.push(SOCKS_VERSION);
    v.push(CMD_CONNECT);
    v.push(0);
    target.write_to(&mut v);
    write_port(port, &mut v);
    assert(v@ =~= seq![SOCKS_VERSION, CMD_CONNECT, 0u8] + target.wire() + port_bytes(port));
    v
}

/// How much of a reply follows its four-byte header before the port.
#[derive(Clone, Copy, Debug, PartialEq, Eq, Structural)]
pub enum BoundAddress {
    /// A fixed number of address bytes.
    Fixed(usize),
    /// One length byte, then that many bytes.
    LengthPrefixed,
}

/// Reads the header `[version, status, reserved, address type]` of the
/// upstream server's reply: any non-zero status is a connection failure;
/// otherwise it says how many bound-address bytes to skip before the two
/// port bytes.
pub fn parse_reply_header(head: [u8; 4]) -> (r: Result<BoundAddress, ProxyError>)
    ensures
        head[1] != REPLY_SUCCEEDED ==> (r matches Err(e) && e is ConnectionFailed),
        head[1] == REPLY_SUCCEEDED ==> r == Ok::<BoundAddress, ProxyError>(
            if head[3] == ATYP_IPV4 {
                BoundAddress::Fixed(4)
            } else if head[3] == ATYP_IPV6 {
                BoundAddress::Fixed(16)
            } else if head[3] == ATYP_DOMAIN {
                BoundAddress::LengthPrefixed
            } else {
                BoundAddress::Fixed(0)
            },
        ),
{
    if head[1] != REPLY_SUCCEEDED {
        return Err(ProxyError::ConnectionFailed("SOCKS5 connect failed".to_string()));
    }
    if head[3] == ATYP_IPV4 {
        Ok(BoundAddress::Fixed(4))
    } else if head[3] == ATYP_IPV6 {
        Ok(BoundAddress::Fixed(16))
    } else if head[3] == ATYP_DOMAIN {
        Ok(BoundAddress::LengthPrefixed)
    } else {
        Ok(BoundAddress::Fixed(0))
    }
}

} // verus!
