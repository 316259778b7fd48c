use vstd::prelude::*;
use vstd::utf8::{decode_utf8, encode_utf8, valid_utf8};
use crate::error::ProxyError;
use crate::net::IpAddress;
use crate::outside::string_from_utf8;

verus! {

broadcast use vstd::utf8::encode_utf8_decode_utf8, vstd::utf8::decode_utf8_encode_utf8;

/// The protocol version byte.
pub const SOCKS_VERSION: u8 = 0x05;
/// The CONNECT command.
pub const CMD_CONNECT: u8 = 0x01;
/// Address type: four octets of IPv4.
pub const ATYP_IPV4: u8 = 0x01;
/// Address type: a length byte and a domain name.
pub const ATYP_DOMAIN: u8 = 0x03;
/// Address type: sixteen octets of IPv6.
pub const ATYP_IPV6: u8 = 0x04;
/// Reply status: success.
pub const REPLY_SUCCEEDED: u8 = 0x00;
/// Reply status: general failure.
pub const REPLY_GENERAL_FAILURE: u8 = 0x01;
/// Reply status: host unreachable.
pub const REPLY_HOST_UNREACHABLE: u8 = 0x04;
/// Authentication method: none.
pub const METHOD_NO_AUTH: u8 = 0x00;
/// Authentication method reply: no acceptable method.
pub const METHOD_NONE_ACCEPTABLE: u8 = 0xFF;

/// A destination as it appears on the wire.
pub enum Address {
    V4([u8; 4]),
    V6([u8; 16]),
    Domain(String),
}

/// The two bytes of a port, most significant first.
pub open spec fn port_bytes(port: u16) -> Seq<u8> {
    seq![(port / 256) as u8, (port % 256) as u8]
}

/// The port that two bytes spell, most significant first.
pub open spec fn port_of(hi: u8, lo: u8) -> u16 {
    (hi * 256 + lo) as u16
}

proof fn lemma_port_bytes(hi: u8, lo: u8)
    ensures
        port_bytes(port_of(hi, lo)) == seq![hi, lo],
{
    let p = port_of(hi, lo);
    assert(p == hi * 256 + lo);
    assert(p / 256 == hi && p % 256 == lo) by (nonlinear_arith)
        requires
            p == hi * 256 + lo,
            lo < 256,
    ;
    assert(port_bytes(p) =~= seq![hi, lo]);
}

impl Address {
    /// The address can be written: a domain fits its one-byte length.
    pub open spec fn wf(&self) -> bool {
        match self {
            Address::Domain(s) => encode_utf8(s@).len() <= 255,
            _ => true,
        }
    }

    /// Both are the same address: the same octets, or the same domain name.
    pub open spec fn same_as(&self, other: &Address) -> bool {
        match (self, other) {
            (Address::V4(x), Address::V4(y)) => x@ == y@,
            (Address::V6(x), Address::V6(y)) => x@ == y@,
            (Address::Domain(x), Address::Domain(y)) => x@ == y@,
            _ => false,
        }
    }

    /// The address type byte and the address, as written on the wire.
    pub open spec fn wire(&self) -> Seq<u8> {
        match self {
            Address::V4(o) => seq![ATYP_IPV4] + o@,
            Address::V6(o) => seq![ATYP_IPV6] + o@,
            Address::Domain(s) => seq![ATYP_DOMAIN, encode_utf8(s@).len() as u8] + encode_utf8(s@),
        }
    }

    /// `b` holds, from `start` on, a complete address and port that can be
    /// read.
    pub open spec fn readable(b: Seq<u8>, start: int) -> bool {
        let n = b.len() - start;
        &&& n >= 1
        &&& match b[start] {
            ATYP_IPV4 => n >= 7,
            ATYP_IPV6 => n >= 19,
            ATYP_DOMAIN => n >= 2 && n >= 4 + b[start + 1] && valid_utf8(
                b.subrange(start + 2, start + 2 + b[start + 1]),
            ),
            _ => false,
        }
    }

    /// The IP address of an address that is one.
    pub open spec fn ip_spec(&self) -> IpAddress {
        match self {
            Address::V4(o) => IpAddress::V4((o[0] * 16777216 + o[1] * 65536 + o[2] * 256 + o[3]) as u32),
            Address::V6(o) => IpAddress::V6(crate::net::octets_value(o@, 16) as u128),
            Address::Domain(_) => IpAddress::V4(0),
        }
    }

    /// The IP address, for addresses that are one.
    pub fn ip(&self) -> (r: Option<IpAddress>)
        ensures
            r is Some <==> !(self is Domain),
            r matches Some(ip) ==> ip == self.ip_spec(),
            self matches Address::V4(o) ==> r == Some(
                IpAddress::V4((o[0] * 16777216 + o[1] * 65536 + o[2] * 256 + o[3]) as u32),
            ),
            self matches Address::V6(o) ==> r == Some(
                IpAddress::V6(crate::net::octets_value(o@, 16) as u128),
            ),
    {
        match self {
            Address::V4(o) => Some(IpAddress::v4(o[0], o[1], o[2], o[3])),
            Address::V6(o) => Some(IpAddress::v6(*o)),
            Address::Domain(_) => None,
        }
    }

    /// Reads an address type byte, the address and a two-byte port from
    /// `buf`, starting at `start`. Fails with `InvalidAddressType` on an
    /// unknown type byte and with a protocol error on a short buffer or a
    /// domain that is not UTF-8.
    pub fn from_bytes(buf: &[u8], start: usize) -> (r: Result<(Address, u16), ProxyError>)
        requires
            start <= buf@.len(),
        ensures
            r is Ok <==> Self::readable(buf@, start as int),
            r matches Ok((a, port)) ==> start + a.wire().len() + 2 <= buf@.len(),
            r matches Ok((a, port)) ==> a.wf() && buf@.subrange(start as int, start + a.wire().len() + 2)
                == a.wire() + port_bytes(port),
            start < buf@.len() && !(buf@[start as int] == ATYP_IPV4 || buf@[start as int] == ATYP_IPV6
                || buf@[start as int] == ATYP_DOMAIN) ==> r == Err::<(Address, u16), ProxyError>(
                ProxyError::InvalidAddressType(buf@[start as int]),
            ),
            start >= buf@.len() ==> (r matches Err(e) && e is Protocol),
            start < buf@.len() && (buf@[start as int] == ATYP_IPV4 || buf@[start as int] == ATYP_IPV6
                || buf@[start as int] == ATYP_DOMAIN) ==> (r matches Err(e) ==> e is Protocol),
    {
        let ghost b = buf@;
        let n = buf.len() - start;
        if n < 1 {
            return Err(ProxyError::Protocol("missing address type".to_string()));
        }
        let atyp = buf[start];
        if atyp == ATYP_IPV4 {
            if n < 7 {
                return Err(ProxyError::Protocol("truncated IPv4 address".to_string()));
            }
            let o: [u8; 4] = [buf[start + 1], buf[start + 2], buf[start + 3], buf[start + 4]];
            let port = buf[start + 5] as u16 * 256 + buf[start + 6] as u16;
            let a = Address::V4(o);
            proof {
                lemma_port_bytes(b[start + 5], b[start + 6]);
                assert(b.subrange(start as int, start + 7) =~= a.wire() + port_bytes(port));
            }
            Ok((a, port))
        } else if atyp == ATYP_IPV6 {
            if n < 19 {
                return Err(ProxyError::Protocol("truncated IPv6 address".to_string()));
            }
            let s = start + 1;
            let o: [u8; 16] = [
                buf[s], buf[s + 1], buf[s + 2], buf[s + 3], buf[s + 4], buf[s + 5], buf[s + 6],
                buf[s + 7], buf[s + 8], buf[s + 9], buf[s + 10], buf[s + 11], buf[s + 12],
                buf[s + 13], buf[s + 14], buf[s + 15],
            ];
            let port = buf[start + 17] as u16 * 256 + buf[start + 18] as u16;
            let a = Address::V6(o);
            proof {
                lemma_port_bytes(b[start + 17], b[start + 18]);
                assert(b.subrange(start as int, start + 19) =~= a.wire() + port_bytes(port));
            }
            Ok((a, port))
        } else if atyp == ATYP_DOMAIN {
            if n < 2 {
                return Err(ProxyError::Protocol("truncated domain length".to_string()));
            }
            let len = buf[start + 1] as usize;
            if n < 4 + len {
                return Err(ProxyError::Protocol("truncated domain".to_string()));
            }
            let mut bytes: Vec<u8> = Vec::new();
            let mut i: usize = 0;
            while i < len
                invariant
                    b == buf@,
                    i <= len,
                    start + 4 + len <= buf.len(),
                    bytes@ =~= b.subrange(start + 2, start + 2 + i),
                decreases len - i,
            {
                bytes.push(buf[start + 2 + i]);
                i = i + 1;
            }
            let ghost raw = bytes@;
            let domain = match string_from_utf8(bytes) {
                Some(d) => d,
                None => {
                    return Err(ProxyError::Protocol("Invalid domain name".to_string()));
                },
            };
            let port = buf[start + 2 + len] as u16 * 256 + buf[start + 3 + len] as u16;
            let a = Address::Domain(domain);
            proof {
                assert(encode_utf8(domain@) == raw);
                lemma_port_bytes(b[start + 2 + len], b[start + 3 + len]);
                assert(b.subrange(start as int, start + 4 + len) =~= a.wire() + port_bytes(port));
            }
            Ok((a, port))
        } else {
            Err(ProxyError::InvalidAddressType(atyp))
        }
    }

    /// Appends the address type byte and the address to `out`.
    pub fn write_to(&self, out: &mut Vec<u8>)
        requires
            self.wf(),
        ensures
            final(out)@ == old(out)@ + self.wire(),
    {
        match self {
            Address::V4(o) => {
                out.push(ATYP_IPV4);
                let mut i: usize = 0;
                while i < 4
                    invariant
                        i <= 4,
                        out@ =~= old(out)@ + seq![ATYP_IPV4] + o@.subrange(0, i as int),
                    decreases 4 - i,
                {
                    out.push(o[i]);
                    i = i + 1;
                }
                assert(o@.subrange(0, 4) =~= o@);
            },
            Address::V6(o) => {
                out.push(ATYP_IPV6);
                let mut i: usize = 0;
                while i < 16
                    invariant
                        i <= 16,
                        out@ =~= old(out)@ + seq![ATYP_IPV6] + o@.subrange(0, i as int),
                    decreases 16 - i,
                {
                    out.push(o[i]);
                    i = i + 1;
                }
                assert(o@.subrange(0, 16) =~= o@);
            },
            Address::Domain(d) => {
                let bytes = d.as_str().as_bytes();
                assert(bytes@ == encode_utf8(d@));
                out.push(ATYP_DOMAIN);
                out.push(bytes.len() as u8);
                let mut i: usize = 0;
                while i < bytes.len()
                    invariant
                        i <= bytes@.len() <= 255,
                        bytes@ == encode_utf8(d@),
                        out@ =~= old(out)@ + seq![ATYP_DOMAIN, bytes@.len() as u8] + bytes@.subrange(0, i as int),
                    decreases bytes.len() - i,
                {
                    out.push(bytes[i]);
                    i = i + 1;
                }
                assert(bytes@.subrange(0, bytes@.len() as int) =~= bytes@);
            },
        }
    }
}

/// Appends a port to `out`, most significant byte first.
pub fn write_port(port: u16, out: &mut Vec<u8>)
    ensures
        final(out)@ == old(out)@ + port_bytes(port),
{
    out.push((port / 256) as u8);
    out.push((port % 256) as u8);
    assert(final(out)@ =~= old(out)@ + port_bytes(port));
}

/// A client's request: a command and the destination.
pub struct Socks5Request {
    pub command: u8,
    pub address: Address,
    pub port: u16,
}

impl Socks5Request {
    /// `b` starts with a complete CONNECT request.
    pub open spec fn readable(b: Seq<u8>) -> bool {
        &&& b.len() >= 4
        &&& b[0] == SOCKS_VERSION
        &&& b[1] == CMD_CONNECT
        &&& Address::readable(b, 3)
    }

    /// Reads a request `[version, command, reserved, address, port]`. Fails
    /// with a protocol error on a short buffer or a wrong version, with
    /// `UnsupportedCommand` on a command other than CONNECT, and as
    /// `Address::from_bytes` does on the address.
    pub fn from_bytes(buf: &[u8]) -> (r: Result<Socks5Request, ProxyError>)
        ensures
            r is Ok <==> Self::readable(buf@),
            r matches Ok(req) ==> req.command == CMD_CONNECT && req.address.wf() && buf@.subrange(
                0,
                (3 + req.address.wire().len() + 2) as int,
            ) == seq![SOCKS_VERSION, CMD_CONNECT, buf@[2]] + req.address.wire() + port_bytes(req.port),
            buf@.len() >= 4 && buf@[0] == SOCKS_VERSION && buf@[1] != CMD_CONNECT ==> r == Err::<
                Socks5Request,
                ProxyError,
            >(ProxyError::UnsupportedCommand(buf@[1])),
            (buf@.len() < 4 || buf@[0] != SOCKS_VERSION) ==> (r matches Err(e) && e is Protocol),
            buf@.len() >= 4 && buf@[0] == SOCKS_VERSION && buf@[1] == CMD_CONNECT && !(buf@[3] == ATYP_IPV4
                || buf@[3] == ATYP_IPV6 || buf@[3] == ATYP_DOMAIN) ==> r == Err::<Socks5Request, ProxyError>(
                ProxyError::InvalidAddressType(buf@[3]),
            ),
            buf@.len() >= 4 && buf@[0] == SOCKS_VERSION && buf@[1] == CMD_CONNECT && (buf@[3] == ATYP_IPV4
                || buf@[3] == ATYP_IPV6 || buf@[3] == ATYP_DOMAIN) ==> (r matches Err(e) ==> e is Protocol),
            r matches Ok(req) ==> 3 + req.address.wire().len() + 2 <= buf@.len(),
    {
        if buf.len() < 4 {
            return Err(ProxyError::Protocol("Incomplete SOCKS5 request".to_string()));
        }
        if buf[0] != SOCKS_VERSION {
            return Err(ProxyError::Protocol("Unsupported SOCKS version".to_string()));
        }
        let command = buf[1];
        if command != CMD_CONNECT {
            return Err(ProxyError::UnsupportedCommand(command));
        }
        match Address::from_bytes(buf, 3) {
            Ok((address, port)) => {
                proof {
                    let w = address.wire();
                    assert(buf@.subrange(0, (3 + w.len() + 2) as int) =~= buf@.subrange(0, 3) + buf@.subrange(3, (3 + w.len() + 2) as int));
                    assert(buf@.subrange(0, 3) =~= seq![SOCKS_VERSION, CMD_CONNECT, buf@[2]]);
                }
                Ok(Socks5Request { command, address, port })
            },
            Err(e) => Err(e),
        }
    }
}

/// A server's reply: a status and the bound address.
pub struct Socks5Response {
    pub status: u8,
    pub address: Address,
    pub port: u16,
}

/// The bytes of a reply.
pub open spec fn response_wire(status: u8, address: Address, port: u16) -> Seq<u8> {
    seq![SOCKS_VERSION, status, 0u8] + address.wire() + port_bytes(port)
}

impl Socks5Response {
    pub fn new(status: u8, address: Address, port: u16) -> (r: Socks5Response)
        ensures
            r.status == status,
            r.address == address,
            r.port == port,
    {
        Socks5Response { status, address, port }
    }

    /// Writes the reply `[version, status, reserved, address, port]`.
    pub fn to_bytes(&self) -> (r: Vec<u8>)
        requires
            self.address.wf(),
        ensures
            r@ == response_wire(self.status, self.address, self.port),
    {
        let mut buf: Vec<u8> = Vec::new();
        buf.push(SOCKS_VERSION);
        buf.push(self.status);
        buf.push(0x00);
        self.address.write_to(&mut buf);
        write_port(self.port, &mut buf);
        assert(buf@ =~= response_wire(self.status, self.address, self.port));
        buf
    }
}

/// What the server answers to a client's greeting.
#[derive(Clone, Copy, Debug, PartialEq, Eq, Structural)]
pub enum GreetingDecision {
    /// "No authentication" was offered: select it.
    Accept,
    /// It was not: refuse all methods, then close.
    Reject,
}

impl GreetingDecision {
    /// The two-byte method-selection reply.
    pub fn reply(&self) -> (r: [u8; 2])
        ensures
            *self == GreetingDecision::Accept ==> r@ == seq![SOCKS_VERSION, METHOD_NO_AUTH],
            *self == GreetingDecision::Reject ==> r@ == seq![SOCKS_VERSION, METHOD_NONE_ACCEPTABLE],
    {
        match self {
            GreetingDecision::Accept => [SOCKS_VERSION, METHOD_NO_AUTH],
            GreetingDecision::Reject => [SOCKS_VERSION, METHOD_NONE_ACCEPTABLE],
        }
    }
}

/// `b` is a complete greeting `[version, n, n methods]`.
pub open spec fn greeting_well_formed(b: Seq<u8>) -> bool {
    b.len() >= 3 && b[0] == SOCKS_VERSION && b.len() >= 2 + b[1]
}

/// Decides on a client's greeting: accept if "no authentication" is among
/// the offered methods, reject if not. Fails with a protocol error on a
/// short greeting or a wrong version.
pub fn check_greeting(buf: &[u8]) -> (r: Result<GreetingDecision, ProxyError>)
    ensures
        r is Ok <==> greeting_well_formed(buf@),
        r == Ok::<GreetingDecision, ProxyError>(GreetingDecision::Accept) <==> greeting_well_formed(buf@)
            && buf@.subrange(2, 2 + buf@[1]).contains(METHOD_NO_AUTH),
        r matches Err(e) ==> e is Protocol,
{
    if buf.len() < 3 {
        return Err(ProxyError::Protocol("Incomplete handshake".to_string()));
    }
    if buf[0] != SOCKS_VERSION {
        return Err(ProxyError::Protocol("Unsupported SOCKS version".to_string()));
    }
    let nmethods = buf[1] as usize;
    if buf.len() < 2 + nmethods {
        return Err(ProxyError::Protocol("Incomplete handshake".to_string()));
    }
    let ghost methods = buf@.subrange(2, 2 + nmethods);
    let mut i: usize = 0;
    while i < nmethods
        invariant
            i <= nmethods,
            nmethods == buf@[1],
            buf@.len() >= 3,
            buf@[0] == SOCKS_VERSION,
            2 + nmethods <= buf.len(),
            methods == buf@.subrange(2, 2 + nmethods),
            forall|j: int| 0 <= j < i ==> methods[j] != METHOD_NO_AUTH,
        decreases nmethods - i,
    {
        if buf[2 + i] == METHOD_NO_AUTH {
            assert(methods[i as int] == METHOD_NO_AUTH);
            return Ok(GreetingDecision::Accept);
        }
        i = i + 1;
    }
    Ok(GreetingDecision::Reject)
}

/// A reply's address reads back as written: the request-side address
/// reader, started after the reply's three header bytes, accepts the bytes,
/// and whatever address and port it returns (its contract pins them to the
/// bytes it consumed) are the ones the reply was made of.
pub proof fn law_response_address_round_trip(status: u8, a: Address, p: u16, a2: Address, p2: u16)
    requires
        a.wf(),
        a2.wf(),
        3 + a2.wire().len() + 2 <= response_wire(status, a, p).len(),
        response_wire(status, a, p).subrange(3, (3 + a2.wire().len() + 2) as int) == a2.wire() + port_bytes(p2),
    ensures
        Address::readable(response_wire(status, a, p), 3),
        a2.same_as(&a),
        p2 == p,
{
    let w = response_wire(status, a, p);
    let wa = a.wire();
    let wb = a2.wire();
    let got = w.subrange(3, (3 + wb.len() + 2) as int);
    assert(w =~= seq![SOCKS_VERSION, status, 0u8] + wa + port_bytes(p));
    assert(w[3] == wa[0]);
    assert(got[0] == wb[0]);
    match a {
        Address::V4(o) => {
            assert(wa.len() == 5);
            assert(Address::readable(w, 3));
            match a2 {
                Address::V4(o2) => {
                    assert forall|i: int| 0 <= i < 4 implies o2@[i] == o@[i] by {
                        assert(got[1 + i] == wb[1 + i]);
                        assert(w[4 + i] == wa[1 + i]);
                    }
                    assert(o2@ =~= o@);
                    assert(got[5] == w[8] && got[6] == w[9]);
                },
                Address::V6(_) => { assert(wb[0] == ATYP_IPV6); },
                Address::Domain(_) => { assert(wb[0] == ATYP_DOMAIN); },
            }
        },
        Address::V6(o) => {
            assert(wa.len() == 17);
            assert(Address::readable(w, 3));
            match a2 {
                Address::V6(o2) => {
                    assert forall|i: int| 0 <= i < 16 implies o2@[i] == o@[i] by {
                        assert(got[1 + i] == wb[1 + i]);
                        assert(w[4 + i] == wa[1 + i]);
                    }
                    assert(o2@ =~= o@);
                    assert(got[17] == w[20] && got[18] == w[21]);
                },
                Address::V4(_) => { assert(wb[0] == ATYP_IPV4); },
                Address::Domain(_) => { assert(wb[0] == ATYP_DOMAIN); },
            }
        },
        Address::Domain(d) => {
            let e = encode_utf8(d@);
            let n = e.len() as int;
            assert(wa =~= seq![ATYP_DOMAIN, n as u8] + e);
            assert(w[4] == n as u8);
            assert(w.subrange(5, 5 + n) =~= e);
            vstd::utf8::encode_utf8_valid_utf8(d@);
            assert(w[4] as int == n);
            assert(w.subrange(5, 5 + w[4] as int) == e);
            assert(Address::readable(w, 3));
            match a2 {
                Address::Domain(d2) => {
                    let e2 = encode_utf8(d2@);
                    assert(wb =~= seq![ATYP_DOMAIN, e2.len() as u8] + e2);
                    assert(got[1] == w[4]);
                    assert(e2.len() == n);
                    assert(got.len() == wb.len() + 2);
                    assert forall|i: int| 0 <= i < n implies e2[i] == e[i] by {
                        assert(got[2 + i] == wb[2 + i]);
                        assert(w[5 + i] == wa[2 + i]);
                    }
                    assert(e2 =~= e);
                    assert(decode_utf8(e2) == d2@);
                    assert(got[2 + n] == w[5 + n] && got[3 + n] == w[6 + n]);
                },
                Address::V4(_) => { assert(wb[0] == ATYP_IPV4); },
                Address::V6(_) => { assert(wb[0] == ATYP_IPV6); },
            }
        },
    }
    lemma_port_bytes_injective(p, p2);
}

proof fn lemma_port_bytes_injective(p: u16, q: u16)
    ensures
        port_bytes(p) == port_bytes(q) ==> p == q,
{
    if port_bytes(p) == port_bytes(q) {
        assert(port_bytes(p)[0] == port_bytes(q)[0]);
        assert(port_bytes(p)[1] == port_bytes(q)[1]);
        assert(p == (p / 256) * 256 + p % 256) by (nonlinear_arith);
        assert(q == (q / 256) * 256 + q % 256) by (nonlinear_arith);
    }
}

} // verus!
