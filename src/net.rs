use vstd::prelude::*;

verus! {

/// An IP address as the plain integer that its octets spell, most
/// significant octet first.
#[derive(Clone, Copy, Debug, PartialEq, Eq, Structural)]
pub enum IpAddress {
    V4(u32),
    V6(u128),
}

/// A transport endpoint: an address and a port.
#[derive(Clone, Copy, Debug, PartialEq, Eq, Structural)]
pub struct SocketAddress {
    pub ip: IpAddress,
    pub port: u16,
}

/// A network prefix: an address and how many of its leading bits are fixed.
#[derive(Clone, Copy, Debug, PartialEq, Eq, Structural)]
#[allow(inconsistent_fields)]
pub enum Cidr {
    V4 { addr: u32, prefix_len: u8 },
    V6 { addr: u128, prefix_len: u8 },
}

/// Bit `i` of an IPv4 address, counting from the most significant bit.
pub open spec fn v4_bit(x: u32, i: u32) -> bool {
    (x >> ((31 - i) as u32)) & 1u32 == 1u32
}

/// `x` and `y` agree on their leading `n` bits.
pub open spec fn v4_prefix_agrees(x: u32, y: u32, n: u32) -> bool {
    forall|i: u32| i < n ==> #[trigger] v4_bit(x, i) == v4_bit(y, i)
}

/// `x` and `y` agree on their leading `n` bits.
pub open spec fn v6_prefix_agrees(x: u128, y: u128, n: u32) -> bool {
    forall|i: u32| i < n ==> #[trigger] v6_bit(x, i) == v6_bit(y, i)
}

/// Bit `i` of an IPv6 address, counting from the most significant bit.
pub open spec fn v6_bit(x: u128, i: u32) -> bool {
    (x >> ((127 - i) as u128)) & 1u128 == 1u128
}

impl Cidr {
    pub open spec fn wf(self) -> bool {
        match self {
            Cidr::V4 { prefix_len, .. } => prefix_len <= 32,
            Cidr::V6 { prefix_len, .. } => prefix_len <= 128,
        }
    }

    /// `ip` lies in the network: it is of the same family and agrees with
    /// the network address on every one of the leading `prefix_len` bits.
    pub open spec fn contains_spec(self, ip: IpAddress) -> bool {
        match self {
            Cidr::V4 { addr, prefix_len } => match ip {
                IpAddress::V4(x) => v4_prefix_agrees(x, addr, prefix_len as u32),
                IpAddress::V6(_) => false,
            },
            Cidr::V6 { addr, prefix_len } => match ip {
                IpAddress::V6(x) => v6_prefix_agrees(x, addr, prefix_len as u32),
                IpAddress::V4(_) => false,
            },
        }
    }

    /// Whether `ip` lies in this network, by comparing its leading bits.
    pub fn contains(&self, ip: &IpAddress) -> (r: bool)
        requires
            self.wf(),
        ensures
            r == self.contains_spec(*ip),
    {
        match (*self, *ip) {
            (Cidr::V4 { addr, prefix_len }, IpAddress::V4(x)) => {
                let mut i: u32 = 0;
                while i < prefix_len as u32
                    invariant
                        i <= prefix_len as u32 <= 32,
                        *self == (Cidr::V4 { addr, prefix_len }),
                        *ip == IpAddress::V4(x),
                        forall|j: u32| j < i ==> v4_bit(x, j) == v4_bit(addr, j),
                    decreases prefix_len as u32 - i,
                {
                    let bx = (x >> (31 - i)) & 1 == 1;
                    let ba = (addr >> (31 - i)) & 1 == 1;
                    if bx != ba {
                        assert(v4_bit(x, i) != v4_bit(addr, i));
                        return false;
                    }
                    i = i + 1;
                }
                true
            },
            (Cidr::V6 { addr, prefix_len }, IpAddress::V6(x)) => {
                let mut i: u32 = 0;
                while i < prefix_len as u32
                    invariant
                        i <= prefix_len as u32 <= 128,
                        *self == (Cidr::V6 { addr, prefix_len }),
                        *ip == IpAddress::V6(x),
                        forall|j: u32| j < i ==> v6_bit(x, j) == v6_bit(addr, j),
                    decreases prefix_len as u32 - i,
                {
                    let bx = (x >> (127 - i)) & 1 == 1;
                    let ba = (addr >> (127 - i)) & 1 == 1;
                    if bx != ba {
                        assert(v6_bit(x, i) != v6_bit(addr, i));
                        return false;
                    }
                    i = i + 1;
                }
                true
            },
            _ => false,
        }
    }
}

impl IpAddress {
    /// The IPv4 address `a.b.c.d`.
    pub fn v4(a: u8, b: u8, c: u8, d: u8) -> (r: IpAddress)
        ensures
            r == IpAddress::V4((a * 16777216 + b * 65536 + c * 256 + d) as u32),
    {
        IpAddress::V4((a as u32) * 16777216 + (b as u32) * 65536 + (c as u32) * 256 + d as u32)
    }

    /// The IPv6 address whose sixteen octets are given, most significant first.
    pub fn v6(octets: [u8; 16]) -> (r: IpAddress)
        ensures
            r == IpAddress::V6(octets_value(octets@, 16) as u128),
    {
        let mut acc: u128 = 0;
        let mut i: usize = 0;
        while i < 16
            invariant
                i <= 16,
                acc == octets_value(octets@, i as int),
                octets_value(octets@, i as int) < pow256(i as nat),
            decreases 16 - i,
        {
            proof {
                lemma_pow256_step(i as nat);
                lemma_pow256_bound(i as nat + 1);
            }
            assert(acc * 256 + octets@[i as int] < pow256(i as nat + 1)) by (nonlinear_arith)
                requires
                    acc < pow256(i as nat),
                    octets@[i as int] < 256,
                    pow256(i as nat + 1) == pow256(i as nat) * 256,
            ;
            acc = acc * 256 + octets[i] as u128;
            i = i + 1;
        }
        IpAddress::V6(acc)
    }
}

/// 256 to the power `n`.
pub open spec fn pow256(n: nat) -> nat
    decreases n,
{
    if n == 0 {
        1
    } else {
        256 * pow256((n - 1) as nat)
    }
}

/// The number that the first `n` octets of `b` spell, most significant first.
pub open spec fn octets_value(b: Seq<u8>, n: int) -> nat
    decreases n,
{
    if n <= 0 {
        0
    } else {
        octets_value(b, n - 1) * 256 + b[n - 1] as nat
    }
}

proof fn lemma_pow256_step(n: nat)
    ensures
        pow256(n + 1) == pow256(n) * 256,
{
    assert(pow256(n + 1) == 256 * pow256(n));
}

proof fn lemma_pow256_bound(n: nat)
    requires
        n <= 16,
    ensures
        pow256(n) <= u128::MAX + 1,
{
    reveal_with_fuel(pow256, 17);
    assert(pow256(16) == 0x1_0000_0000_0000_0000_0000_0000_0000_0000);
    lemma_pow256_monotone(n, 16);
}

proof fn lemma_pow256_monotone(a: nat, b: nat)
    requires
        a <= b,
    ensures
        pow256(a) <= pow256(b),
    decreases b,
{
    if a < b {
        lemma_pow256_monotone(a, (b - 1) as nat);
        assert(pow256(b) == 256 * pow256((b - 1) as nat));
    }
}

proof fn lemma_v4_shift_step(x: u32, y: u32, k: u32)
    requires
        k < 32,
    ensures
        (x >> k == y >> k) <==> (x >> (k + 1) as u32 == y >> (k + 1) as u32 && (x >> k) & 1u32 == (y >> k) & 1u32),
{
    assert((x >> k == y >> k) <==> (x >> (k + 1) as u32 == y >> (k + 1) as u32 && (x >> k) & 1u32 == (y >> k) & 1u32)) by (bit_vector)
        requires
            k < 32,
    ;
}

proof fn lemma_v4_prefix_shift(x: u32, y: u32, n: u32)
    requires
        n <= 32,
    ensures
        v4_prefix_agrees(x, y, n) <==> (n == 0 || x >> (32 - n) as u32 == y >> (32 - n) as u32),
    decreases n,
{
    if n > 0 {
        lemma_v4_prefix_shift(x, y, (n - 1) as u32);
        let k = (32 - n) as u32;
        lemma_v4_shift_step(x, y, k);
        assert(v4_bit(x, (n - 1) as u32) == ((x >> k) & 1u32 == 1u32));
        assert(v4_bit(y, (n - 1) as u32) == ((y >> k) & 1u32 == 1u32));
        assert(((x >> k) & 1u32 == 1u32) == ((y >> k) & 1u32 == 1u32) <==> (x >> k) & 1u32 == (y >> k) & 1u32) by (bit_vector);
        if n == 1 {
            assert(x >> 32u32 == 0u32 && y >> 32u32 == 0u32) by (bit_vector);
        }
        if v4_prefix_agrees(x, y, n) {
            assert(v4_prefix_agrees(x, y, (n - 1) as u32));
            assert(v4_bit(x, (n - 1) as u32) == v4_bit(y, (n - 1) as u32));
        }
        if x >> k == y >> k {
            assert forall|i: u32| i < n implies #[trigger] v4_bit(x, i) == v4_bit(y, i) by {
                if i < n - 1 {
                    assert(v4_prefix_agrees(x, y, (n - 1) as u32));
                }
            }
        }
    }
}

/// An IPv4 address lies in a network exactly when its network number, the
/// address without its host bits, is the network's: the addresses from the
/// network address to the broadcast address.
pub proof fn law_v4_network_range(addr: u32, prefix_len: u8, ip: u32)
    requires
        prefix_len <= 32,
    ensures
        (Cidr::V4 { addr, prefix_len }).contains_spec(IpAddress::V4(ip)) <==> (prefix_len == 0 || ip >> (32 - prefix_len) as u32
            == addr >> (32 - prefix_len) as u32),
{
    lemma_v4_prefix_shift(ip, addr, prefix_len as u32);
}

} // verus!
