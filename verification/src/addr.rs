//! Endpoint addresses, as the destination service sends them and as the proxy uses them.
use vstd::prelude::*;

verus! {

/// The two halves of an IPv6 address.
#[derive(Clone, Copy, Debug, PartialEq, Eq)]
pub struct IPv6 {
    pub first: u64,
    pub last: u64,
}

/// An IP address as the destination service encodes it.
#[derive(Clone, Copy, Debug, PartialEq, Eq)]
pub enum Ip {
    Ipv4(u32),
    Ipv6(IPv6),
}

/// An IP address field, which a message may leave empty.
#[derive(Clone, Copy, Debug, PartialEq, Eq)]
pub struct IpAddress {
    pub ip: Option<Ip>,
}

/// A TCP endpoint as the destination service encodes it.
#[derive(Clone, Copy, Debug, PartialEq, Eq)]
pub struct TcpAddress {
    pub ip: Option<IpAddress>,
    pub port: u32,
}

/// The octets of an IP address, in network order.
#[derive(Clone, Copy, Debug, PartialEq, Eq, PartialOrd, Ord, Hash)]
pub enum IpAddr {
    V4([u8; 4]),
    V6([u8; 16]),
}

/// An IP address and a port.
#[derive(Clone, Copy, Debug, PartialEq, Eq, PartialOrd, Ord, Hash)]
pub struct SocketAddr {
    pub ip: IpAddr,
    pub port: u16,
}

impl View for IpAddr {
    type V = Seq<u8>;

    open spec fn view(&self) -> Seq<u8> {
        match *self {
            IpAddr::V4(octets) => octets@,
            IpAddr::V6(octets) => octets@,
        }
    }
}

/// A socket address as contracts speak of it: the octets, four or sixteen of them, and the port.
impl View for SocketAddr {
    type V = (Seq<u8>, u16);

    open spec fn view(&self) -> (Seq<u8>, u16) {
        (self.ip@, self.port)
    }
}

/// The four octets of `x` in network order.
pub open spec fn octets_of_u32(x: u32) -> Seq<u8> {
    seq![
        (x / 0x100_0000) as u8,
        (x / 0x1_0000 % 0x100) as u8,
        (x / 0x100 % 0x100) as u8,
        (x % 0x100) as u8,
    ]
}

/// The eight octets of `x` in network order.
pub open spec fn octets_of_u64(x: u64) -> Seq<u8> {
    octets_of_u32((x / 0x1_0000_0000) as u32) + octets_of_u32((x % 0x1_0000_0000) as u32)
}

/// The octets of an IP address in network order: the first half of an IPv6 address comes first.
pub open spec fn octets_of_ip(ip: Ip) -> Seq<u8> {
    match ip {
        Ip::Ipv4(bits) => octets_of_u32(bits),
        Ip::Ipv6(v6) => octets_of_u64(v6.first) + octets_of_u64(v6.last),
    }
}

/// The socket address that a message means: none where it carries no IP address; else the octets
/// of the IP address, and the low sixteen bits of the port.
pub open spec fn sock_addr(pb: TcpAddress) -> Option<(Seq<u8>, u16)> {
    match pb.ip {
        Some(IpAddress { ip: Some(ip) }) => Some((octets_of_ip(ip), (pb.port % 0x1_0000) as u16)),
        _ => None,
    }
}

/// The number that octets in network order spell.
pub open spec fn be_value(octets: Seq<u8>) -> nat
    decreases octets.len(),
{
    if octets.len() == 0 {
        0
    } else {
        be_value(octets.drop_last()) * 256 + octets.last() as nat
    }
}

/// The shifts that take the eight octets of a number apart.
proof fn lemma_octets_of_u64(x: u64)
    ensures
        octets_of_u64(x) == seq![
            (x >> 56) as u8,
            (x >> 48) as u8,
            (x >> 40) as u8,
            (x >> 32) as u8,
            (x >> 24) as u8,
            (x >> 16) as u8,
            (x >> 8) as u8,
            x as u8,
        ],
{
    let hi = (x / 0x1_0000_0000) as u32;
    let lo = (x % 0x1_0000_0000) as u32;
    assert(hi == (x >> 32u64) as u32) by (bit_vector)
        requires
            hi == (x / 0x1_0000_0000u64) as u32,
    ;
    assert(lo == x as u32) by (bit_vector)
        requires
            lo == (x % 0x1_0000_0000u64) as u32,
    ;
    lemma_octets_of_u32(hi);
    lemma_octets_of_u32(lo);
    assert((((x >> 32u64) as u32) >> 24u32) as u8 == (x >> 56u64) as u8) by (bit_vector);
    assert((((x >> 32u64) as u32) >> 16u32) as u8 == (x >> 48u64) as u8) by (bit_vector);
    assert((((x >> 32u64) as u32) >> 8u32) as u8 == (x >> 40u64) as u8) by (bit_vector);
    assert(((x >> 32u64) as u32) as u8 == (x >> 32u64) as u8) by (bit_vector);
    assert(((x as u32) >> 24u32) as u8 == (x >> 24u64) as u8) by (bit_vector);
    assert(((x as u32) >> 16u32) as u8 == (x >> 16u64) as u8) by (bit_vector);
    assert(((x as u32) >> 8u32) as u8 == (x >> 8u64) as u8) by (bit_vector);
    assert((x as u32) as u8 == x as u8) by (bit_vector);
}

/// The shifts that take the four octets of a number apart.
proof fn lemma_octets_of_u32(x: u32)
    ensures
        octets_of_u32(x) == seq![(x >> 24) as u8, (x >> 16) as u8, (x >> 8) as u8, x as u8],
{
    assert((x / 0x100_0000u32) as u8 == (x >> 24u32) as u8) by (bit_vector);
    assert((x / 0x1_0000u32 % 0x100u32) as u8 == (x >> 16u32) as u8) by (bit_vector);
    assert((x / 0x100u32 % 0x100u32) as u8 == (x >> 8u32) as u8) by (bit_vector);
    assert((x % 0x100u32) as u8 == x as u8) by (bit_vector);
}

/// The socket address that a message means, or `None` where it carries no IP address.
pub fn pb_to_sock_addr(pb: TcpAddress) -> (r: Option<SocketAddr>)
    ensures
        r is Some <==> sock_addr(pb) is Some,
        r matches Some(addr) ==> addr@ == sock_addr(pb)->0,
        r matches Some(addr) ==> (addr.ip is V4 <==> pb.ip->0.ip->0 is Ipv4),
{
    let port = pb.port as u16;
    proof {
        let wide = pb.port;
        assert(wide as u16 == (wide % 0x1_0000u32) as u16) by (bit_vector);
    }
    match pb.ip {
        Some(ip) => match ip.ip {
            Some(Ip::Ipv4(bits)) => {
                let octets = [
                    (bits >> 24) as u8,
                    (bits >> 16) as u8,
                    (bits >> 8) as u8,
                    bits as u8,
                ];
                proof {
                    lemma_octets_of_u32(bits);
                    assert(octets@ =~= octets_of_u32(bits));
                }
                Some(SocketAddr { ip: IpAddr::V4(octets), port })
            },
            Some(Ip::Ipv6(v6)) => {
                let octets = [
                    (v6.first >> 56) as u8,
                    (v6.first >> 48) as u8,
                    (v6.first >> 40) as u8,
                    (v6.first >> 32) as u8,
                    (v6.first >> 24) as u8,
                    (v6.first >> 16) as u8,
                    (v6.first >> 8) as u8,
                    v6.first as u8,
                    (v6.last >> 56) as u8,
                    (v6.last >> 48) as u8,
                    (v6.last >> 40) as u8,
                    (v6.last >> 32) as u8,
                    (v6.last >> 24) as u8,
                    (v6.last >> 16) as u8,
                    (v6.last >> 8) as u8,
                    v6.last as u8,
                ];
                proof {
                    lemma_octets_of_u64(v6.first);
                    lemma_octets_of_u64(v6.last);
                    assert(octets@ =~= octets_of_u64(v6.first) + octets_of_u64(v6.last));
                }
                Some(SocketAddr { ip: IpAddr::V6(octets), port })
            },
            None => None,
        },
        None => None,
    }
}

/// The octets spell the address: read in network order they give back the number, or the two
/// numbers, that the message held.
pub proof fn law_octets_spell_the_address(ip: Ip)
    ensures
        match ip {
            Ip::Ipv4(bits) => be_value(octets_of_ip(ip)) == bits,
            Ip::Ipv6(v6) => {
                &&& be_value(octets_of_ip(ip).take(8)) == v6.first
                &&& be_value(octets_of_ip(ip).skip(8)) == v6.last
            },
        },
{
    match ip {
        Ip::Ipv4(bits) => {
            lemma_be_value_u32(bits);
        },
        Ip::Ipv6(v6) => {
            lemma_be_value_u64(v6.first);
            lemma_be_value_u64(v6.last);
            assert(octets_of_ip(ip).take(8) =~= octets_of_u64(v6.first));
            assert(octets_of_ip(ip).skip(8) =~= octets_of_u64(v6.last));
        },
    }
}

/// No two endpoints are confused: messages that mean the same socket address hold the same IP
/// address, and ports that agree in their low sixteen bits.
pub proof fn law_sock_addr_tells_endpoints_apart(a: TcpAddress, b: TcpAddress)
    requires
        sock_addr(a) is Some,
        sock_addr(a) == sock_addr(b),
    ensures
        a.ip == b.ip,
        a.port % 0x1_0000 == b.port % 0x1_0000,
{
    let (x, y) = (a.ip->0.ip->0, b.ip->0.ip->0);
    law_octets_spell_the_address(x);
    law_octets_spell_the_address(y);
    assert(octets_of_ip(x) == octets_of_ip(y));
    assert((a.port % 0x1_0000) as u16 == (b.port % 0x1_0000) as u16);
    match (x, y) {
        (Ip::Ipv4(_), Ip::Ipv6(_)) => {
            assert(octets_of_ip(x).len() == 4 && octets_of_ip(y).len() == 16);
        },
        (Ip::Ipv6(_), Ip::Ipv4(_)) => {
            assert(octets_of_ip(x).len() == 16 && octets_of_ip(y).len() == 4);
        },
        _ => {},
    }
}

/// One octet more.
proof fn lemma_be_value_push(s: Seq<u8>, o: u8)
    ensures
        be_value(s.push(o)) == be_value(s) * 256 + o,
{
    assert(s.push(o).drop_last() =~= s);
}

/// Four octets more.
proof fn lemma_be_value_append_u32(s: Seq<u8>, x: u32)
    ensures
        be_value(s + octets_of_u32(x)) == be_value(s) * 0x1_0000_0000 + x,
{
    let o = octets_of_u32(x);
    lemma_be_value_push(s, o[0]);
    lemma_be_value_push(s.push(o[0]), o[1]);
    lemma_be_value_push(s.push(o[0]).push(o[1]), o[2]);
    lemma_be_value_push(s.push(o[0]).push(o[1]).push(o[2]), o[3]);
    assert(s + o =~= s.push(o[0]).push(o[1]).push(o[2]).push(o[3]));
}

/// The four octets of a number spell it.
proof fn lemma_be_value_u32(x: u32)
    ensures
        be_value(octets_of_u32(x)) == x,
{
    lemma_be_value_append_u32(Seq::empty(), x);
    assert(Seq::<u8>::empty() + octets_of_u32(x) =~= octets_of_u32(x));
}

/// The eight octets of a number spell it.
proof fn lemma_be_value_u64(x: u64)
    ensures
        be_value(octets_of_u64(x)) == x,
{
    let hi = (x / 0x1_0000_0000) as u32;
    lemma_be_value_u32(hi);
    lemma_be_value_append_u32(octets_of_u32(hi), (x % 0x1_0000_0000) as u32);
}

} // verus!
