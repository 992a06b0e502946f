//! What holds of the results of the functions on addresses, headers and sequence numbers.
use vstd::prelude::*;

use crate::wire::{
    IpAddress, IpPayload, IpProtocol, IpRepr, Ipv4Address, Ipv4Repr, Ipv6Address, Ipv6Repr, Packet,
    TcpControl, TcpRepr, TcpSeqNumber,
};

verus! {

/// An address that is made of numbers gives them back as its octets.
pub proof fn law_ipv4_address_of_octets(
    a: u8,
    b: u8,
    c: u8,
    d: u8,
    addr: Ipv4Address,
    either: IpAddress,
    octets: [u8; 4],
)
    requires
        call_ensures(Ipv4Address::new, (a, b, c, d), addr),
        call_ensures(IpAddress::v4, (a, b, c, d), either),
        call_ensures(Ipv4Address::octets, (&addr,), octets),
    ensures
        octets@ == seq![a, b, c, d],
        either == IpAddress::Ipv4(addr),
{
    law_ipv4_octets(addr, octets);
    assert(octets@ =~= seq![a, b, c, d]);
}

/// An address that is made of groups gives each back as two octets.
pub proof fn law_ipv6_address_of_groups(
    groups: [u16; 8],
    addr: Ipv6Address,
    octets: [u8; 16],
    i: int,
)
    requires
        0 <= i < 8,
        call_ensures(
            Ipv6Address::new,
            (
                groups[0],
                groups[1],
                groups[2],
                groups[3],
                groups[4],
                groups[5],
                groups[6],
                groups[7],
            ),
            addr,
        ),
        call_ensures(Ipv6Address::octets, (&addr,), octets),
    ensures
        octets@[2 * i] * 256 + octets@[2 * i + 1] == groups@[i],
{
    law_ipv6_octets(addr, octets);
    let g = groups@;
    assert(g[0] == addr.a && g[1] == addr.b && g[2] == addr.c && g[3] == addr.d);
    assert(g[4] == addr.e && g[5] == addr.f && g[6] == addr.g && g[7] == addr.h);
}

/// The octets of an IPv4 address are its four numbers, from the left.
pub proof fn law_ipv4_octets(addr: Ipv4Address, r: [u8; 4])
    requires
        call_ensures(Ipv4Address::octets, (&addr,), r),
    ensures
        r@[0] == addr.a,
        r@[1] == addr.b,
        r@[2] == addr.c,
        r@[3] == addr.d,
        addr.spec_octets() == r@,
{
}

/// Two octets after the other, the first counting 256 times as much, are the groups of an IPv6
/// address, from the left.
pub proof fn law_ipv6_octets(addr: Ipv6Address, r: [u8; 16])
    requires
        call_ensures(Ipv6Address::octets, (&addr,), r),
    ensures
        r@[0] * 256 + r@[1] == addr.a,
        r@[2] * 256 + r@[3] == addr.b,
        r@[4] * 256 + r@[5] == addr.c,
        r@[6] * 256 + r@[7] == addr.d,
        r@[8] * 256 + r@[9] == addr.e,
        r@[10] * 256 + r@[11] == addr.f,
        r@[12] * 256 + r@[13] == addr.g,
        r@[14] * 256 + r@[15] == addr.h,
        addr.spec_octets() == r@,
{
    let o = addr.spec_octets();
    assert(r@ == o);
    assert(o[0] == (addr.a / 256) as u8 && o[1] == (addr.a % 256) as u8);
    assert(o[2] == (addr.b / 256) as u8 && o[3] == (addr.b % 256) as u8);
    assert(o[4] == (addr.c / 256) as u8 && o[5] == (addr.c % 256) as u8);
    assert(o[6] == (addr.d / 256) as u8 && o[7] == (addr.d % 256) as u8);
    assert(o[8] == (addr.e / 256) as u8 && o[9] == (addr.e % 256) as u8);
    assert(o[10] == (addr.f / 256) as u8 && o[11] == (addr.f % 256) as u8);
    assert(o[12] == (addr.g / 256) as u8 && o[13] == (addr.g % 256) as u8);
    assert(o[14] == (addr.h / 256) as u8 && o[15] == (addr.h % 256) as u8);
}

/// Every number of the address is zero.
pub open spec fn all_zero(addr: IpAddress) -> bool {
    match addr {
        IpAddress::Ipv4(v4) => v4.a == 0 && v4.b == 0 && v4.c == 0 && v4.d == 0,
        IpAddress::Ipv6(v6) => v6.a == 0 && v6.b == 0 && v6.c == 0 && v6.d == 0 && v6.e == 0
            && v6.f == 0 && v6.g == 0 && v6.h == 0,
    }
}

/// An address is unspecified exactly if every number of it is zero.
pub proof fn law_unspecified_is_all_zero(addr: IpAddress, r: bool)
    requires
        call_ensures(IpAddress::is_unspecified, (&addr,), r),
    ensures
        r <==> all_zero(addr),
        addr.spec_is_unspecified() <==> all_zero(addr),
{
}

/// A header gives the two addresses that stand in it.
pub proof fn law_header_addresses(v4: Ipv4Repr, v6: Ipv6Repr)
    ensures
        forall|r: IpAddress| #[trigger]
            call_ensures(IpRepr::src_addr, (&IpRepr::Ipv4(v4),), r) ==> r == IpAddress::Ipv4(
                v4.src_addr,
            ),
        forall|r: IpAddress| #[trigger]
            call_ensures(IpRepr::dst_addr, (&IpRepr::Ipv4(v4),), r) ==> r == IpAddress::Ipv4(
                v4.dst_addr,
            ),
        forall|r: IpAddress| #[trigger]
            call_ensures(IpRepr::src_addr, (&IpRepr::Ipv6(v6),), r) ==> r == IpAddress::Ipv6(
                v6.src_addr,
            ),
        forall|r: IpAddress| #[trigger]
            call_ensures(IpRepr::dst_addr, (&IpRepr::Ipv6(v6),), r) ==> r == IpAddress::Ipv6(
                v6.dst_addr,
            ),
        IpRepr::Ipv4(v4).spec_src_addr() == IpAddress::Ipv4(v4.src_addr),
        IpRepr::Ipv4(v4).spec_dst_addr() == IpAddress::Ipv4(v4.dst_addr),
        IpRepr::Ipv6(v6).spec_src_addr() == IpAddress::Ipv6(v6.src_addr),
        IpRepr::Ipv6(v6).spec_dst_addr() == IpAddress::Ipv6(v6.dst_addr),
{
}

/// The header of a reply has the addresses of the header it answers the other way round, is of
/// the same version, and announces TCP, the given length and the hop limit of replies.
pub proof fn law_reply_header(header: IpRepr, payload_len: usize, r: IpRepr)
    requires
        call_ensures(IpRepr::tcp_reply, (&header, payload_len), r),
    ensures
        header.spec_tcp_reply(payload_len) == r,
        match (header, r) {
            (IpRepr::Ipv4(h), IpRepr::Ipv4(r)) => {
                &&& r.src_addr == h.dst_addr
                &&& r.dst_addr == h.src_addr
                &&& r.next_header == IpProtocol::Tcp
                &&& r.payload_len == payload_len
                &&& r.hop_limit == 64
            },
            (IpRepr::Ipv6(h), IpRepr::Ipv6(r)) => {
                &&& r.src_addr == h.dst_addr
                &&& r.dst_addr == h.src_addr
                &&& r.next_header == IpProtocol::Tcp
                &&& r.payload_len == payload_len
                &&& r.hop_limit == 64
            },
            _ => false,
        },
{
}

/// A sequence number is advanced by a count modulo two to the power of 32.
pub proof fn law_advance_is_modular(n: TcpSeqNumber, count: usize, r: TcpSeqNumber)
    requires
        count <= i32::MAX,
        call_ensures(TcpSeqNumber::advance, (n, count), r),
    ensures
        (r.0 - n.0 - count) % 0x1_0000_0000 == 0,
        n.spec_advance(count as int) == r,
{
}

/// Advancing twice advances by the sum.
pub proof fn law_advance_adds(
    n: TcpSeqNumber,
    a: usize,
    b: usize,
    once: TcpSeqNumber,
    twice: TcpSeqNumber,
    sum: TcpSeqNumber,
)
    requires
        a + b <= i32::MAX,
        call_ensures(TcpSeqNumber::advance, (n, a), once),
        call_ensures(TcpSeqNumber::advance, (once, b), twice),
        call_ensures(TcpSeqNumber::advance, (n, (a + b) as usize), sum),
    ensures
        twice == sum,
{
}

/// The flags that open and end a connection take up one sequence number each, and no other does.
pub proof fn law_control_len(control: TcpControl, r: usize)
    requires
        call_ensures(TcpControl::len, (control,), r),
    ensures
        r <= 1,
        r == 1 <==> (control == TcpControl::Syn || control == TcpControl::Fin),
{
}

/// A packet holds what it was made of.
pub proof fn law_packet_parts<'p>(header: IpRepr, payload: IpPayload<'p>, r: Packet<'p>)
    requires
        call_ensures(Packet::new, (header, payload), r),
    ensures
        r.header == header,
        r.payload == payload,
{
}

/// A segment takes up a sequence number for each byte, and one for the flag that opens or ends a
/// connection.
pub proof fn law_segment_len(repr: TcpRepr, r: usize)
    requires
        call_ensures(TcpRepr::segment_len, (&repr,), r),
    ensures
        repr.spec_segment_len() == r,
        repr.control == TcpControl::Syn || repr.control == TcpControl::Fin ==> r
            == repr.payload@.len() + 1,
        repr.control != TcpControl::Syn && repr.control != TcpControl::Fin ==> r
            == repr.payload@.len(),
{
}

} // verus!
