//! Addresses, headers and packets, as the plain values that the demultiplexer reads and writes.
use vstd::prelude::*;

verus! {

/// Length of a TCP header that carries no options.
pub const TCP_HEADER_LEN: usize = 20;

/// Hop limit of the packets that are sent in reply.
pub const REPLY_HOP_LIMIT: u8 = 64;

/// An IPv4 address, `a.b.c.d`.
#[derive(Clone, Copy, Debug, PartialEq, Eq, Structural)]
pub struct Ipv4Address {
    pub a: u8,
    pub b: u8,
    pub c: u8,
    pub d: u8,
}

impl Ipv4Address {
    /// The octets in network order.
    pub open spec fn spec_octets(self) -> Seq<u8> {
        seq![self.a, self.b, self.c, self.d]
    }

    pub fn new(a: u8, b: u8, c: u8, d: u8) -> (r: Self)
        ensures
            r == (Ipv4Address { a, b, c, d }),
    {
        Ipv4Address { a, b, c, d }
    }

    pub fn octets(&self) -> (r: [u8; 4])
        ensures
            r@ == self.spec_octets(),
    {
        [self.a, self.b, self.c, self.d]
    }
}

/// An IPv6 address, `a:b:c:d:e:f:g:h`.
#[derive(Clone, Copy, Debug, PartialEq, Eq, Structural)]
pub struct Ipv6Address {
    pub a: u16,
    pub b: u16,
    pub c: u16,
    pub d: u16,
    pub e: u16,
    pub f: u16,
    pub g: u16,
    pub h: u16,
}

impl Ipv6Address {
    /// The eight 16-bit groups, from the left.
    pub open spec fn spec_groups(self) -> Seq<u16> {
        seq![self.a, self.b, self.c, self.d, self.e, self.f, self.g, self.h]
    }

    /// The octets in network order: each group gives its high octet, then its low one.
    pub open spec fn spec_octets(self) -> Seq<u8> {
        Seq::new(
            16,
            |i: int|
                if i % 2 == 0 {
                    (self.spec_groups()[i / 2] / 256) as u8
                } else {
                    (self.spec_groups()[i / 2] % 256) as u8
                },
        )
    }

    pub fn new(a: u16, b: u16, c: u16, d: u16, e: u16, f: u16, g: u16, h: u16) -> (r: Self)
        ensures
            r == (Ipv6Address { a, b, c, d, e, f, g, h }),
    {
        Ipv6Address { a, b, c, d, e, f, g, h }
    }

    pub fn octets(&self) -> (r: [u8; 16])
        ensures
            r@ == self.spec_octets(),
    {
        let r: [u8; 16] = [
            (self.a / 256) as u8,
            (self.a % 256) as u8,
            (self.b / 256) as u8,
            (self.b % 256) as u8,
            (self.c / 256) as u8,
            (self.c % 256) as u8,
            (self.d / 256) as u8,
            (self.d % 256) as u8,
            (self.e / 256) as u8,
            (self.e % 256) as u8,
            (self.f / 256) as u8,
            (self.f % 256) as u8,
            (self.g / 256) as u8,
            (self.g % 256) as u8,
            (self.h / 256) as u8,
            (self.h % 256) as u8,
        ];
        assert(r@ =~= self.spec_octets());
        r
    }
}

/// An IP address of either version.
#[derive(Clone, Copy, Debug, PartialEq, Eq, Structural)]
pub enum IpAddress {
    Ipv4(Ipv4Address),
    Ipv6(Ipv6Address),
}

impl IpAddress {
    /// Whether every octet is zero: `0.0.0.0` or `::`.
    pub open spec fn spec_is_unspecified(self) -> bool {
        match self {
            IpAddress::Ipv4(addr) => addr == (Ipv4Address { a: 0, b: 0, c: 0, d: 0 }),
            IpAddress::Ipv6(addr) => addr == (Ipv6Address {
                a: 0,
                b: 0,
                c: 0,
                d: 0,
                e: 0,
                f: 0,
                g: 0,
                h: 0,
            }),
        }
    }

    pub fn v4(a: u8, b: u8, c: u8, d: u8) -> (r: Self)
        ensures
            r == IpAddress::Ipv4(Ipv4Address { a, b, c, d }),
    {
        IpAddress::Ipv4(Ipv4Address::new(a, b, c, d))
    }

    pub fn is_unspecified(&self) -> (r: bool)
        ensures
            r == self.spec_is_unspecified(),
    {
        match self {
            IpAddress::Ipv4(addr) => *addr == Ipv4Address::new(0, 0, 0, 0),
            IpAddress::Ipv6(addr) => *addr == Ipv6Address::new(0, 0, 0, 0, 0, 0, 0, 0),
        }
    }
}

/// An address and a port.
#[derive(Clone, Copy, Debug, PartialEq, Eq, Structural)]
pub struct IpEndpoint {
    pub addr: IpAddress,
    pub port: u16,
}

/// What a listening socket waits on: one address or any, and a port.
#[derive(Clone, Copy, Debug, PartialEq, Eq)]
pub struct IpListenEndpoint {
    pub addr: Option<IpAddress>,
    pub port: u16,
}

/// The protocol that an IP header announces.
#[derive(Clone, Copy, Debug, PartialEq, Eq, Structural)]
pub enum IpProtocol {
    Icmp,
    Tcp,
    Udp,
    Icmpv6,
    Unknown(u8),
}

/// An IPv4 header.
#[derive(Clone, Copy, Debug, PartialEq, Eq, Structural)]
pub struct Ipv4Repr {
    pub src_addr: Ipv4Address,
    pub dst_addr: Ipv4Address,
    pub next_header: IpProtocol,
    pub payload_len: usize,
    pub hop_limit: u8,
}

/// An IPv6 header.
#[derive(Clone, Copy, Debug, PartialEq, Eq, Structural)]
pub struct Ipv6Repr {
    pub src_addr: Ipv6Address,
    pub dst_addr: Ipv6Address,
    pub next_header: IpProtocol,
    pub payload_len: usize,
    pub hop_limit: u8,
}

/// An IP header of either version; both addresses are of that version.
#[derive(Clone, Copy, Debug, PartialEq, Eq, Structural)]
pub enum IpRepr {
    Ipv4(Ipv4Repr),
    Ipv6(Ipv6Repr),
}

impl IpRepr {
    pub open spec fn spec_src_addr(self) -> IpAddress {
        match self {
            IpRepr::Ipv4(repr) => IpAddress::Ipv4(repr.src_addr),
            IpRepr::Ipv6(repr) => IpAddress::Ipv6(repr.src_addr),
        }
    }

    pub open spec fn spec_dst_addr(self) -> IpAddress {
        match self {
            IpRepr::Ipv4(repr) => IpAddress::Ipv4(repr.dst_addr),
            IpRepr::Ipv6(repr) => IpAddress::Ipv6(repr.dst_addr),
        }
    }

    /// The header of a TCP reply of `payload_len` bytes: back to where `self` came from.
    pub open spec fn spec_tcp_reply(self, payload_len: usize) -> IpRepr {
        match self {
            IpRepr::Ipv4(repr) => IpRepr::Ipv4(
                Ipv4Repr {
                    src_addr: repr.dst_addr,
                    dst_addr: repr.src_addr,
                    next_header: IpProtocol::Tcp,
                    payload_len,
                    hop_limit: REPLY_HOP_LIMIT,
                },
            ),
            IpRepr::Ipv6(repr) => IpRepr::Ipv6(
                Ipv6Repr {
                    src_addr: repr.dst_addr,
                    dst_addr: repr.src_addr,
                    next_header: IpProtocol::Tcp,
                    payload_len,
                    hop_limit: REPLY_HOP_LIMIT,
                },
            ),
        }
    }

    pub fn src_addr(&self) -> (r: IpAddress)
        ensures
            r == self.spec_src_addr(),
    {
        match self {
            IpRepr::Ipv4(repr) => IpAddress::Ipv4(repr.src_addr),
            IpRepr::Ipv6(repr) => IpAddress::Ipv6(repr.src_addr),
        }
    }

    pub fn dst_addr(&self) -> (r: IpAddress)
        ensures
            r == self.spec_dst_addr(),
    {
        match self {
            IpRepr::Ipv4(repr) => IpAddress::Ipv4(repr.dst_addr),
            IpRepr::Ipv6(repr) => IpAddress::Ipv6(repr.dst_addr),
        }
    }

    pub fn tcp_reply(&self, payload_len: usize) -> (r: IpRepr)
        ensures
            r == self.spec_tcp_reply(payload_len),
    {
        match self {
            IpRepr::Ipv4(repr) => IpRepr::Ipv4(
                Ipv4Repr {
                    src_addr: repr.dst_addr,
                    dst_addr: repr.src_addr,
                    next_header: IpProtocol::Tcp,
                    payload_len,
                    hop_limit: REPLY_HOP_LIMIT,
                },
            ),
            IpRepr::Ipv6(repr) => IpRepr::Ipv6(
                Ipv6Repr {
                    src_addr: repr.dst_addr,
                    dst_addr: repr.src_addr,
                    next_header: IpProtocol::Tcp,
                    payload_len,
                    hop_limit: REPLY_HOP_LIMIT,
                },
            ),
        }
    }
}

/// A TCP sequence number, modulo two to the power of 32.
#[derive(Clone, Copy, Debug, PartialEq, Eq, Structural)]
pub struct TcpSeqNumber(pub i32);

impl TcpSeqNumber {
    /// The number `count` places on, wrapping round at the top.
    pub open spec fn spec_advance(self, count: int) -> TcpSeqNumber {
        TcpSeqNumber(
            if self.0 + count > i32::MAX {
                (self.0 + count - 0x1_0000_0000) as i32
            } else {
                (self.0 + count) as i32
            },
        )
    }

    pub fn advance(self, count: usize) -> (r: TcpSeqNumber)
        requires
            count <= i32::MAX,
        ensures
            r == self.spec_advance(count as int),
    {
        TcpSeqNumber(self.0.wrapping_add(count as i32))
    }
}

/// The control flag of a segment.
#[derive(Clone, Copy, Debug, PartialEq, Eq, Structural)]
pub enum TcpControl {
    /// No flag but perhaps ACK.
    Plain,
    Psh,
    Syn,
    Fin,
    Rst,
}

impl TcpControl {
    /// How many sequence numbers the flag takes up.
    pub open spec fn spec_len(self) -> int {
        match self {
            TcpControl::Syn | TcpControl::Fin => 1,
            TcpControl::Plain | TcpControl::Psh | TcpControl::Rst => 0,
        }
    }

    pub fn len(self) -> (r: usize)
        ensures
            r == self.spec_len(),
    {
        match self {
            TcpControl::Syn | TcpControl::Fin => 1,
            TcpControl::Plain | TcpControl::Psh | TcpControl::Rst => 0,
        }
    }
}

/// The timestamp option of a segment.
#[derive(Clone, Copy, Debug, PartialEq, Eq, Structural)]
pub struct TcpTimestampRepr {
    pub tsval: u32,
    pub tsecr: u32,
}

/// A TCP segment.
#[derive(Clone, Copy, Debug, PartialEq, Eq)]
pub struct TcpRepr<'a> {
    pub src_port: u16,
    pub dst_port: u16,
    pub control: TcpControl,
    pub seq_number: TcpSeqNumber,
    pub ack_number: Option<TcpSeqNumber>,
    pub window_len: u16,
    pub window_scale: Option<u8>,
    pub max_seg_size: Option<u16>,
    pub sack_permitted: bool,
    pub sack_ranges: [Option<(u32, u32)>; 3],
    pub timestamp: Option<TcpTimestampRepr>,
    pub payload: &'a [u8],
}

impl<'a> TcpRepr<'a> {
    /// How many sequence numbers the segment takes up.
    pub open spec fn spec_segment_len(self) -> int {
        self.payload@.len() + self.control.spec_len()
    }

    pub fn segment_len(&self) -> (r: usize)
        requires
            self.spec_segment_len() <= usize::MAX,
        ensures
            r == self.spec_segment_len(),
    {
        self.payload.len() + self.control.len()
    }
}

/// What an IP packet carries.
#[derive(Clone, Copy, Debug, PartialEq, Eq)]
pub enum IpPayload<'p> {
    Tcp(TcpRepr<'p>),
}

/// An IP packet to be sent.
#[derive(Clone, Copy, Debug, PartialEq, Eq)]
pub struct Packet<'p> {
    pub header: IpRepr,
    pub payload: IpPayload<'p>,
}

impl<'p> Packet<'p> {
    pub fn new(header: IpRepr, payload: IpPayload<'p>) -> (r: Self)
        ensures
            r == (Packet { header, payload }),
    {
        Packet { header, payload }
    }
}

} // verus!
