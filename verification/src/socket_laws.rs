//! What holds of the results of the functions on sockets and socket sets.
use vstd::prelude::*;

use crate::interface::lemma_scan;
use crate::socket::{Socket, SocketHandle, SocketSet, SocketSlot, State, Tuple};
use crate::wire::{IpEndpoint, IpProtocol, IpRepr, TcpControl, TcpRepr};

verus! {

/// The segment comes from the remote end of the connection and goes to the local end.
pub open spec fn belongs_to(ip_repr: IpRepr, repr: TcpRepr, tuple: Tuple) -> bool {
    &&& tuple.local.addr == ip_repr.spec_dst_addr()
    &&& tuple.local.port == repr.dst_port
    &&& tuple.remote.addr == ip_repr.spec_src_addr()
    &&& tuple.remote.port == repr.src_port
}

/// A closed socket accepts nothing.
pub proof fn law_closed_socket_accepts_nothing(
    socket: Socket,
    ip_repr: IpRepr,
    repr: TcpRepr,
    r: bool,
)
    requires
        socket.state == State::Closed,
        call_ensures(Socket::accepts, (&socket, &ip_repr, &repr), r),
    ensures
        !r,
        !socket.spec_accepts(ip_repr, repr),
{
}

/// A socket that owns a connection, in any state but the closed and the listening one, accepts the
/// segments of that connection and no other.
pub proof fn law_connected_socket_accepts_its_connection(
    socket: Socket,
    tuple: Tuple,
    ip_repr: IpRepr,
    repr: TcpRepr,
    r: bool,
)
    requires
        socket.tuple == Some(tuple),
        socket.state != State::Closed,
        socket.state != State::Listen,
        call_ensures(Socket::accepts, (&socket, &ip_repr, &repr), r),
    ensures
        r <==> belongs_to(ip_repr, repr, tuple),
        socket.spec_accepts(ip_repr, repr) <==> belongs_to(ip_repr, repr, tuple),
{
}

/// A listening socket accepts nothing that acknowledges something. What does not, it accepts if
/// it belongs to the connection that the socket owns, or, where it owns none, if it goes to the
/// port it listens on, which is not zero, and to the address, where it listens on one.
pub proof fn law_listening_socket_accepts_openings(
    socket: Socket,
    ip_repr: IpRepr,
    repr: TcpRepr,
    r: bool,
)
    requires
        socket.state == State::Listen,
        call_ensures(Socket::accepts, (&socket, &ip_repr, &repr), r),
    ensures
        socket.spec_accepts(ip_repr, repr) == r,
        repr.ack_number is Some ==> !r,
        repr.ack_number is None && socket.tuple is Some ==> (r <==> belongs_to(
            ip_repr,
            repr,
            socket.tuple->0,
        )),
        repr.ack_number is None && socket.tuple is None && repr.dst_port == 0 ==> !r,
        repr.ack_number is None && socket.tuple is None && repr.dst_port
            != socket.listen_endpoint.port ==> !r,
        repr.ack_number is None && socket.tuple is None && repr.dst_port != 0 && repr.dst_port
            == socket.listen_endpoint.port && socket.listen_endpoint.addr is None ==> r,
        repr.ack_number is None && socket.tuple is None && repr.dst_port != 0 && repr.dst_port
            == socket.listen_endpoint.port && socket.listen_endpoint.addr is Some ==> (r
            <==> ip_repr.spec_dst_addr() == socket.listen_endpoint.addr->0),
{
}

/// A socket that owns no connection, in any state but the closed and the listening one, accepts
/// what goes to the port it was set to listen on, which is not zero, and to the address, where it
/// was set to one.
pub proof fn law_unconnected_socket_accepts_at_its_endpoint(
    socket: Socket,
    ip_repr: IpRepr,
    repr: TcpRepr,
    r: bool,
)
    requires
        socket.state != State::Closed,
        socket.state != State::Listen,
        socket.tuple is None,
        call_ensures(Socket::accepts, (&socket, &ip_repr, &repr), r),
    ensures
        socket.spec_accepts(ip_repr, repr) == r,
        r <==> (repr.dst_port != 0 && repr.dst_port == socket.listen_endpoint.port && (
        socket.listen_endpoint.addr is None || socket.listen_endpoint.addr == Some(
            ip_repr.spec_dst_addr(),
        ))),
{
}

/// The endpoints of a socket are the two ends of the connection it owns, and the state is its own.
pub proof fn law_endpoints(
    socket: Socket,
    state: State,
    local: Option<IpEndpoint>,
    remote: Option<IpEndpoint>,
)
    requires
        call_ensures(Socket::state, (&socket,), state),
        call_ensures(Socket::local_endpoint, (&socket,), local),
        call_ensures(Socket::remote_endpoint, (&socket,), remote),
    ensures
        state == socket.state,
        socket.tuple is None ==> local is None && remote is None,
        socket.tuple matches Some(tuple) ==> local == Some(tuple.local) && remote == Some(
            tuple.remote,
        ),
{
}

/// A handle that is made of a number names the slot of that number.
pub proof fn law_handle_of_index(
    sockets: SocketSet,
    i: usize,
    handle: SocketHandle,
    r: Option<Socket>,
)
    requires
        i < sockets.slots@.len(),
        call_ensures(SocketHandle::from_index, (i,), handle),
        call_ensures(SocketSet::tcp, (&sockets, handle), r),
    ensures
        r is Some <==> sockets.slots@[i as int] is Tcp,
        r is Some ==> r->0 == sockets.slots@[i as int]->Tcp_0,
{
}

/// A handle gives the TCP socket in the slot of that number, whichever it is, and nothing if none
/// stands there.
pub proof fn law_handle_is_a_slot_number(
    sockets: SocketSet,
    handle: SocketHandle,
    r: Option<Socket>,
)
    requires
        call_ensures(SocketSet::tcp, (&sockets, handle), r),
    ensures
        handle.index >= sockets.slots@.len() ==> r is None,
        handle.index < sockets.slots@.len() ==> match sockets.slots@[handle.index as int] {
            SocketSlot::Tcp(socket) => r == Some(socket),
            SocketSlot::Vacant => r is None,
            SocketSlot::Other => r is None,
        },
        SocketSet::spec_tcp(sockets.slots@, handle) == r,
{
}

/// A TCP socket that accepts the segment stands in slot `i`.
pub open spec fn takes(slots: Seq<SocketSlot>, i: int, ip_repr: IpRepr, repr: TcpRepr) -> bool {
    match slots[i] {
        SocketSlot::Tcp(socket) => socket.spec_accepts(ip_repr, repr),
        SocketSlot::Vacant => false,
        SocketSlot::Other => false,
    }
}

/// Slot `i` is the first of those that hold a TCP socket that accepts the segment.
pub open spec fn takes_first(
    slots: Seq<SocketSlot>,
    i: int,
    ip_repr: IpRepr,
    repr: TcpRepr,
) -> bool {
    &&& 0 <= i < slots.len()
    &&& takes(slots, i, ip_repr, repr)
    &&& forall|j: int| 0 <= j < i ==> !#[trigger] takes(slots, j, ip_repr, repr)
}

/// No slot holds a TCP socket that accepts the segment.
pub open spec fn none_takes(slots: Seq<SocketSlot>, ip_repr: IpRepr, repr: TcpRepr) -> bool {
    forall|j: int| 0 <= j < slots.len() ==> !#[trigger] takes(slots, j, ip_repr, repr)
}

/// The linear search gives the first of all slots that hold a TCP socket that accepts the segment,
/// wherever in the set it is, and nothing only if there is none.
pub proof fn law_search_covers_every_slot(
    slots: Seq<SocketSlot>,
    i: int,
    ip_repr: IpRepr,
    repr: TcpRepr,
)
    requires
        slots.len() <= usize::MAX,
    ensures
        takes_first(slots, i, ip_repr, repr) ==> SocketSet::spec_scan(slots, 0, ip_repr, repr)
            == Some(SocketHandle { index: i as usize }),
        none_takes(slots, ip_repr, repr) ==> SocketSet::spec_scan(slots, 0, ip_repr, repr) is None,
        forall|handle: SocketHandle| #[trigger]
            SocketSet::spec_accepting(slots, handle, ip_repr, repr) <==> (handle.index < slots.len()
                && takes(slots, handle.index as int, ip_repr, repr)),
{
    lemma_scan(slots, 0, ip_repr, repr);
    assert forall|handle: SocketHandle| #[trigger]
        SocketSet::spec_accepting(slots, handle, ip_repr, repr) <==> (handle.index < slots.len()
            && takes(slots, handle.index as int, ip_repr, repr)) by {
    }
    if takes_first(slots, i, ip_repr, repr) {
        let here = SocketHandle { index: i as usize };
        assert(SocketSet::spec_accepting(slots, here, ip_repr, repr));
        let found = SocketSet::spec_scan(slots, 0, ip_repr, repr)->0;
        assert(takes(slots, found.index as int, ip_repr, repr));
    }
    if none_takes(slots, ip_repr, repr) && SocketSet::spec_scan(slots, 0, ip_repr, repr) is Some {
        let found = SocketSet::spec_scan(slots, 0, ip_repr, repr)->0;
        assert(takes(slots, found.index as int, ip_repr, repr));
    }
}

/// A search of a socket set gives the first of all slots that hold a TCP socket that accepts the
/// segment, and nothing only if there is none.
pub proof fn law_scan(
    sockets: SocketSet,
    i: int,
    ip_repr: IpRepr,
    repr: TcpRepr,
    r: Option<SocketHandle>,
)
    requires
        call_ensures(SocketSet::scan, (&sockets, &ip_repr, &repr), r),
    ensures
        takes_first(sockets.slots@, i, ip_repr, repr) ==> r == Some(
            SocketHandle { index: i as usize },
        ),
        none_takes(sockets.slots@, ip_repr, repr) ==> r is None,
{
    assert(sockets.slots.len() == sockets.slots@.len());
    law_search_covers_every_slot(sockets.slots@, i, ip_repr, repr);
}

/// A socket that was put under a handle is found under it, and under every other handle is found
/// what was there before.
pub proof fn law_set_tcp(
    sockets: &mut SocketSet,
    handle: SocketHandle,
    socket: Socket,
    got: Option<Socket>,
    other: SocketHandle,
    before: Option<Socket>,
    after: Option<Socket>,
)
    requires
        handle.index < old(sockets).slots@.len(),
        call_ensures(SocketSet::tcp, (&*old(sockets), other), before),
        call_ensures(SocketSet::set_tcp, (sockets, handle, socket), ()),
        call_ensures(SocketSet::tcp, (&*final(sockets), handle), got),
        call_ensures(SocketSet::tcp, (&*final(sockets), other), after),
    ensures
        got == Some(socket),
        other != handle ==> after == before,
        final(sockets).slots@.len() == old(sockets).slots@.len(),
{
}

/// A reset that answers a segment.
pub open spec fn is_reset_of(
    ip_repr: IpRepr,
    repr: TcpRepr,
    ip_reply: IpRepr,
    reply: TcpRepr,
) -> bool {
    // Between the same two ends, the other way.
    &&& ip_reply.spec_src_addr() == ip_repr.spec_dst_addr()
    &&& ip_reply.spec_dst_addr() == ip_repr.spec_src_addr()
    &&& reply.src_port == repr.dst_port
    &&& reply.dst_port == repr.src_port
    // A bare header with the reset flag.
    &&& reply.control == TcpControl::Rst
    &&& reply.payload@.len() == 0
    &&& reply.window_len == 0
    &&& reply.window_scale is None
    &&& reply.max_seg_size is None
    &&& reply.timestamp is None
    &&& !reply.sack_permitted
    &&& reply.sack_ranges@.len() == 3
    &&& forall|i: int| 0 <= i < 3 ==> #[trigger] reply.sack_ranges@[i] is None
    // Numbered by the acknowledgement, if there is one.
    &&& repr.ack_number is Some ==> reply.seq_number == repr.ack_number->0 && reply.ack_number is None
    &&& repr.ack_number is None ==> reply.seq_number.0 == 0
    // An opening segment without one is acknowledged in full.
    &&& repr.ack_number is None && repr.control == TcpControl::Syn ==> reply.ack_number is Some && (
    (reply.ack_number->0).0 - repr.seq_number.0 - repr.payload@.len() - 1) % 0x1_0000_0000 == 0
    &&& repr.ack_number is None && repr.control != TcpControl::Syn ==> reply.ack_number is None
}

/// The reset that answers a segment goes back between the same two ends, carries nothing, and is
/// numbered by what the segment acknowledges, or acknowledges the segment if that only opens a
/// connection.
pub proof fn law_reset_answers_the_segment(
    ip_repr: IpRepr,
    repr: TcpRepr,
    r: (IpRepr, TcpRepr<'static>),
)
    requires
        repr.control != TcpControl::Rst,
        repr.control == TcpControl::Syn && repr.ack_number is None ==> repr.payload@.len()
            < i32::MAX,
        call_ensures(Socket::rst_reply, (&ip_repr, &repr), r),
    ensures
        is_reset_of(ip_repr, repr, r.0, r.1),
        Socket::spec_rst_fits(repr),
{
    law_is_reset(ip_repr, repr, r.0, r.1);
}

/// What the library takes for the reset that answers a segment is one.
pub proof fn law_is_reset(ip_repr: IpRepr, repr: TcpRepr, ip_reply: IpRepr, reply: TcpRepr)
    requires
        Socket::spec_is_rst_reply(ip_repr, repr, ip_reply, reply),
        repr.control == TcpControl::Syn && repr.ack_number is None ==> repr.payload@.len()
            < i32::MAX,
    ensures
        is_reset_of(ip_repr, repr, ip_reply, reply),
        match (ip_repr, ip_reply) {
            (IpRepr::Ipv4(_), IpRepr::Ipv4(h)) => h.payload_len == 20 && h.hop_limit == 64
                && h.next_header == IpProtocol::Tcp,
            (IpRepr::Ipv6(_), IpRepr::Ipv6(h)) => h.payload_len == 20 && h.hop_limit == 64
                && h.next_header == IpProtocol::Tcp,
            _ => false,
        },
{
}

/// A socket that owns the sender's end of the connection, and is neither closed nor listening,
/// accepts the reset.
pub proof fn law_reset_reaches_the_sender(
    ip_repr: IpRepr,
    repr: TcpRepr,
    r: (IpRepr, TcpRepr<'static>),
    sender: Socket,
    accepted: bool,
)
    requires
        repr.control != TcpControl::Rst,
        repr.control == TcpControl::Syn && repr.ack_number is None ==> repr.payload@.len()
            < i32::MAX,
        call_ensures(Socket::rst_reply, (&ip_repr, &repr), r),
        sender.state != State::Closed,
        sender.state != State::Listen,
        sender.tuple == Some(
            Tuple {
                local: IpEndpoint { addr: ip_repr.spec_src_addr(), port: repr.src_port },
                remote: IpEndpoint { addr: ip_repr.spec_dst_addr(), port: repr.dst_port },
            },
        ),
        call_ensures(Socket::accepts, (&sender, &r.0, &r.1), accepted),
    ensures
        accepted,
{
    law_reset_answers_the_segment(ip_repr, repr, r);
}

} // verus!
