//! What holds of the index and of the choice of sockets as a whole.
use vstd::prelude::*;

use crate::interface::{
    lemma_scan, spec_index_entry_is_dead, spec_is_processed, spec_is_unmatched_reply, spec_key,
    spec_route, spec_routed_index, spec_settled_index, InterfaceInner, OpaqueFrameHandle,
    Processed, Route,
};
use crate::socket::{Socket, SocketHandle, SocketSet, SocketSlot, State};
use crate::tcp_socket_index::{spec_admits, spec_insert, spec_without_handle, Key, CAPACITY};
use crate::wire::{IpPayload, IpRepr, Packet, TcpControl, TcpRepr};

verus! {

/// What was inserted is found under its key, and every other key gives what it gave before. An
/// insertion that is refused changes nothing.
pub proof fn law_insert_then_get(m: Map<Key, SocketHandle>, key: Key, handle: SocketHandle)
    ensures
        spec_admits(m, key) ==> spec_insert(m, key, handle).get(key) == Some(handle),
        !spec_admits(m, key) ==> spec_insert(m, key, handle) == m,
        forall|other: Key|
            other != key ==> #[trigger] spec_insert(m, key, handle).get(other) == m.get(other),
{
}

/// What was removed is not found, and every other key gives what it gave before.
pub proof fn law_remove_then_get(m: Map<Key, SocketHandle>, key: Key)
    ensures
        m.remove(key).get(key) is None,
        forall|other: Key| other != key ==> #[trigger] m.remove(key).get(other) == m.get(other),
{
}

/// Removing a new connection undoes its insertion.
pub proof fn law_remove_undoes_insert(m: Map<Key, SocketHandle>, key: Key, handle: SocketHandle)
    requires
        !m.contains_key(key),
    ensures
        spec_insert(m, key, handle).remove(key) == m,
{
    assert(spec_insert(m, key, handle).remove(key) =~= m);
}

/// Removing a handle removes every entry that names it and no other.
pub proof fn law_remove_by_handle_drains(m: Map<Key, SocketHandle>, handle: SocketHandle)
    ensures
        forall|key: Key|
            #![trigger m.get(key)]
            m.get(key) == Some(handle) ==> spec_without_handle(m, handle).get(key) is None,
        forall|key: Key|
            #![trigger m.get(key)]
            m.get(key) != Some(handle) ==> spec_without_handle(m, handle).get(key) == m.get(key),
{
}

/// The capacity bounds the connections that are live at one time, not those that ever were: a
/// connection that came and went leaves the index as it found it, so the next one is admitted
/// under the same condition.
pub proof fn law_lifetime_leaves_no_trace(
    m: Map<Key, SocketHandle>,
    key: Key,
    handle: SocketHandle,
    next: Key,
)
    requires
        !m.contains_key(key),
        forall|other: Key| #[trigger] m.contains_key(other) ==> m[other] != handle,
    ensures
        spec_without_handle(spec_insert(m, key, handle), handle) == m,
        spec_admits(spec_without_handle(spec_insert(m, key, handle), handle), next) == spec_admits(
            m,
            next,
        ),
{
    assert(spec_without_handle(spec_insert(m, key, handle), handle) =~= m);
}

/// No operation takes the index above half of its slots.
pub proof fn law_at_most_half_full(m: Map<Key, SocketHandle>, key: Key, handle: SocketHandle)
    requires
        m.dom().finite(),
        m.len() <= CAPACITY / 2,
    ensures
        spec_insert(m, key, handle).dom().finite(),
        spec_insert(m, key, handle).len() <= CAPACITY / 2,
        m.remove(key).dom().finite(),
        m.remove(key).len() <= CAPACITY / 2,
        spec_without_handle(m, handle).dom().finite(),
        spec_without_handle(m, handle).len() <= CAPACITY / 2,
{
    let rest = spec_without_handle(m, handle).dom();
    assert(rest.subset_of(m.dom()));
    vstd::set_lib::lemma_len_subset(rest, m.dom());
}

/// At most one TCP socket of the set accepts the segment.
pub open spec fn one_accepts(slots: Seq<SocketSlot>, ip_repr: IpRepr, repr: TcpRepr) -> bool {
    forall|a: SocketHandle, b: SocketHandle|
        #[trigger] SocketSet::spec_accepting(slots, a, ip_repr, repr)
            && #[trigger] SocketSet::spec_accepting(slots, b, ip_repr, repr) ==> a == b
}

/// The index decides nothing: whatever it holds, a segment that at most one socket accepts goes
/// where the linear search alone would send it. In particular a connection that the index has
/// evicted, or never admitted, is not lost.
pub proof fn law_index_is_transparent(
    index: Map<Key, SocketHandle>,
    slots: Seq<SocketSlot>,
    ip_repr: IpRepr,
    repr: TcpRepr,
)
    requires
        slots.len() <= usize::MAX,
        one_accepts(slots, ip_repr, repr),
    ensures
        spec_route(index, slots, ip_repr, repr).spec_target() == spec_route(
            Map::empty(),
            slots,
            ip_repr,
            repr,
        ).spec_target(),
{
    lemma_scan(slots, 0, ip_repr, repr);
}

/// A TCP socket of the set that owns no connection is closed or listens, and no two own the same
/// connection.
pub open spec fn connections_distinct(slots: Seq<SocketSlot>) -> bool {
    &&& forall|a: SocketHandle|
        (#[trigger] SocketSet::spec_tcp(slots, a) matches Some(socket) && socket.tuple is None)
            ==> (SocketSet::spec_tcp(slots, a)->0.state == State::Closed || SocketSet::spec_tcp(
            slots,
            a,
        )->0.state == State::Listen)
    &&& forall|a: SocketHandle, b: SocketHandle|
        #![trigger SocketSet::spec_tcp(slots, a), SocketSet::spec_tcp(slots, b)]
        (SocketSet::spec_tcp(slots, a) matches Some(socket) && socket.tuple is Some)
            && (SocketSet::spec_tcp(slots, b) matches Some(socket) && socket.tuple is Some)
            && SocketSet::spec_tcp(slots, a)->0.tuple == SocketSet::spec_tcp(slots, b)->0.tuple
            ==> a == b
}

/// Where no two sockets own the same connection, a segment that acknowledges something, as all
/// but the first of a connection do, is accepted by at most one.
pub proof fn law_connections_do_not_compete(
    slots: Seq<SocketSlot>,
    ip_repr: IpRepr,
    repr: TcpRepr,
)
    requires
        connections_distinct(slots),
        repr.ack_number is Some,
    ensures
        one_accepts(slots, ip_repr, repr),
{
    assert forall|a: SocketHandle, b: SocketHandle|
        #[trigger] SocketSet::spec_accepting(slots, a, ip_repr, repr)
            && #[trigger] SocketSet::spec_accepting(slots, b, ip_repr, repr) implies a == b by {
        let x = SocketSet::spec_tcp(slots, a)->0;
        let y = SocketSet::spec_tcp(slots, b)->0;
        assert(x.tuple is Some && y.tuple is Some);
        assert(x.tuple->0 == y.tuple->0);
    }
}

/// The search for a batch goes where a single segment goes that the index knows nothing of.
pub proof fn law_batch_goes_where_its_first_segment_goes(
    slots: Seq<SocketSlot>,
    ip_repr: IpRepr,
    repr: TcpRepr,
)
    ensures
        spec_route(Map::empty(), slots, ip_repr, repr) == match SocketSet::spec_scan(
            slots,
            0,
            ip_repr,
            repr,
        ) {
            Some(handle) => Route::Scanned(handle, SocketSet::spec_tcp(slots, handle)->0),
            None => Route::Unmatched,
        },
{
}

/// A segment changes the index at the key of its own connection and nowhere else.
pub proof fn law_other_connections_untouched<'frame, F, Z>(
    inner: InterfaceInner,
    slots: Seq<SocketSlot>,
    handled_by_raw_socket: bool,
    ip_repr: IpRepr,
    tcp_repr: TcpRepr<'frame>,
    process: F,
    process_zero_copy: Z,
    inner_after: InterfaceInner,
    slots_after: Seq<SocketSlot>,
    reply: Option<Packet<'frame>>,
    other: Key,
) where
    F: FnOnce(SocketHandle, Socket, IpRepr, TcpRepr<'frame>) -> Processed<'frame>,
    Z: FnOnce(
        SocketHandle,
        Socket,
        IpRepr,
        TcpRepr<'frame>,
        OpaqueFrameHandle,
    ) -> Processed<'frame>,

    requires
        spec_is_processed(
            inner,
            slots,
            handled_by_raw_socket,
            ip_repr,
            tcp_repr,
            process,
            process_zero_copy,
            inner_after,
            slots_after,
            reply,
        ),
        other != spec_key(ip_repr, tcp_repr),
    ensures
        inner_after.tcp_socket_index@.get(other) == inner.tcp_socket_index@.get(other),
{
}

/// After a segment the index gives no socket for its connection but one that owns the connection
/// and is neither closed nor waiting for its time to run out. It gives none at all for a
/// connection that no socket took the segment of.
pub proof fn law_no_dead_entry_remains<'frame, F, Z>(
    inner: InterfaceInner,
    slots: Seq<SocketSlot>,
    handled_by_raw_socket: bool,
    ip_repr: IpRepr,
    tcp_repr: TcpRepr<'frame>,
    process: F,
    process_zero_copy: Z,
    inner_after: InterfaceInner,
    slots_after: Seq<SocketSlot>,
    reply: Option<Packet<'frame>>,
) where
    F: FnOnce(SocketHandle, Socket, IpRepr, TcpRepr<'frame>) -> Processed<'frame>,
    Z: FnOnce(
        SocketHandle,
        Socket,
        IpRepr,
        TcpRepr<'frame>,
        OpaqueFrameHandle,
    ) -> Processed<'frame>,

    requires
        slots.len() <= usize::MAX,
        spec_is_processed(
            inner,
            slots,
            handled_by_raw_socket,
            ip_repr,
            tcp_repr,
            process,
            process_zero_copy,
            inner_after,
            slots_after,
            reply,
        ),
    ensures
        inner_after.tcp_socket_index@.get(spec_key(ip_repr, tcp_repr)) matches Some(handle) ==> {
            &&& SocketSet::spec_tcp(slots_after, handle) is Some
            &&& !spec_index_entry_is_dead(
                SocketSet::spec_tcp(slots_after, handle)->0,
                spec_key(ip_repr, tcp_repr),
            )
        },
{
    lemma_scan(slots, 0, ip_repr, tcp_repr);
}

/// A socket that has closed, that waits for its time to run out, or that owns no connection any
/// more, holds no entry for the connection whose segment it has processed, whichever way it was
/// found.
pub proof fn law_ended_connection_is_evicted(
    index: Map<Key, SocketHandle>,
    key: Key,
    socket: Socket,
    scanned: Option<SocketHandle>,
)
    requires
        socket.state == State::Closed || socket.state == State::TimeWait || socket.tuple is None,
    ensures
        spec_settled_index(index, key, socket, scanned) == index.remove(key),
{
}

/// A socket that has processed a segment without taking up another connection than that of the
/// segment keeps a dead entry for it exactly if it has closed, waits for its time to run out, or
/// owns no connection any more.
pub proof fn law_when_an_entry_is_dead(socket: Socket, ip_repr: IpRepr, repr: TcpRepr)
    requires
        socket.tuple matches Some(tuple) ==> {
            &&& tuple.local.addr == ip_repr.spec_dst_addr()
            &&& tuple.local.port == repr.dst_port
            &&& tuple.remote.addr == ip_repr.spec_src_addr()
            &&& tuple.remote.port == repr.src_port
        },
    ensures
        spec_index_entry_is_dead(socket, spec_key(ip_repr, repr)) <==> (socket.state
            == State::Closed || socket.state == State::TimeWait || socket.tuple is None),
{
}

/// Evicting a stale entry does not change the choice: asked again, with the entry gone, the same
/// socket is chosen in the same way, and nothing more is evicted.
pub proof fn law_choice_is_stable(
    index: Map<Key, SocketHandle>,
    slots: Seq<SocketSlot>,
    ip_repr: IpRepr,
    repr: TcpRepr,
)
    ensures
        spec_route(spec_routed_index(index, slots, ip_repr, repr), slots, ip_repr, repr)
            == spec_route(index, slots, ip_repr, repr),
        spec_routed_index(
            spec_routed_index(index, slots, ip_repr, repr),
            slots,
            ip_repr,
            repr,
        ) == spec_routed_index(index, slots, ip_repr, repr),
{
    let routed = spec_routed_index(index, slots, ip_repr, repr);
    assert(spec_routed_index(routed, slots, ip_repr, repr) =~= routed);
}

/// A live connection that the linear search has found is indexed if fewer than half of the slots
/// are taken, and the next segment of it that its socket accepts is routed by the index.
pub proof fn law_live_connection_is_indexed(
    index: Map<Key, SocketHandle>,
    slots: Seq<SocketSlot>,
    ip_repr: IpRepr,
    repr: TcpRepr,
    handle: SocketHandle,
    socket: Socket,
    slots_later: Seq<SocketSlot>,
    ip_later: IpRepr,
    later: TcpRepr,
)
    requires
        spec_routed_index(index, slots, ip_repr, repr).len() < CAPACITY / 2,
        !spec_index_entry_is_dead(socket, spec_key(ip_repr, repr)),
        spec_key(ip_later, later) == spec_key(ip_repr, repr),
        SocketSet::spec_accepting(slots_later, handle, ip_later, later),
    ensures
        spec_route(
            spec_settled_index(
                spec_routed_index(index, slots, ip_repr, repr),
                spec_key(ip_repr, repr),
                socket,
                Some(handle),
            ),
            slots_later,
            ip_later,
            later,
        ) == Route::Indexed(handle, SocketSet::spec_tcp(slots_later, handle)->0),
{
}

/// A socket that is found, opens a connection, loses it and listens again leaves no entry behind:
/// the index is as it was before the connection.
pub proof fn law_relistening_leaves_no_entry(
    index: Map<Key, SocketHandle>,
    key: Key,
    handle: SocketHandle,
    opened: Socket,
    ended: Socket,
)
    requires
        !index.contains_key(key),
        spec_index_entry_is_dead(ended, key),
    ensures
        spec_settled_index(
            spec_settled_index(index, key, opened, Some(handle)),
            key,
            ended,
            None,
        ) == index,
{
    assert(spec_settled_index(
        spec_settled_index(index, key, opened, Some(handle)),
        key,
        ended,
        None,
    ) =~= index);
}

/// The answer to a segment that no socket is for goes back to where the segment came from, and is
/// not answered there in turn.
pub proof fn law_reset_is_not_answered<'a, 'b>(
    ip_repr: IpRepr,
    repr: TcpRepr,
    handled_by_raw_socket: bool,
    reply: Packet<'a>,
    handled_there: bool,
    answer: Option<Packet<'b>>,
)
    requires
        spec_is_unmatched_reply(ip_repr, repr, handled_by_raw_socket, Some(reply)),
        spec_is_unmatched_reply(
            reply.header,
            match reply.payload {
                IpPayload::Tcp(tcp) => tcp,
            },
            handled_there,
            answer,
        ),
    ensures
        reply.header.spec_src_addr() == ip_repr.spec_dst_addr(),
        reply.header.spec_dst_addr() == ip_repr.spec_src_addr(),
        answer is None,
{
}

/// No reset is sent in reply to a reset, with an unspecified address, or when a raw socket has had
/// the packet; one is sent in every other case.
pub proof fn law_when_a_reset_is_sent(
    ip_repr: IpRepr,
    repr: TcpRepr,
    handled_by_raw_socket: bool,
    reply: Option<Packet>,
)
    requires
        spec_is_unmatched_reply(ip_repr, repr, handled_by_raw_socket, reply),
    ensures
        reply is None <==> (repr.control == TcpControl::Rst
            || ip_repr.spec_dst_addr().spec_is_unspecified()
            || ip_repr.spec_src_addr().spec_is_unspecified() || handled_by_raw_socket),
        reply matches Some(packet) ==> match packet.payload {
            IpPayload::Tcp(tcp) => tcp.control == TcpControl::Rst,
        },
{
}

} // verus!
