//! What holds of a segment that comes in: which socket gets it, what becomes of the index, and
//! what is sent in reply.
use vstd::prelude::*;

use crate::interface::{
    index_entry_is_dead, spec_is_processed, spec_is_unmatched_reply, spec_resets,
    spec_settled_index, spec_stepped, unmatched_reply, ChecksumCapabilities, InterfaceInner,
    Malformed, OpaqueFrameHandle, Processed, Route,
};
use crate::socket::{Socket, SocketHandle, SocketSet, SocketSlot, State};
use crate::socket_laws::{
    belongs_to, is_reset_of, law_is_reset, law_search_covers_every_slot, none_takes, takes,
    takes_first,
};
use crate::tcp_socket_index::Key;
use crate::wire::{IpAddress, IpPayload, IpRepr, Packet, TcpControl, TcpRepr};
use crate::wire_laws::all_zero;

verus! {

/// The four values of a segment, seen from this end.
pub open spec fn key_of(ip_repr: IpRepr, repr: TcpRepr) -> Key {
    Key {
        local_addr: ip_repr.spec_dst_addr(),
        local_port: repr.dst_port,
        remote_addr: ip_repr.spec_src_addr(),
        remote_port: repr.src_port,
    }
}

/// The socket owns the connection of the segment, and is neither closed nor waiting for its time to
/// run out.
pub open spec fn keeps_connection(socket: Socket, ip_repr: IpRepr, repr: TcpRepr) -> bool {
    &&& socket.state != State::Closed
    &&& socket.state != State::TimeWait
    &&& socket.tuple is Some
    &&& belongs_to(ip_repr, repr, socket.tuple->0)
}

/// The index has an entry for the segment, and a TCP socket that accepts it stands in the slot.
pub open spec fn index_gives(
    index: Map<Key, SocketHandle>,
    slots: Seq<SocketSlot>,
    ip_repr: IpRepr,
    repr: TcpRepr,
    handle: SocketHandle,
) -> bool {
    &&& index.dom().contains(key_of(ip_repr, repr))
    &&& index[key_of(ip_repr, repr)] == handle
    &&& handle.index < slots.len()
    &&& takes(slots, handle.index as int, ip_repr, repr)
}

/// The two maps agree but perhaps at `key`.
pub open spec fn same_elsewhere(
    before: Map<Key, SocketHandle>,
    after: Map<Key, SocketHandle>,
    key: Key,
) -> bool {
    forall|other: Key|
        #![trigger after.get(other)]
        other != key ==> after.get(other) == before.get(other)
}

/// The socket stands in slot `i` afterwards, and the other slots are as they were.
pub open spec fn only_slot_changed(
    before: Seq<SocketSlot>,
    after: Seq<SocketSlot>,
    i: int,
    socket: Socket,
) -> bool {
    &&& after.len() == before.len()
    &&& after[i] == SocketSlot::Tcp(socket)
    &&& forall|j: int| 0 <= j < before.len() && j != i ==> #[trigger] after[j] == before[j]
}

/// What is sent is the reply of the socket: a packet with that very header and segment, or nothing
/// exactly if the socket gave none.
pub open spec fn sends_reply(done: Processed, sent: Option<Packet>) -> bool {
    match done.reply {
        Some((header, tcp)) => {
            &&& sent is Some
            &&& sent->0.header == header
            &&& sent->0.payload == IpPayload::Tcp(tcp)
        },
        None => sent is None,
    }
}

/// The length of a segment that only opens a connection can be counted by a sequence number.
pub open spec fn countable(repr: TcpRepr) -> bool {
    repr.control == TcpControl::Syn && repr.ack_number is None ==> repr.payload@.len() < i32::MAX
}

/// What is sent answers a segment that no socket is for: nothing if the segment is a reset, has an
/// address that is all zero, or went to a raw socket, and otherwise the reset that answers it, as
/// long as a sequence number can count the segment.
pub open spec fn sends_reset(
    ip_repr: IpRepr,
    repr: TcpRepr,
    handled_by_raw_socket: bool,
    sent: Option<Packet>,
) -> bool {
    if repr.control == TcpControl::Rst || all_zero(ip_repr.spec_dst_addr()) || all_zero(
        ip_repr.spec_src_addr(),
    ) || handled_by_raw_socket {
        sent is None
    } else {
        sent is Some && match sent->0.payload {
            IpPayload::Tcp(tcp) => countable(repr) ==> is_reset_of(
                ip_repr,
                repr,
                sent->0.header,
                tcp,
            ),
        }
    }
}

/// `done` came of the call that gave the segment to the socket: of `process_zero_copy`, with the
/// frame, if a frame was pending, and of `process` if none was.
pub open spec fn gave_segment<'frame, F, Z>(
    process: F,
    process_zero_copy: Z,
    frame: Option<OpaqueFrameHandle>,
    handle: SocketHandle,
    socket: Socket,
    ip_repr: IpRepr,
    tcp_repr: TcpRepr<'frame>,
    done: Processed<'frame>,
) -> bool where
    F: FnOnce(SocketHandle, Socket, IpRepr, TcpRepr<'frame>) -> Processed<'frame>,
    Z: FnOnce(
        SocketHandle,
        Socket,
        IpRepr,
        TcpRepr<'frame>,
        OpaqueFrameHandle,
    ) -> Processed<'frame>,
 {
    &&& frame is None ==> call_ensures(process, (handle, socket, ip_repr, tcp_repr), done)
    &&& frame matches Some(fh) ==> call_ensures(
        process_zero_copy,
        (handle, socket, ip_repr, tcp_repr, fh),
        done,
    )
}

/// The segment was given to the socket in the slot of `handle`, as it stood there; that slot alone
/// holds what came of it; what the socket replied is sent; and the index differs at most at the
/// key of the segment, where it gives `handle` if `indexed` and the socket keeps the connection,
/// and else nothing.
pub open spec fn given_to<'frame, F, Z>(
    index: Map<Key, SocketHandle>,
    slots: Seq<SocketSlot>,
    frame: Option<OpaqueFrameHandle>,
    ip_repr: IpRepr,
    tcp_repr: TcpRepr<'frame>,
    process: F,
    process_zero_copy: Z,
    handle: SocketHandle,
    indexed: bool,
    index_after: Map<Key, SocketHandle>,
    slots_after: Seq<SocketSlot>,
    sent: Option<Packet<'frame>>,
) -> bool where
    F: FnOnce(SocketHandle, Socket, IpRepr, TcpRepr<'frame>) -> Processed<'frame>,
    Z: FnOnce(
        SocketHandle,
        Socket,
        IpRepr,
        TcpRepr<'frame>,
        OpaqueFrameHandle,
    ) -> Processed<'frame>,
 {
    exists|done: Processed<'frame>| #[trigger]
        gave_segment(
            process,
            process_zero_copy,
            frame,
            handle,
            slots[handle.index as int]->Tcp_0,
            ip_repr,
            tcp_repr,
            done,
        ) && only_slot_changed(slots, slots_after, handle.index as int, done.socket) && sends_reply(
            done,
            sent,
        ) && same_elsewhere(index, index_after, key_of(ip_repr, tcp_repr)) && index_after.get(
            key_of(ip_repr, tcp_repr),
        ) == if indexed && keeps_connection(done.socket, ip_repr, tcp_repr) {
            Some(handle)
        } else {
            None
        }
}

/// What becomes of a segment: the socket that the index gives takes it, if there is one, and keeps
/// its entry as long as it keeps the connection; otherwise the first socket that accepts it does,
/// and is entered if it keeps the connection and fewer than 64 others are; and if there is none,
/// the sockets are as they were, the index has nothing for the segment, and a reset may be sent.
pub open spec fn is_handled<'frame, F, Z>(
    index: Map<Key, SocketHandle>,
    slots: Seq<SocketSlot>,
    frame: Option<OpaqueFrameHandle>,
    handled_by_raw_socket: bool,
    ip_repr: IpRepr,
    tcp_repr: TcpRepr<'frame>,
    process: F,
    process_zero_copy: Z,
    index_after: Map<Key, SocketHandle>,
    slots_after: Seq<SocketSlot>,
    sent: Option<Packet<'frame>>,
) -> bool where
    F: FnOnce(SocketHandle, Socket, IpRepr, TcpRepr<'frame>) -> Processed<'frame>,
    Z: FnOnce(
        SocketHandle,
        Socket,
        IpRepr,
        TcpRepr<'frame>,
        OpaqueFrameHandle,
    ) -> Processed<'frame>,
 {
    &&& forall|handle: SocketHandle| #[trigger]
        index_gives(index, slots, ip_repr, tcp_repr, handle) ==> given_to(
            index,
            slots,
            frame,
            ip_repr,
            tcp_repr,
            process,
            process_zero_copy,
            handle,
            true,
            index_after,
            slots_after,
            sent,
        )
    &&& (forall|handle: SocketHandle|
        !#[trigger] index_gives(index, slots, ip_repr, tcp_repr, handle)) ==> forall|i: int|
        #[trigger] takes_first(slots, i, ip_repr, tcp_repr) ==> given_to(
            index,
            slots,
            frame,
            ip_repr,
            tcp_repr,
            process,
            process_zero_copy,
            SocketHandle { index: i as usize },
            index.remove(key_of(ip_repr, tcp_repr)).len() < 64,
            index_after,
            slots_after,
            sent,
        )
    &&& none_takes(slots, ip_repr, tcp_repr) ==> {
        &&& slots_after == slots
        &&& same_elsewhere(index, index_after, key_of(ip_repr, tcp_repr))
        &&& index_after.get(key_of(ip_repr, tcp_repr)) is None
        &&& sends_reset(ip_repr, tcp_repr, handled_by_raw_socket, sent)
    }
}

/// A new interface has the checksum behaviour it was made with, finds no connection by the index,
/// and no frame is pending.
pub proof fn law_new_interface(checksum: ChecksumCapabilities, r: InterfaceInner, key: Key)
    requires
        call_ensures(InterfaceInner::new, (checksum,), r),
    ensures
        r.wf(),
        r.checksum == checksum,
        r.pending_zc_handle is None,
        r.tcp_socket_index@.get(key) is None,
{
}

/// An index entry is dead exactly if the socket does not keep the connection of the four values:
/// it is closed, waits for its time to run out, owns no connection, or owns another.
pub proof fn law_index_entry_is_dead(socket: Socket, ip_repr: IpRepr, repr: TcpRepr, r: bool)
    requires
        call_ensures(
            index_entry_is_dead,
            (
                &socket,
                ip_repr.spec_dst_addr(),
                repr.dst_port,
                ip_repr.spec_src_addr(),
                repr.src_port,
            ),
            r,
        ),
    ensures
        r <==> !keeps_connection(socket, ip_repr, repr),
{
}

/// The reply of a socket is sent as it is.
pub proof fn law_packet_is_the_reply(done: Processed, r: Option<Packet>)
    requires
        call_ensures(Processed::packet, (&done,), r),
    ensures
        sends_reply(done, r),
{
}

/// What the library takes for the answer to a segment that no socket is for is one.
proof fn lemma_sends_reset(
    ip_repr: IpRepr,
    repr: TcpRepr,
    handled_by_raw_socket: bool,
    reply: Option<Packet>,
)
    requires
        spec_is_unmatched_reply(ip_repr, repr, handled_by_raw_socket, reply),
    ensures
        sends_reset(ip_repr, repr, handled_by_raw_socket, reply),
{
    if let Some(packet) = reply {
        match packet.payload {
            IpPayload::Tcp(tcp) => {
                if spec_resets(ip_repr, repr, handled_by_raw_socket) && countable(repr) {
                    law_is_reset(ip_repr, repr, packet.header, tcp);
                }
            },
        }
    }
}

/// A segment that no socket is for is answered with the reset that answers it, where one may be
/// sent, and with nothing else.
pub proof fn law_unmatched_reply(
    ip_repr: IpRepr,
    repr: TcpRepr,
    handled_by_raw_socket: bool,
    r: Option<Packet>,
)
    requires
        call_ensures(unmatched_reply, (&ip_repr, &repr, handled_by_raw_socket), r),
    ensures
        sends_reset(ip_repr, repr, handled_by_raw_socket, r),
{
    lemma_sends_reset(ip_repr, repr, handled_by_raw_socket, r);
}

/// The socket that the index gives is chosen if it accepts the segment, and the index is left as
/// it is. Otherwise the first socket that accepts it is chosen, or none if there is none, and the
/// index has nothing for the segment any more and is the same elsewhere.
pub proof fn law_route(
    inner: &mut InterfaceInner,
    sockets: SocketSet,
    ip_repr: IpRepr,
    repr: TcpRepr,
    r: Route,
    handle: SocketHandle,
    i: int,
)
    requires
        old(inner).wf(),
        call_ensures(InterfaceInner::route_tcp, (inner, &sockets, &ip_repr, &repr), r),
    ensures
        final(inner).wf(),
        final(inner).checksum == old(inner).checksum,
        final(inner).pending_zc_handle == old(inner).pending_zc_handle,
        index_gives(old(inner).tcp_socket_index@, sockets.slots@, ip_repr, repr, handle) ==> r
            == Route::Indexed(handle, sockets.slots@[handle.index as int]->Tcp_0)
            && final(inner).tcp_socket_index@ == old(inner).tcp_socket_index@,
        (forall|h: SocketHandle|
            !#[trigger] index_gives(
                old(inner).tcp_socket_index@,
                sockets.slots@,
                ip_repr,
                repr,
                h,
            )) ==> {
            &&& takes_first(sockets.slots@, i, ip_repr, repr) ==> r == Route::Scanned(
                SocketHandle { index: i as usize },
                sockets.slots@[i]->Tcp_0,
            )
            &&& none_takes(sockets.slots@, ip_repr, repr) ==> r == Route::Unmatched
            &&& final(inner).tcp_socket_index@.get(key_of(ip_repr, repr)) is None
            &&& same_elsewhere(
                old(inner).tcp_socket_index@,
                final(inner).tcp_socket_index@,
                key_of(ip_repr, repr),
            )
        },
{
    let index = old(inner).tcp_socket_index@;
    let slots = sockets.slots@;
    assert(sockets.slots.len() == slots.len());
    law_search_covers_every_slot(slots, i, ip_repr, repr);
    let key = key_of(ip_repr, repr);
    if forall|h: SocketHandle| !#[trigger] index_gives(index, slots, ip_repr, repr, h) {
        assert(!index_gives(index, slots, ip_repr, repr, index[key]));
        let after = final(inner).tcp_socket_index@;
        assert(after == index.remove(key));
    }
}

/// After a segment the index is the same but at its key. There it gives nothing if the socket does
/// not keep the connection. If it does, the index is the same there too where the socket was found
/// by the index, so a live connection keeps its entry; where it was found by the search, the index
/// gives its handle, if it had an entry for the key already or fewer than 64 in all, and nothing
/// changes otherwise.
pub proof fn law_settle(
    inner: &mut InterfaceInner,
    ip_repr: IpRepr,
    repr: TcpRepr,
    socket: Socket,
    scanned: Option<SocketHandle>,
)
    requires
        old(inner).wf(),
        call_ensures(
            InterfaceInner::settle_tcp,
            (
                inner,
                ip_repr.spec_dst_addr(),
                repr.dst_port,
                ip_repr.spec_src_addr(),
                repr.src_port,
                &socket,
                scanned,
            ),
            (),
        ),
    ensures
        final(inner).wf(),
        final(inner).checksum == old(inner).checksum,
        final(inner).pending_zc_handle == old(inner).pending_zc_handle,
        same_elsewhere(
            old(inner).tcp_socket_index@,
            final(inner).tcp_socket_index@,
            key_of(ip_repr, repr),
        ),
        !keeps_connection(socket, ip_repr, repr) ==> final(inner).tcp_socket_index@.get(
            key_of(ip_repr, repr),
        ) is None,
        keeps_connection(socket, ip_repr, repr) && scanned is None
            ==> final(inner).tcp_socket_index@ == old(inner).tcp_socket_index@,
        keeps_connection(socket, ip_repr, repr) && scanned is Some ==> {
            let before = old(inner).tcp_socket_index@;
            let after = final(inner).tcp_socket_index@;
            let key = key_of(ip_repr, repr);
            let admitted = before.dom().contains(key) || before.len() < 64;
            after.get(key) == if admitted {
                scanned
            } else {
                None
            }
        },
{
}

/// What the library takes for the outcome of a segment is what becomes of a segment.
pub proof fn law_processed_is_handled<'frame, F, Z>(
    inner: InterfaceInner,
    slots: Seq<SocketSlot>,
    handled_by_raw_socket: bool,
    ip_repr: IpRepr,
    tcp_repr: TcpRepr<'frame>,
    process: F,
    process_zero_copy: Z,
    inner_after: InterfaceInner,
    slots_after: Seq<SocketSlot>,
    reply: Option<Packet<'frame>>,
) where
    F: FnOnce(SocketHandle, Socket, IpRepr, TcpRepr<'frame>) -> Processed<'frame>,
    Z: FnOnce(
        SocketHandle,
        Socket,
        IpRepr,
        TcpRepr<'frame>,
        OpaqueFrameHandle,
    ) -> Processed<'frame>,

    requires
        slots.len() <= usize::MAX,
        spec_is_processed(
            inner,
            slots,
            handled_by_raw_socket,
            ip_repr,
            tcp_repr,
            process,
            process_zero_copy,
            inner_after,
            slots_after,
            reply,
        ),
    ensures
        is_handled(
            inner.tcp_socket_index@,
            slots,
            inner.pending_zc_handle,
            handled_by_raw_socket,
            ip_repr,
            tcp_repr,
            process,
            process_zero_copy,
            inner_after.tcp_socket_index@,
            slots_after,
            reply,
        ),
{
    let index = inner.tcp_socket_index@;
    let after = inner_after.tcp_socket_index@;
    let frame = inner.pending_zc_handle;
    let key = key_of(ip_repr, tcp_repr);
    law_search_covers_every_slot(slots, 0, ip_repr, tcp_repr);
    assert forall|handle: SocketHandle| #[trigger]
        index_gives(index, slots, ip_repr, tcp_repr, handle) implies given_to(
        index,
        slots,
        frame,
        ip_repr,
        tcp_repr,
        process,
        process_zero_copy,
        handle,
        true,
        after,
        slots_after,
        reply,
    ) by {
        let socket = slots[handle.index as int]->Tcp_0;
        let done = choose|done: Processed<'frame>| #[trigger]
            spec_stepped(
                process,
                process_zero_copy,
                handle,
                socket,
                ip_repr,
                tcp_repr,
                frame,
                done,
            ) && slots_after == slots.update(handle.index as int, SocketSlot::Tcp(done.socket))
                && after == spec_settled_index(index, key, done.socket, None)
                && reply == done.spec_packet();
        assert(gave_segment(
            process,
            process_zero_copy,
            frame,
            handle,
            socket,
            ip_repr,
            tcp_repr,
            done,
        ));
    }
    if forall|h: SocketHandle| !#[trigger] index_gives(index, slots, ip_repr, tcp_repr, h) {
        assert(!index_gives(index, slots, ip_repr, tcp_repr, index[key]));
        assert forall|i: int| #[trigger] takes_first(slots, i, ip_repr, tcp_repr) implies given_to(
            index,
            slots,
            frame,
            ip_repr,
            tcp_repr,
            process,
            process_zero_copy,
            SocketHandle { index: i as usize },
            index.remove(key).len() < 64,
            after,
            slots_after,
            reply,
        ) by {
            law_search_covers_every_slot(slots, i, ip_repr, tcp_repr);
            let handle = SocketHandle { index: i as usize };
            let socket = slots[i]->Tcp_0;
            let done = choose|done: Processed<'frame>| #[trigger]
                spec_stepped(
                    process,
                    process_zero_copy,
                    handle,
                    socket,
                    ip_repr,
                    tcp_repr,
                    frame,
                    done,
                ) && slots_after == slots.update(handle.index as int, SocketSlot::Tcp(done.socket))
                    && after == spec_settled_index(
                    index.remove(key),
                    key,
                    done.socket,
                    Some(handle),
                ) && reply == done.spec_packet();
            assert(gave_segment(
                process,
                process_zero_copy,
                frame,
                handle,
                socket,
                ip_repr,
                tcp_repr,
                done,
            ));
        }
    }
    if none_takes(slots, ip_repr, tcp_repr) {
        lemma_sends_reset(ip_repr, tcp_repr, handled_by_raw_socket, reply);
    }
}

/// A parsed segment is handled, and no frame is pending afterwards.
pub proof fn law_process_tcp_repr<'frame, F, Z>(
    inner: &mut InterfaceInner,
    sockets: &mut SocketSet,
    handled_by_raw_socket: bool,
    ip_repr: IpRepr,
    tcp_repr: TcpRepr<'frame>,
    process: F,
    process_zero_copy: Z,
    r: Option<Packet<'frame>>,
) where
    F: FnOnce(SocketHandle, Socket, IpRepr, TcpRepr<'frame>) -> Processed<'frame>,
    Z: FnOnce(
        SocketHandle,
        Socket,
        IpRepr,
        TcpRepr<'frame>,
        OpaqueFrameHandle,
    ) -> Processed<'frame>,

    requires
        old(inner).wf(),
        call_ensures(
            InterfaceInner::process_tcp_repr::<F, Z>,
            (
                inner,
                sockets,
                handled_by_raw_socket,
                ip_repr,
                tcp_repr,
                process,
                process_zero_copy,
            ),
            r,
        ),
    ensures
        final(inner).wf(),
        final(inner).pending_zc_handle is None,
        final(inner).checksum == old(inner).checksum,
        is_handled(
            old(inner).tcp_socket_index@,
            old(sockets).slots@,
            old(inner).pending_zc_handle,
            handled_by_raw_socket,
            ip_repr,
            tcp_repr,
            process,
            process_zero_copy,
            final(inner).tcp_socket_index@,
            final(sockets).slots@,
            r,
        ),
{
    assert(old(sockets).slots.len() == old(sockets).slots@.len());
    law_processed_is_handled(
        *old(inner),
        old(sockets).slots@,
        handled_by_raw_socket,
        ip_repr,
        tcp_repr,
        process,
        process_zero_copy,
        *final(inner),
        final(sockets).slots@,
        r,
    );
}

/// A packet is parsed with its two addresses and the checksum behaviour of the device. If it is
/// malformed, nothing is sent and nothing changes, not even the pending frame; otherwise the
/// segment that was parsed is handled.
pub proof fn law_process_tcp<'frame, P, F, Z>(
    inner: &mut InterfaceInner,
    sockets: &mut SocketSet,
    handled_by_raw_socket: bool,
    ip_repr: IpRepr,
    ip_payload: &'frame [u8],
    parse: P,
    process: F,
    process_zero_copy: Z,
    r: Option<Packet<'frame>>,
) where
    P: FnOnce(
        &'frame [u8],
        IpAddress,
        IpAddress,
        ChecksumCapabilities,
    ) -> Result<TcpRepr<'frame>, Malformed>,
    F: FnOnce(SocketHandle, Socket, IpRepr, TcpRepr<'frame>) -> Processed<'frame>,
    Z: FnOnce(
        SocketHandle,
        Socket,
        IpRepr,
        TcpRepr<'frame>,
        OpaqueFrameHandle,
    ) -> Processed<'frame>,

    requires
        old(inner).wf(),
        call_ensures(
            InterfaceInner::process_tcp::<P, F, Z>,
            (
                inner,
                sockets,
                handled_by_raw_socket,
                ip_repr,
                ip_payload,
                parse,
                process,
                process_zero_copy,
            ),
            r,
        ),
    ensures
        final(inner).wf(),
        final(inner).checksum == old(inner).checksum,
        exists|parsed: Result<TcpRepr<'frame>, Malformed>| #[trigger]
            call_ensures(
                parse,
                (
                    ip_payload,
                    ip_repr.spec_src_addr(),
                    ip_repr.spec_dst_addr(),
                    old(inner).checksum,
                ),
                parsed,
            ) && match parsed {
                Err(_) => {
                    &&& r is None
                    &&& final(sockets).slots@ == old(sockets).slots@
                    &&& final(inner).tcp_socket_index@ == old(inner).tcp_socket_index@
                    &&& final(inner).pending_zc_handle == old(inner).pending_zc_handle
                },
                Ok(tcp_repr) => {
                    &&& final(inner).pending_zc_handle is None
                    &&& is_handled(
                        old(inner).tcp_socket_index@,
                        old(sockets).slots@,
                        old(inner).pending_zc_handle,
                        handled_by_raw_socket,
                        ip_repr,
                        tcp_repr,
                        process,
                        process_zero_copy,
                        final(inner).tcp_socket_index@,
                        final(sockets).slots@,
                        r,
                    )
                },
            },
{
    assert(old(sockets).slots.len() == old(sockets).slots@.len());
    assert forall|tcp_repr: TcpRepr<'frame>|
        #[trigger] spec_is_processed(
            *old(inner),
            old(sockets).slots@,
            handled_by_raw_socket,
            ip_repr,
            tcp_repr,
            process,
            process_zero_copy,
            *final(inner),
            final(sockets).slots@,
            r,
        ) implies is_handled(
        old(inner).tcp_socket_index@,
        old(sockets).slots@,
        old(inner).pending_zc_handle,
        handled_by_raw_socket,
        ip_repr,
        tcp_repr,
        process,
        process_zero_copy,
        final(inner).tcp_socket_index@,
        final(sockets).slots@,
        r,
    ) by {
        law_processed_is_handled(
            *old(inner),
            old(sockets).slots@,
            handled_by_raw_socket,
            ip_repr,
            tcp_repr,
            process,
            process_zero_copy,
            *final(inner),
            final(sockets).slots@,
            r,
        );
    }
}

/// The batch was given to the socket in slot `i`, as it stood there; that slot alone holds what
/// came of it; and what the socket replied is sent.
pub open spec fn batch_given_to<'frame, T, F>(
    slots: Seq<SocketSlot>,
    segments: &'frame [T],
    process_batch: F,
    i: int,
    slots_after: Seq<SocketSlot>,
    sent: Option<Packet<'frame>>,
) -> bool where F: FnOnce(SocketHandle, Socket, &'frame [T]) -> Processed<'frame> {
    exists|done: Processed<'frame>| #[trigger]
        call_ensures(
            process_batch,
            (SocketHandle { index: i as usize }, slots[i]->Tcp_0, segments),
            done,
        ) && only_slot_changed(slots, slots_after, i, done.socket) && sends_reply(done, sent)
}

/// A batch goes as a whole to the first socket that accepts its first segment, in whichever slot
/// that is, and what that socket replies is sent. If there is none, the sockets are as they were
/// and the first segment alone is answered; of an empty batch nothing comes.
pub proof fn law_process_tcp_batch<'frame, F>(
    inner: InterfaceInner,
    sockets: &mut SocketSet,
    handled_by_raw_socket: bool,
    segments: &'frame [(IpRepr, TcpRepr<'frame>)],
    process_batch: F,
    r: Option<Packet<'frame>>,
    i: int,
) where
    F: FnOnce(SocketHandle, Socket, &'frame [(IpRepr, TcpRepr<'frame>)]) -> Processed<'frame>,

    requires
        call_ensures(
            InterfaceInner::process_tcp_batch::<F>,
            (&inner, sockets, handled_by_raw_socket, segments, process_batch),
            r,
        ),
    ensures
        segments@.len() == 0 ==> r is None && final(sockets).slots@ == old(sockets).slots@,
        segments@.len() > 0 && takes_first(
            old(sockets).slots@,
            i,
            segments@[0].0,
            segments@[0].1,
        ) ==> batch_given_to(
            old(sockets).slots@,
            segments,
            process_batch,
            i,
            final(sockets).slots@,
            r,
        ),
        segments@.len() > 0 && none_takes(old(sockets).slots@, segments@[0].0, segments@[0].1)
            ==> final(sockets).slots@ == old(sockets).slots@ && sends_reset(
            segments@[0].0,
            segments@[0].1,
            handled_by_raw_socket,
            r,
        ),
{
    if segments@.len() > 0 {
        let (ip_repr, repr) = segments@[0];
        assert(old(sockets).slots.len() == old(sockets).slots@.len());
        law_search_covers_every_slot(old(sockets).slots@, i, ip_repr, repr);
        if none_takes(old(sockets).slots@, ip_repr, repr) {
            lemma_sends_reset(ip_repr, repr, handled_by_raw_socket, r);
        }
    }
}

/// A batch whose segments each lie in a frame goes as a whole, frames and all, to the first socket
/// that accepts its first segment, in whichever slot that is, and what that socket replies is sent.
/// If there is none, the sockets are as they were and the first segment alone is answered; of an
/// empty batch nothing comes.
pub proof fn law_process_tcp_batch_zero_copy<'frame, F>(
    inner: InterfaceInner,
    sockets: &mut SocketSet,
    handled_by_raw_socket: bool,
    segments: &'frame [(IpRepr, TcpRepr<'frame>, OpaqueFrameHandle)],
    process_batch: F,
    r: Option<Packet<'frame>>,
    i: int,
) where
    F: FnOnce(
        SocketHandle,
        Socket,
        &'frame [(IpRepr, TcpRepr<'frame>, OpaqueFrameHandle)],
    ) -> Processed<'frame>,

    requires
        call_ensures(
            InterfaceInner::process_tcp_batch_zero_copy::<F>,
            (&inner, sockets, handled_by_raw_socket, segments, process_batch),
            r,
        ),
    ensures
        segments@.len() == 0 ==> r is None && final(sockets).slots@ == old(sockets).slots@,
        segments@.len() > 0 && takes_first(
            old(sockets).slots@,
            i,
            segments@[0].0,
            segments@[0].1,
        ) ==> batch_given_to(
            old(sockets).slots@,
            segments,
            process_batch,
            i,
            final(sockets).slots@,
            r,
        ),
        segments@.len() > 0 && none_takes(old(sockets).slots@, segments@[0].0, segments@[0].1)
            ==> final(sockets).slots@ == old(sockets).slots@ && sends_reset(
            segments@[0].0,
            segments@[0].1,
            handled_by_raw_socket,
            r,
        ),
{
    if segments@.len() > 0 {
        let (ip_repr, repr, _) = segments@[0];
        assert(old(sockets).slots.len() == old(sockets).slots@.len());
        law_search_covers_every_slot(old(sockets).slots@, i, ip_repr, repr);
        if none_takes(old(sockets).slots@, ip_repr, repr) {
            lemma_sends_reset(ip_repr, repr, handled_by_raw_socket, r);
        }
    }
}

} // verus!
