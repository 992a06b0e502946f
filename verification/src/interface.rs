//! The choice of a socket for each TCP segment, and the upkeep of the connection index.
//!
//! What a socket does with a segment is left to the caller, who hands it in as a closure: one for
//! the regular case, and one for a segment whose frame may be handed on. A closure gets the socket
//! as it stands and gives it back as it stands afterwards, with the reply to send, if any.
use vstd::prelude::*;

use crate::socket::{Socket, SocketHandle, SocketSet, SocketSlot, State};
use crate::tcp_socket_index::{spec_insert, Key, TcpSocketIndex};
use crate::wire::{IpAddress, IpPayload, IpRepr, Packet, TcpControl, TcpRepr};

verus! {

/// Names the memory of a received frame, which stays alive until the application has consumed the
/// data in it.
#[derive(Debug, PartialEq, Eq)]
pub struct OpaqueFrameHandle {
    pub id: usize,
}

/// In which directions checksums are computed in software.
#[derive(Clone, Copy, Debug, PartialEq, Eq, Structural)]
pub enum Checksum {
    Both,
    Rx,
    Tx,
    Neither,
}

/// The checksum behaviour of the device, as far as TCP is concerned.
#[derive(Clone, Copy, Debug, PartialEq, Eq, Structural)]
pub struct ChecksumCapabilities {
    pub tcp: Checksum,
}

/// A packet that is not a well-formed TCP segment.
#[derive(Clone, Copy, Debug, PartialEq, Eq, Structural)]
pub struct Malformed;

/// What came of handing a segment to a socket.
#[derive(Clone, Copy, Debug, PartialEq, Eq)]
pub struct Processed<'p> {
    /// The socket as it stands afterwards.
    pub socket: Socket,
    /// What it wants sent at once.
    pub reply: Option<(IpRepr, TcpRepr<'p>)>,
}

impl<'p> Processed<'p> {
    /// The reply as a packet.
    pub open spec fn spec_packet(self) -> Option<Packet<'p>> {
        match self.reply {
            Some((header, tcp)) => Some(Packet { header, payload: IpPayload::Tcp(tcp) }),
            None => None,
        }
    }

    pub fn packet(&self) -> (r: Option<Packet<'p>>)
        ensures
            r == self.spec_packet(),
    {
        match self.reply {
            Some((header, tcp)) => Some(Packet::new(header, IpPayload::Tcp(tcp))),
            None => None,
        }
    }
}

/// Which socket a segment is for.
#[derive(Clone, Copy, Debug, PartialEq, Eq)]
pub enum Route {
    /// This one, by the index.
    Indexed(SocketHandle, Socket),
    /// This one, by the linear search.
    Scanned(SocketHandle, Socket),
    /// No socket.
    Unmatched,
}

impl Route {
    /// The socket that the segment is for.
    pub open spec fn spec_target(self) -> Option<(SocketHandle, Socket)> {
        match self {
            Route::Indexed(handle, socket) | Route::Scanned(handle, socket) => Some(
                (handle, socket),
            ),
            Route::Unmatched => None,
        }
    }

    /// The handle of a socket that was found by the linear search.
    pub open spec fn spec_scanned(self) -> Option<SocketHandle> {
        match self {
            Route::Scanned(handle, _) => Some(handle),
            Route::Indexed(_, _) | Route::Unmatched => None,
        }
    }
}

/// The key of the connection that a segment belongs to, seen from this end.
pub open spec fn spec_key(ip_repr: IpRepr, repr: TcpRepr) -> Key {
    Key {
        local_addr: ip_repr.spec_dst_addr(),
        local_port: repr.dst_port,
        remote_addr: ip_repr.spec_src_addr(),
        remote_port: repr.src_port,
    }
}

/// Whether the index gives a socket that accepts the segment.
pub open spec fn spec_index_hit(
    index: Map<Key, SocketHandle>,
    slots: Seq<SocketSlot>,
    ip_repr: IpRepr,
    repr: TcpRepr,
) -> bool {
    let key = spec_key(ip_repr, repr);
    index.contains_key(key) && SocketSet::spec_accepting(slots, index[key], ip_repr, repr)
}

/// Which socket a segment is for: the one that the index gives, if that one accepts it, and else
/// the first that does.
pub open spec fn spec_route(
    index: Map<Key, SocketHandle>,
    slots: Seq<SocketSlot>,
    ip_repr: IpRepr,
    repr: TcpRepr,
) -> Route {
    if spec_index_hit(index, slots, ip_repr, repr) {
        let handle = index[spec_key(ip_repr, repr)];
        Route::Indexed(handle, SocketSet::spec_tcp(slots, handle)->0)
    } else {
        match SocketSet::spec_scan(slots, 0, ip_repr, repr) {
            Some(handle) => Route::Scanned(handle, SocketSet::spec_tcp(slots, handle)->0),
            None => Route::Unmatched,
        }
    }
}

/// The index after the choice: an entry that gave no socket for its own connection is stale, and
/// gone.
pub open spec fn spec_routed_index(
    index: Map<Key, SocketHandle>,
    slots: Seq<SocketSlot>,
    ip_repr: IpRepr,
    repr: TcpRepr,
) -> Map<Key, SocketHandle> {
    if spec_index_hit(index, slots, ip_repr, repr) {
        index
    } else {
        index.remove(spec_key(ip_repr, repr))
    }
}

/// Whether an index entry that gives `socket` for the connection `key` is dead weight: the socket
/// is closed or only waits for its time to run out, or `key` is not the connection it owns.
pub open spec fn spec_index_entry_is_dead(socket: Socket, key: Key) -> bool {
    ||| socket.state == State::Closed
    ||| socket.state == State::TimeWait
    ||| match socket.tuple {
        Some(tuple) => {
            ||| tuple.local.addr != key.local_addr
            ||| tuple.local.port != key.local_port
            ||| tuple.remote.addr != key.remote_addr
            ||| tuple.remote.port != key.remote_port
        },
        None => true,
    }
}

/// The index after `socket`, chosen for a segment of the connection `key`, has processed it:
/// without `key` if the entry would be dead, and else with it, if the socket was found by the
/// linear search, as the one that `scanned` names, and the index admits it.
pub open spec fn spec_settled_index(
    index: Map<Key, SocketHandle>,
    key: Key,
    socket: Socket,
    scanned: Option<SocketHandle>,
) -> Map<Key, SocketHandle> {
    if spec_index_entry_is_dead(socket, key) {
        index.remove(key)
    } else {
        match scanned {
            Some(handle) => spec_insert(index, key, handle),
            None => index,
        }
    }
}

/// Whether a segment that no socket is for is answered with a reset. One is never sent in reply
/// to another, nor with an unspecified address, nor when a raw socket has had the packet.
pub open spec fn spec_resets(ip_repr: IpRepr, repr: TcpRepr, handled_by_raw_socket: bool) -> bool {
    &&& repr.control != TcpControl::Rst
    &&& !ip_repr.spec_dst_addr().spec_is_unspecified()
    &&& !ip_repr.spec_src_addr().spec_is_unspecified()
    &&& !handled_by_raw_socket
}

/// Whether `reply` is what a segment that no socket is for is answered with.
pub open spec fn spec_is_unmatched_reply(
    ip_repr: IpRepr,
    repr: TcpRepr,
    handled_by_raw_socket: bool,
    reply: Option<Packet>,
) -> bool {
    if spec_resets(ip_repr, repr, handled_by_raw_socket) {
        match reply {
            Some(packet) => match packet.payload {
                IpPayload::Tcp(tcp) => Socket::spec_is_rst_reply(ip_repr, repr, packet.header, tcp),
            },
            None => false,
        }
    } else {
        reply is None
    }
}

/// Whether an index entry that gives `socket` for the connection of the four values is dead
/// weight, now that the socket has processed a segment of it.
///
/// Ownership of the connection decides rather than the state, because a socket loses it in
/// several ways: a reset puts a listening socket back to listening, the last acknowledgement
/// closes it, and a slot of the socket set can be used again for another connection.
///
/// A socket that waits for its time to run out is evicted although it owns the connection. All
/// that is left for it is to acknowledge a repeated end of the connection, and the linear search
/// does for that.
pub fn index_entry_is_dead(
    socket: &Socket,
    local_addr: IpAddress,
    local_port: u16,
    remote_addr: IpAddress,
    remote_port: u16,
) -> (r: bool)
    ensures
        r == spec_index_entry_is_dead(
            *socket,
            Key { local_addr, local_port, remote_addr, remote_port },
        ),
{
    let state = socket.state();
    if state == State::Closed || state == State::TimeWait {
        return true;
    }
    match (socket.local_endpoint(), socket.remote_endpoint()) {
        (Some(local), Some(remote)) => {
            local.addr != local_addr || local.port != local_port || remote.addr != remote_addr
                || remote.port != remote_port
        },
        _ => true,
    }
}

/// What a segment that no socket is for is answered with.
pub fn unmatched_reply<'p>(ip_repr: &IpRepr, repr: &TcpRepr, handled_by_raw_socket: bool) -> (r:
    Option<Packet<'p>>)
    requires
        spec_resets(*ip_repr, *repr, handled_by_raw_socket) ==> Socket::spec_rst_fits(*repr),
    ensures
        spec_is_unmatched_reply(*ip_repr, *repr, handled_by_raw_socket, r),
{
    if repr.control == TcpControl::Rst || ip_repr.dst_addr().is_unspecified()
        || ip_repr.src_addr().is_unspecified() || handled_by_raw_socket {
        None
    } else {
        let (ip, tcp) = Socket::rst_reply(ip_repr, repr);
        Some(Packet::new(ip, IpPayload::Tcp(tcp)))
    }
}

/// The part of a network interface that hands TCP segments to sockets.
pub struct InterfaceInner {
    /// The connections that are found without a search.
    pub tcp_socket_index: TcpSocketIndex,
    /// The checksum behaviour of the device.
    pub checksum: ChecksumCapabilities,
    /// The frame that the next segment lies in, where its memory may be handed on.
    pub pending_zc_handle: Option<OpaqueFrameHandle>,
}

impl InterfaceInner {
    pub open spec fn wf(&self) -> bool {
        self.tcp_socket_index.wf()
    }

    pub fn new(checksum: ChecksumCapabilities) -> (r: Self)
        ensures
            r.wf(),
            r.tcp_socket_index@ == Map::<Key, SocketHandle>::empty(),
            r.checksum == checksum,
            r.pending_zc_handle is None,
    {
        InterfaceInner {
            tcp_socket_index: TcpSocketIndex::new(),
            checksum,
            pending_zc_handle: None,
        }
    }

    /// Chooses the socket that a segment is for, and evicts the index entry of the connection if
    /// it is stale.
    ///
    /// Only the key that missed is evicted, not everything that names its handle: once the slot is
    /// used again, the live connection there has an entry of its own.
    pub fn route_tcp(&mut self, sockets: &SocketSet, ip_repr: &IpRepr, repr: &TcpRepr) -> (r: Route)
        requires
            old(self).wf(),
        ensures
            final(self).wf(),
            r == spec_route(old(self).tcp_socket_index@, sockets@, *ip_repr, *repr),
            final(self).tcp_socket_index@ == spec_routed_index(
                old(self).tcp_socket_index@,
                sockets@,
                *ip_repr,
                *repr,
            ),
            final(self).checksum == old(self).checksum,
            final(self).pending_zc_handle == old(self).pending_zc_handle,
    {
        let local_addr = ip_repr.dst_addr();
        let remote_addr = ip_repr.src_addr();
        let found = self.tcp_socket_index.get(
            local_addr,
            repr.dst_port,
            remote_addr,
            repr.src_port,
        );
        if let Some(handle) = found {
            // The slot may be vacant or hold a socket of another protocol by now.
            if let Some(socket) = sockets.tcp(handle) {
                if socket.accepts(ip_repr, repr) {
                    return Route::Indexed(handle, socket);
                }
            }
            self.tcp_socket_index.remove(local_addr, repr.dst_port, remote_addr, repr.src_port);
        }
        assert(self.tcp_socket_index@ =~= old(self).tcp_socket_index@.remove(
            spec_key(*ip_repr, *repr),
        ));
        proof {
            assert(sockets.slots.len() == sockets@.len());
            lemma_scan(sockets@, 0, *ip_repr, *repr);
        }
        match sockets.scan(ip_repr, repr) {
            Some(handle) => match sockets.tcp(handle) {
                Some(socket) => Route::Scanned(handle, socket),
                None => Route::Unmatched,
            },
            None => Route::Unmatched,
        }
    }

    /// Brings the index up to date after `socket`, chosen for a segment of the connection of the
    /// four values, has processed it. `scanned` is the handle of a socket that was found by the
    /// linear search.
    pub fn settle_tcp(
        &mut self,
        local_addr: IpAddress,
        local_port: u16,
        remote_addr: IpAddress,
        remote_port: u16,
        socket: &Socket,
        scanned: Option<SocketHandle>,
    )
        requires
            old(self).wf(),
        ensures
            final(self).wf(),
            final(self).tcp_socket_index@ == spec_settled_index(
                old(self).tcp_socket_index@,
                Key { local_addr, local_port, remote_addr, remote_port },
                *socket,
                scanned,
            ),
            final(self).checksum == old(self).checksum,
            final(self).pending_zc_handle == old(self).pending_zc_handle,
    {
        if index_entry_is_dead(socket, local_addr, local_port, remote_addr, remote_port) {
            self.tcp_socket_index.remove(local_addr, local_port, remote_addr, remote_port);
        } else if let Some(handle) = scanned {
            if let (Some(local), Some(remote)) = (socket.local_endpoint(), socket.remote_endpoint()) {
                self.tcp_socket_index.insert(
                    local.addr,
                    local.port,
                    remote.addr,
                    remote.port,
                    handle,
                );
            }
        }
    }

    /// Hands the TCP segment that an IP packet carries to the socket it is for.
    ///
    /// `parse` reads the segment, with the two addresses and the checksum behaviour of the device.
    /// A malformed segment is dropped, and a pending frame stays pending. For the rest see
    /// [`InterfaceInner::process_tcp_repr`].
    pub fn process_tcp<'frame, P, F, Z>(
        &mut self,
        sockets: &mut SocketSet,
        handled_by_raw_socket: bool,
        ip_repr: IpRepr,
        ip_payload: &'frame [u8],
        parse: P,
        process: F,
        process_zero_copy: Z,
    ) -> (r: Option<Packet<'frame>>) where
        P: FnOnce(
            &'frame [u8],
            IpAddress,
            IpAddress,
            ChecksumCapabilities,
        ) -> Result<TcpRepr<'frame>, Malformed>,
        F: FnOnce(SocketHandle, Socket, IpRepr, TcpRepr<'frame>) -> Processed<'frame>,
        Z: FnOnce(
            SocketHandle,
            Socket,
            IpRepr,
            TcpRepr<'frame>,
            OpaqueFrameHandle,
        ) -> Processed<'frame>,

        requires
            old(self).wf(),
            call_requires(
                parse,
                (
                    ip_payload,
                    ip_repr.spec_src_addr(),
                    ip_repr.spec_dst_addr(),
                    old(self).checksum,
                ),
            ),
            forall|handle: SocketHandle, socket: Socket, tcp_repr: TcpRepr<'frame>|
                call_ensures(
                    parse,
                    (
                        ip_payload,
                        ip_repr.spec_src_addr(),
                        ip_repr.spec_dst_addr(),
                        old(self).checksum,
                    ),
                    Ok(tcp_repr),
                ) && SocketSet::spec_tcp(old(sockets)@, handle) == Some(socket)
                    && socket.spec_accepts(ip_repr, tcp_repr) ==> #[trigger] spec_can_step(
                    process,
                    process_zero_copy,
                    handle,
                    socket,
                    ip_repr,
                    tcp_repr,
                    old(self).pending_zc_handle,
                ),
            forall|tcp_repr: TcpRepr<'frame>| #[trigger]
                call_ensures(
                    parse,
                    (
                        ip_payload,
                        ip_repr.spec_src_addr(),
                        ip_repr.spec_dst_addr(),
                        old(self).checksum,
                    ),
                    Ok(tcp_repr),
                ) && spec_route(old(self).tcp_socket_index@, old(sockets)@, ip_repr, tcp_repr) is Unmatched
                    && spec_resets(ip_repr, tcp_repr, handled_by_raw_socket)
                    ==> Socket::spec_rst_fits(tcp_repr),
        ensures
            final(self).wf(),
            exists|parsed: Result<TcpRepr<'frame>, Malformed>| #[trigger]
                call_ensures(
                    parse,
                    (
                        ip_payload,
                        ip_repr.spec_src_addr(),
                        ip_repr.spec_dst_addr(),
                        old(self).checksum,
                    ),
                    parsed,
                ) && match parsed {
                    Ok(tcp_repr) => {
                        &&& final(self).checksum == old(self).checksum
                        &&& final(self).pending_zc_handle is None
                        &&& spec_is_processed(
                            *old(self),
                            old(sockets)@,
                            handled_by_raw_socket,
                            ip_repr,
                            tcp_repr,
                            process,
                            process_zero_copy,
                            *final(self),
                            final(sockets)@,
                            r,
                        )
                    },
                    Err(_) => {
                        &&& *final(self) == *old(self)
                        &&& final(sockets)@ == old(sockets)@
                        &&& r is None
                    },
                },
    {
        match parse(ip_payload, ip_repr.src_addr(), ip_repr.dst_addr(), self.checksum) {
            Ok(tcp_repr) => self.process_tcp_repr(
                sockets,
                handled_by_raw_socket,
                ip_repr,
                tcp_repr,
                process,
                process_zero_copy,
            ),
            Err(_) => None,
        }
    }

    /// Hands one parsed segment to the socket it is for.
    ///
    /// If a frame is pending, the socket takes the segment by `process_zero_copy`, which gets the
    /// frame, and otherwise by `process`; either way none is pending afterwards.
    /// The index gives the slot of the connection back as soon as the connection is over, because
    /// nothing else may: a socket can listen again without ever leaving the set, and a remote port
    /// does not recur, so no later segment would show the entry to be stale.
    pub fn process_tcp_repr<'frame, F, Z>(
        &mut self,
        sockets: &mut SocketSet,
        handled_by_raw_socket: bool,
        ip_repr: IpRepr,
        tcp_repr: TcpRepr<'frame>,
        process: F,
        process_zero_copy: Z,
    ) -> (r: Option<Packet<'frame>>) where
        F: FnOnce(SocketHandle, Socket, IpRepr, TcpRepr<'frame>) -> Processed<'frame>,
        Z: FnOnce(
            SocketHandle,
            Socket,
            IpRepr,
            TcpRepr<'frame>,
            OpaqueFrameHandle,
        ) -> Processed<'frame>,

        requires
            old(self).wf(),
            forall|handle: SocketHandle, socket: Socket|
                SocketSet::spec_tcp(old(sockets)@, handle) == Some(socket) && socket.spec_accepts(
                    ip_repr,
                    tcp_repr,
                ) ==> #[trigger] spec_can_step(
                    process,
                    process_zero_copy,
                    handle,
                    socket,
                    ip_repr,
                    tcp_repr,
                    old(self).pending_zc_handle,
                ),
            spec_route(old(self).tcp_socket_index@, old(sockets)@, ip_repr, tcp_repr) is Unmatched
                && spec_resets(ip_repr, tcp_repr, handled_by_raw_socket) ==> Socket::spec_rst_fits(
                tcp_repr,
            ),
        ensures
            final(self).wf(),
            final(self).checksum == old(self).checksum,
            final(self).pending_zc_handle is None,
            spec_is_processed(
                *old(self),
                old(sockets)@,
                handled_by_raw_socket,
                ip_repr,
                tcp_repr,
                process,
                process_zero_copy,
                *final(self),
                final(sockets)@,
                r,
            ),
    {
        let frame = self.pending_zc_handle.take();
        let local_addr = ip_repr.dst_addr();
        let remote_addr = ip_repr.src_addr();
        proof {
            assert(sockets.slots.len() == sockets@.len());
            lemma_route_accepts(self.tcp_socket_index@, sockets@, ip_repr, tcp_repr);
        }
        let route = self.route_tcp(sockets, &ip_repr, &tcp_repr);
        let (handle, socket, scanned) = match route {
            Route::Indexed(handle, socket) => (handle, socket, None),
            Route::Scanned(handle, socket) => (handle, socket, Some(handle)),
            Route::Unmatched => {
                return unmatched_reply(&ip_repr, &tcp_repr, handled_by_raw_socket);
            },
        };
        assert(spec_can_step(
            process,
            process_zero_copy,
            handle,
            socket,
            ip_repr,
            tcp_repr,
            frame,
        ));
        let ghost pending = frame;
        let done = match frame {
            Some(fh) => process_zero_copy(handle, socket, ip_repr, tcp_repr, fh),
            None => process(handle, socket, ip_repr, tcp_repr),
        };
        assert(spec_stepped(
            process,
            process_zero_copy,
            handle,
            socket,
            ip_repr,
            tcp_repr,
            pending,
            done,
        ));
        sockets.set_tcp(handle, done.socket);
        self.settle_tcp(
            local_addr,
            tcp_repr.dst_port,
            remote_addr,
            tcp_repr.src_port,
            &done.socket,
            scanned,
        );
        done.packet()
    }

    /// Hands a batch of parsed segments to the socket that the first of them is for.
    ///
    /// The socket is found by the linear search, and the index is left alone. At most one packet
    /// is sent in reply; where there is no such socket, it answers the first segment.
    pub fn process_tcp_batch<'frame, F>(
        &self,
        sockets: &mut SocketSet,
        handled_by_raw_socket: bool,
        segments: &'frame [(IpRepr, TcpRepr<'frame>)],
        process_batch: F,
    ) -> (r: Option<Packet<'frame>>) where
        F: FnOnce(
            SocketHandle,
            Socket,
            &'frame [(IpRepr, TcpRepr<'frame>)],
        ) -> Processed<'frame>,

        requires
            segments@.len() > 0 ==> forall|handle: SocketHandle, socket: Socket|
                SocketSet::spec_tcp(old(sockets)@, handle) == Some(socket) && socket.spec_accepts(
                    segments@[0].0,
                    segments@[0].1,
                ) ==> #[trigger] call_requires(process_batch, (handle, socket, segments)),
            segments@.len() > 0 && SocketSet::spec_scan(
                old(sockets)@,
                0,
                segments@[0].0,
                segments@[0].1,
            ) is None && spec_resets(segments@[0].0, segments@[0].1, handled_by_raw_socket)
                ==> Socket::spec_rst_fits(segments@[0].1),
        ensures
            segments@.len() == 0 ==> r is None && final(sockets)@ == old(sockets)@,
            segments@.len() > 0 ==> match SocketSet::spec_scan(
                old(sockets)@,
                0,
                segments@[0].0,
                segments@[0].1,
            ) {
                Some(handle) => exists|done: Processed<'frame>| #[trigger]
                    call_ensures(
                        process_batch,
                        (handle, SocketSet::spec_tcp(old(sockets)@, handle)->0, segments),
                        done,
                    ) && final(sockets)@ == old(sockets)@.update(
                        handle.index as int,
                        SocketSlot::Tcp(done.socket),
                    ) && r == done.spec_packet(),
                None => {
                    &&& final(sockets)@ == old(sockets)@
                    &&& spec_is_unmatched_reply(
                        segments@[0].0,
                        segments@[0].1,
                        handled_by_raw_socket,
                        r,
                    )
                },
            },
    {
        if segments.len() == 0 {
            return None;
        }
        let (first_ip, first_tcp) = &segments[0];
        proof {
            assert(sockets.slots.len() == sockets@.len());
            lemma_scan(sockets@, 0, *first_ip, *first_tcp);
        }
        if let Some(handle) = sockets.scan(first_ip, first_tcp) {
            if let Some(socket) = sockets.tcp(handle) {
                let done = process_batch(handle, socket, segments);
                sockets.set_tcp(handle, done.socket);
                return done.packet();
            }
        }
        unmatched_reply(first_ip, first_tcp, handled_by_raw_socket)
    }

    /// Hands a batch of parsed segments, each with the frame it lies in, to the socket that the
    /// first of them is for.
    ///
    /// Apart from the frames this is [`InterfaceInner::process_tcp_batch`].
    pub fn process_tcp_batch_zero_copy<'frame, F>(
        &self,
        sockets: &mut SocketSet,
        handled_by_raw_socket: bool,
        segments: &'frame [(IpRepr, TcpRepr<'frame>, OpaqueFrameHandle)],
        process_batch: F,
    ) -> (r: Option<Packet<'frame>>) where
        F: FnOnce(
            SocketHandle,
            Socket,
            &'frame [(IpRepr, TcpRepr<'frame>, OpaqueFrameHandle)],
        ) -> Processed<'frame>,

        requires
            segments@.len() > 0 ==> forall|handle: SocketHandle, socket: Socket|
                SocketSet::spec_tcp(old(sockets)@, handle) == Some(socket) && socket.spec_accepts(
                    segments@[0].0,
                    segments@[0].1,
                ) ==> #[trigger] call_requires(process_batch, (handle, socket, segments)),
            segments@.len() > 0 && SocketSet::spec_scan(
                old(sockets)@,
                0,
                segments@[0].0,
                segments@[0].1,
            ) is None && spec_resets(segments@[0].0, segments@[0].1, handled_by_raw_socket)
                ==> Socket::spec_rst_fits(segments@[0].1),
        ensures
            segments@.len() == 0 ==> r is None && final(sockets)@ == old(sockets)@,
            segments@.len() > 0 ==> match SocketSet::spec_scan(
                old(sockets)@,
                0,
                segments@[0].0,
                segments@[0].1,
            ) {
                Some(handle) => exists|done: Processed<'frame>| #[trigger]
                    call_ensures(
                        process_batch,
                        (handle, SocketSet::spec_tcp(old(sockets)@, handle)->0, segments),
                        done,
                    ) && final(sockets)@ == old(sockets)@.update(
                        handle.index as int,
                        SocketSlot::Tcp(done.socket),
                    ) && r == done.spec_packet(),
                None => {
                    &&& final(sockets)@ == old(sockets)@
                    &&& spec_is_unmatched_reply(
                        segments@[0].0,
                        segments@[0].1,
                        handled_by_raw_socket,
                        r,
                    )
                },
            },
    {
        if segments.len() == 0 {
            return None;
        }
        let (first_ip, first_tcp, _) = &segments[0];
        proof {
            assert(sockets.slots.len() == sockets@.len());
            lemma_scan(sockets@, 0, *first_ip, *first_tcp);
        }
        if let Some(handle) = sockets.scan(first_ip, first_tcp) {
            if let Some(socket) = sockets.tcp(handle) {
                let done = process_batch(handle, socket, segments);
                sockets.set_tcp(handle, done.socket);
                return done.packet();
            }
        }
        unmatched_reply(first_ip, first_tcp, handled_by_raw_socket)
    }
}

/// Whether `socket`, which `handle` names, can be given the segment: by `process_zero_copy` with
/// the frame, if there is one, and otherwise by `process`.
pub open spec fn spec_can_step<'frame, F, Z>(
    process: F,
    process_zero_copy: Z,
    handle: SocketHandle,
    socket: Socket,
    ip_repr: IpRepr,
    tcp_repr: TcpRepr<'frame>,
    frame: Option<OpaqueFrameHandle>,
) -> bool where
    F: FnOnce(SocketHandle, Socket, IpRepr, TcpRepr<'frame>) -> Processed<'frame>,
    Z: FnOnce(
        SocketHandle,
        Socket,
        IpRepr,
        TcpRepr<'frame>,
        OpaqueFrameHandle,
    ) -> Processed<'frame>,
 {
    match frame {
        Some(fh) => call_requires(process_zero_copy, (handle, socket, ip_repr, tcp_repr, fh)),
        None => call_requires(process, (handle, socket, ip_repr, tcp_repr)),
    }
}

/// Whether `done` can come of giving the segment to `socket`, which `handle` names: by
/// `process_zero_copy` with the frame, if there is one, and otherwise by `process`.
pub open spec fn spec_stepped<'frame, F, Z>(
    process: F,
    process_zero_copy: Z,
    handle: SocketHandle,
    socket: Socket,
    ip_repr: IpRepr,
    tcp_repr: TcpRepr<'frame>,
    frame: Option<OpaqueFrameHandle>,
    done: Processed<'frame>,
) -> bool where
    F: FnOnce(SocketHandle, Socket, IpRepr, TcpRepr<'frame>) -> Processed<'frame>,
    Z: FnOnce(
        SocketHandle,
        Socket,
        IpRepr,
        TcpRepr<'frame>,
        OpaqueFrameHandle,
    ) -> Processed<'frame>,
 {
    match frame {
        Some(fh) => call_ensures(process_zero_copy, (handle, socket, ip_repr, tcp_repr, fh), done),
        None => call_ensures(process, (handle, socket, ip_repr, tcp_repr), done),
    }
}

/// What holds after a parsed segment has been handed to the socket it is for.
///
/// The socket that [`spec_route`] gives has processed the segment as [`spec_stepped`] says, and
/// stands in the set as it was left; the other sockets are as they were, and the reply is that of
/// the socket. Where there is no such socket, the sockets are as they were and the reply
/// is [`spec_is_unmatched_reply`].
pub open spec fn spec_is_processed<'frame, F, Z>(
    inner: InterfaceInner,
    slots: Seq<SocketSlot>,
    handled_by_raw_socket: bool,
    ip_repr: IpRepr,
    tcp_repr: TcpRepr<'frame>,
    process: F,
    process_zero_copy: Z,
    inner_after: InterfaceInner,
    slots_after: Seq<SocketSlot>,
    reply: Option<Packet<'frame>>,
) -> bool where
    F: FnOnce(SocketHandle, Socket, IpRepr, TcpRepr<'frame>) -> Processed<'frame>,
    Z: FnOnce(
        SocketHandle,
        Socket,
        IpRepr,
        TcpRepr<'frame>,
        OpaqueFrameHandle,
    ) -> Processed<'frame>,
 {
    let index = inner.tcp_socket_index@;
    let routed = spec_routed_index(index, slots, ip_repr, tcp_repr);
    let route = spec_route(index, slots, ip_repr, tcp_repr);
    match route.spec_target() {
        Some((handle, socket)) => exists|
            done: Processed<'frame>,
        | #[trigger]
            spec_stepped(
                process,
                process_zero_copy,
                handle,
                socket,
                ip_repr,
                tcp_repr,
                inner.pending_zc_handle,
                done,
            ) && slots_after == slots.update(handle.index as int, SocketSlot::Tcp(done.socket))
                && inner_after.tcp_socket_index@ == spec_settled_index(
                routed,
                spec_key(ip_repr, tcp_repr),
                done.socket,
                route.spec_scanned(),
            ) && reply == done.spec_packet(),
        None => {
            &&& inner_after.tcp_socket_index@ == routed
            &&& slots_after == slots
            &&& spec_is_unmatched_reply(ip_repr, tcp_repr, handled_by_raw_socket, reply)
        },
    }
}

/// What the linear search gives: the first socket that accepts the segment.
pub proof fn lemma_scan(slots: Seq<SocketSlot>, from: int, ip_repr: IpRepr, repr: TcpRepr)
    requires
        0 <= from,
        slots.len() <= usize::MAX + 1,
    ensures
        match SocketSet::spec_scan(slots, from, ip_repr, repr) {
            Some(first) => {
                &&& from <= first.index
                &&& SocketSet::spec_accepting(slots, first, ip_repr, repr)
                &&& forall|handle: SocketHandle|
                    from <= handle.index < first.index ==> !#[trigger] SocketSet::spec_accepting(
                        slots,
                        handle,
                        ip_repr,
                        repr,
                    )
            },
            None => forall|handle: SocketHandle|
                from <= handle.index ==> !#[trigger] SocketSet::spec_accepting(
                    slots,
                    handle,
                    ip_repr,
                    repr,
                ),
        },
    decreases slots.len() - from,
{
    if from < slots.len() {
        let here = SocketHandle { index: from as usize };
        if !SocketSet::spec_accepting(slots, here, ip_repr, repr) {
            lemma_scan(slots, from + 1, ip_repr, repr);
            assert forall|handle: SocketHandle| handle.index == from implies handle == here by {}
        }
    }
}

/// A segment goes to a socket that stands in the set and accepts it.
pub proof fn lemma_route_accepts(
    index: Map<Key, SocketHandle>,
    slots: Seq<SocketSlot>,
    ip_repr: IpRepr,
    repr: TcpRepr,
)
    requires
        slots.len() <= usize::MAX + 1,
    ensures
        match spec_route(index, slots, ip_repr, repr).spec_target() {
            Some((handle, socket)) => {
                &&& SocketSet::spec_tcp(slots, handle) == Some(socket)
                &&& socket.spec_accepts(ip_repr, repr)
            },
            None => forall|handle: SocketHandle|
                !#[trigger] SocketSet::spec_accepting(slots, handle, ip_repr, repr),
        },
{
    lemma_scan(slots, 0, ip_repr, repr);
}

} // verus!
