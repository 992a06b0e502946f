use tcp_demux::interface::{
    index_entry_is_dead, unmatched_reply, Checksum, ChecksumCapabilities, InterfaceInner,
    Malformed, OpaqueFrameHandle, Processed, Route,
};
use tcp_demux::socket::{Socket, SocketHandle, SocketSet, SocketSlot, State, Tuple};
use tcp_demux::wire::{
    IpAddress, IpEndpoint, IpListenEndpoint, IpPayload, IpProtocol, IpRepr, Ipv4Address, Ipv4Repr,
    Ipv6Address, Ipv6Repr, Packet, TcpControl, TcpRepr, TcpSeqNumber,
};

const UNSPECIFIED: Ipv6Address = Ipv6Address { a: 0, b: 0, c: 0, d: 0, e: 0, f: 0, g: 0, h: 0 };

fn here() -> Ipv6Address {
    Ipv6Address::new(0xfe80, 0, 0, 0, 0, 0, 0, 1)
}

fn there() -> Ipv6Address {
    Ipv6Address::new(0xfe80, 0, 0, 0, 0, 0, 0, 2)
}

fn segment(
    src_port: u16,
    dst_port: u16,
    control: TcpControl,
    seq_number: TcpSeqNumber,
    ack_number: Option<TcpSeqNumber>,
) -> TcpRepr<'static> {
    TcpRepr {
        src_port,
        dst_port,
        control,
        seq_number,
        ack_number,
        window_len: 256,
        window_scale: None,
        max_seg_size: None,
        sack_permitted: false,
        sack_ranges: [None, None, None],
        timestamp: None,
        payload: &[],
    }
}

/// A TCP header without options or checksum.
fn emit(tcp: &TcpRepr) -> Vec<u8> {
    let flags: u8 = match tcp.control {
        TcpControl::Plain => 0,
        TcpControl::Fin => 1,
        TcpControl::Syn => 2,
        TcpControl::Rst => 4,
        TcpControl::Psh => 8,
    };
    let ack = match tcp.ack_number {
        Some(n) => (n.0, 16),
        None => (0, 0),
    };
    let mut bytes = Vec::new();
    bytes.extend_from_slice(&tcp.src_port.to_be_bytes());
    bytes.extend_from_slice(&tcp.dst_port.to_be_bytes());
    bytes.extend_from_slice(&tcp.seq_number.0.to_be_bytes());
    bytes.extend_from_slice(&ack.0.to_be_bytes());
    bytes.push(5 << 4);
    bytes.push(flags | ack.1);
    bytes.extend_from_slice(&tcp.window_len.to_be_bytes());
    bytes.extend_from_slice(&[0, 0, 0, 0]);
    bytes.extend_from_slice(tcp.payload);
    bytes
}

/// Reads what `emit` writes.
fn parse<'a>(
    bytes: &'a [u8],
    _src_addr: IpAddress,
    _dst_addr: IpAddress,
    _checksum: ChecksumCapabilities,
) -> Result<TcpRepr<'a>, Malformed> {
    if bytes.len() < 20 || bytes[12] != 5 << 4 {
        return Err(Malformed);
    }
    let word = |i: usize| i32::from_be_bytes(bytes[i..i + 4].try_into().unwrap());
    let half = |i: usize| u16::from_be_bytes(bytes[i..i + 2].try_into().unwrap());
    let control = match bytes[13] & 15 {
        0 => TcpControl::Plain,
        1 => TcpControl::Fin,
        2 => TcpControl::Syn,
        4 => TcpControl::Rst,
        8 => TcpControl::Psh,
        _ => return Err(Malformed),
    };
    Ok(TcpRepr {
        src_port: half(0),
        dst_port: half(2),
        control,
        seq_number: TcpSeqNumber(word(4)),
        ack_number: if bytes[13] & 16 != 0 { Some(TcpSeqNumber(word(8))) } else { None },
        window_len: half(14),
        window_scale: None,
        max_seg_size: None,
        sack_permitted: false,
        sack_ranges: [None, None, None],
        timestamp: None,
        payload: &bytes[20..],
    })
}

fn ipv6_repr(src_addr: Ipv6Address, dst_addr: Ipv6Address) -> IpRepr {
    IpRepr::Ipv6(Ipv6Repr {
        src_addr,
        dst_addr,
        next_header: IpProtocol::Tcp,
        payload_len: 20,
        hop_limit: 64,
    })
}

fn interface() -> InterfaceInner {
    InterfaceInner::new(ChecksumCapabilities { tcp: Checksum::Both })
}

fn listening(port: u16) -> Socket {
    Socket {
        state: State::Listen,
        listen_endpoint: IpListenEndpoint { addr: None, port },
        tuple: None,
    }
}

fn connected(state: State, local_port: u16, remote_port: u16) -> Socket {
    Socket {
        state,
        listen_endpoint: IpListenEndpoint { addr: None, port: 0 },
        tuple: Some(Tuple {
            local: IpEndpoint { addr: IpAddress::Ipv6(here()), port: local_port },
            remote: IpEndpoint { addr: IpAddress::Ipv6(there()), port: remote_port },
        }),
    }
}

/// The sequence numbers of a TCP endpoint, and as much of the protocol as the tests below need.
struct Endpoint {
    isn: TcpSeqNumber,
    remote_next: TcpSeqNumber,
}

impl Endpoint {
    fn new() -> Self {
        Endpoint { isn: TcpSeqNumber(0x7fff_ffff), remote_next: TcpSeqNumber(0) }
    }

    fn process<'a>(&mut self, socket: Socket, ip: IpRepr, tcp: TcpRepr<'a>) -> Processed<'a> {
        let mut socket = socket;
        let mut reply = None;
        match (socket.state, tcp.control) {
            (State::Listen, TcpControl::Syn) => {
                self.remote_next = tcp.seq_number.advance(1);
                socket.state = State::SynReceived;
                socket.tuple = Some(Tuple {
                    local: IpEndpoint { addr: ip.dst_addr(), port: tcp.dst_port },
                    remote: IpEndpoint { addr: ip.src_addr(), port: tcp.src_port },
                });
            }
            (State::SynReceived, TcpControl::Rst) => {
                socket.state = State::Listen;
                socket.tuple = None;
            }
            (State::SynReceived, TcpControl::Plain) => {
                assert_eq!(tcp.ack_number, Some(self.isn.advance(1)));
                socket.state = State::Established;
            }
            (State::FinWait1, TcpControl::Plain) => {
                assert_eq!(tcp.ack_number, Some(self.isn.advance(2)));
                socket.state = State::FinWait2;
            }
            (State::FinWait2, TcpControl::Fin) => {
                self.remote_next = tcp.seq_number.advance(1);
                socket.state = State::TimeWait;
            }
            (State::TimeWait, TcpControl::Fin) => {
                let ack = TcpRepr {
                    src_port: tcp.dst_port,
                    dst_port: tcp.src_port,
                    control: TcpControl::Plain,
                    seq_number: self.isn.advance(2),
                    ack_number: Some(self.remote_next),
                    ..tcp
                };
                reply = Some((ip.tcp_reply(20), ack));
            }
            _ => panic!("no such step"),
        }
        Processed { socket, reply }
    }

    /// What the socket sends on its own.
    fn dispatch(&self, socket: Socket) -> Option<(TcpControl, TcpSeqNumber, Option<TcpSeqNumber>)> {
        match socket.state {
            State::SynReceived => Some((TcpControl::Syn, self.isn, Some(self.remote_next))),
            State::FinWait1 => {
                Some((TcpControl::Fin, self.isn.advance(1), Some(self.remote_next)))
            }
            _ => None,
        }
    }
}

/// Drives one TCP segment through `process_tcp`, and returns the sequence and acknowledgement
/// numbers of the reply.
fn feed_tcp(
    iface: &mut InterfaceInner,
    sockets: &mut SocketSet,
    endpoint: &mut Endpoint,
    remote_port: u16,
    control: TcpControl,
    seq_number: TcpSeqNumber,
    ack_number: Option<TcpSeqNumber>,
) -> Option<(TcpSeqNumber, Option<TcpSeqNumber>)> {
    let tcp_bytes = emit(&segment(remote_port, 4243, control, seq_number, ack_number));
    let reply = iface.process_tcp(
        sockets,
        false,
        ipv6_repr(there(), here()),
        &tcp_bytes,
        parse,
        |_, socket, ip, tcp| endpoint.process(socket, ip, tcp),
        |_, _, _, _, _| unreachable!(),
    );
    reply.map(|packet| match packet.payload {
        IpPayload::Tcp(tcp) => (tcp.seq_number, tcp.ack_number),
    })
}

fn tcp_at(sockets: &SocketSet, handle: SocketHandle) -> Socket {
    sockets.tcp(handle).unwrap()
}

#[test]
fn tcp_index_releases_the_slot_on_entering_time_wait() {
    let remote_isn = TcpSeqNumber(-10001);
    let remote_port: u16 = 1024;

    let mut iface = interface();
    let mut endpoint = Endpoint::new();
    let mut sockets = SocketSet { slots: vec![SocketSlot::Tcp(listening(4243))] };
    let handle = SocketHandle::from_index(0);

    // Handshake.
    feed_tcp(
        &mut iface,
        &mut sockets,
        &mut endpoint,
        remote_port,
        TcpControl::Syn,
        remote_isn,
        None,
    );
    let (control, local_isn, _) = endpoint
        .dispatch(tcp_at(&sockets, handle))
        .expect("a SYN-ACK should have been emitted");
    assert_eq!(control, TcpControl::Syn);
    feed_tcp(
        &mut iface,
        &mut sockets,
        &mut endpoint,
        remote_port,
        TcpControl::Plain,
        remote_isn.advance(1),
        Some(local_isn.advance(1)),
    );
    assert_eq!(tcp_at(&sockets, handle).state(), State::Established);
    assert_eq!(iface.tcp_socket_index.len(), 1);

    // Close from this end, so that the connection ends in TIME-WAIT.
    let mut closing = tcp_at(&sockets, handle);
    closing.state = State::FinWait1;
    sockets.set_tcp(handle, closing);
    let (control, ..) = endpoint
        .dispatch(tcp_at(&sockets, handle))
        .expect("a FIN should have been emitted");
    assert_eq!(control, TcpControl::Fin);

    // The FIN is acknowledged, then the peer sends its own.
    feed_tcp(
        &mut iface,
        &mut sockets,
        &mut endpoint,
        remote_port,
        TcpControl::Plain,
        remote_isn.advance(1),
        Some(local_isn.advance(2)),
    );
    assert_eq!(tcp_at(&sockets, handle).state(), State::FinWait2);
    assert_eq!(
        iface.tcp_socket_index.len(),
        1,
        "FIN-WAIT-2 is still a live connection"
    );

    feed_tcp(
        &mut iface,
        &mut sockets,
        &mut endpoint,
        remote_port,
        TcpControl::Fin,
        remote_isn.advance(1),
        Some(local_isn.advance(2)),
    );
    assert_eq!(tcp_at(&sockets, handle).state(), State::TimeWait);
    assert_eq!(
        iface.tcp_socket_index.len(),
        0,
        "TIME-WAIT should not hold an index slot"
    );

    // Losing the slot must not lose the connection: a repeated FIN is still found by the linear
    // search and still acknowledged.
    let reply = feed_tcp(
        &mut iface,
        &mut sockets,
        &mut endpoint,
        remote_port,
        TcpControl::Fin,
        remote_isn.advance(1),
        Some(local_isn.advance(2)),
    );
    assert_eq!(
        reply,
        Some((local_isn.advance(2), Some(remote_isn.advance(2)))),
        "the retransmitted FIN should have been re-acknowledged"
    );
    assert_eq!(
        iface.tcp_socket_index.len(),
        0,
        "answering from the scan must not re-index the connection"
    );
}

#[test]
fn tcp_index_reclaims_slots_across_connection_lifetimes() {
    let mut iface = interface();
    let mut endpoint = Endpoint::new();
    let mut sockets = SocketSet { slots: vec![SocketSlot::Tcp(listening(4243))] };
    let handle = SocketHandle::from_index(0);

    // Far more connections than the table has slots.
    for n in 0..512u16 {
        let remote_port = 1024 + n;
        feed_tcp(
            &mut iface,
            &mut sockets,
            &mut endpoint,
            remote_port,
            TcpControl::Syn,
            TcpSeqNumber(-10001),
            None,
        );
        assert_eq!(
            tcp_at(&sockets, handle).state(),
            State::SynReceived,
            "lifetime {n} should have been accepted"
        );

        // A reset puts the socket back to listening, and takes the connection from it.
        feed_tcp(
            &mut iface,
            &mut sockets,
            &mut endpoint,
            remote_port,
            TcpControl::Rst,
            TcpSeqNumber(-10000),
            Some(TcpSeqNumber(0)),
        );
        assert_eq!(
            tcp_at(&sockets, handle).state(),
            State::Listen,
            "lifetime {n} should have been reset"
        );

        assert_eq!(
            iface.tcp_socket_index.len(),
            0,
            "lifetime {n} left an entry behind"
        );
    }

    // The index is still usable rather than full for good.
    feed_tcp(
        &mut iface,
        &mut sockets,
        &mut endpoint,
        9999,
        TcpControl::Syn,
        TcpSeqNumber(-10001),
        None,
    );
    assert_eq!(
        iface.tcp_socket_index.get(
            IpAddress::Ipv6(Ipv6Address::new(0xfe80, 0, 0, 0, 0, 0, 0, 1)),
            4243,
            IpAddress::Ipv6(Ipv6Address::new(0xfe80, 0, 0, 0, 0, 0, 0, 2)),
            9999,
        ),
        Some(handle)
    );
}

#[test]
fn tcp_not_accepted() {
    let mut iface = interface();
    let mut sockets = SocketSet { slots: vec![] };
    let tcp = segment(4242, 4243, TcpControl::Syn, TcpSeqNumber(-10001), None);
    let tcp_bytes = emit(&tcp);

    assert_eq!(
        iface.process_tcp(
            &mut sockets,
            false,
            IpRepr::Ipv6(Ipv6Repr {
                src_addr: Ipv6Address::new(0xfe80, 0, 0, 0, 0, 0, 0, 2),
                dst_addr: Ipv6Address::new(0xfe80, 0, 0, 0, 0, 0, 0, 1),
                next_header: IpProtocol::Tcp,
                payload_len: tcp_bytes.len(),
                hop_limit: 64,
            }),
            &tcp_bytes,
            parse,
            |_, _, _, _| unreachable!(),
            |_, _, _, _, _| unreachable!(),
        ),
        Some(Packet::new(
            IpRepr::Ipv6(Ipv6Repr {
                src_addr: Ipv6Address::new(0xfe80, 0, 0, 0, 0, 0, 0, 1),
                dst_addr: Ipv6Address::new(0xfe80, 0, 0, 0, 0, 0, 0, 2),
                next_header: IpProtocol::Tcp,
                payload_len: tcp_bytes.len(),
                hop_limit: 64,
            }),
            IpPayload::Tcp(TcpRepr {
                src_port: 4243,
                dst_port: 4242,
                control: TcpControl::Rst,
                seq_number: TcpSeqNumber(0),
                ack_number: Some(TcpSeqNumber(-10000)),
                window_len: 0,
                window_scale: None,
                max_seg_size: None,
                sack_permitted: false,
                sack_ranges: [None, None, None],
                timestamp: None,
                payload: &[],
            })
        ))
    );

    // Unspecified destination address.
    assert_eq!(
        iface.process_tcp(
            &mut sockets,
            false,
            IpRepr::Ipv6(Ipv6Repr {
                src_addr: Ipv6Address::new(0xfe80, 0, 0, 0, 0, 0, 0, 2),
                dst_addr: UNSPECIFIED,
                next_header: IpProtocol::Tcp,
                payload_len: tcp_bytes.len(),
                hop_limit: 64,
            }),
            &tcp_bytes,
            parse,
            |_, _, _, _| unreachable!(),
            |_, _, _, _, _| unreachable!(),
        ),
        None,
    );
}

#[test]
fn a_reset_is_sent_only_where_it_may_be() {
    let ip = ipv6_repr(there(), here());
    let data = segment(1, 2, TcpControl::Psh, TcpSeqNumber(5), Some(TcpSeqNumber(77)));
    let reset = segment(1, 2, TcpControl::Rst, TcpSeqNumber(5), None);

    assert!(unmatched_reply(&ip, &data, false).is_some());
    assert_eq!(unmatched_reply(&ip, &data, true), None);
    assert_eq!(unmatched_reply(&ip, &reset, false), None);
    assert_eq!(unmatched_reply(&ipv6_repr(UNSPECIFIED, here()), &data, false), None);
    assert_eq!(unmatched_reply(&ipv6_repr(there(), UNSPECIFIED), &data, false), None);
}

#[test]
fn a_reset_takes_its_number_from_the_acknowledgement() {
    let ip = IpRepr::Ipv4(Ipv4Repr {
        src_addr: Ipv4Address::new(10, 0, 0, 2),
        dst_addr: Ipv4Address::new(10, 0, 0, 1),
        next_header: IpProtocol::Tcp,
        payload_len: 23,
        hop_limit: 3,
    });
    let mut data = segment(1, 2, TcpControl::Plain, TcpSeqNumber(5), Some(TcpSeqNumber(77)));
    data.payload = &[1, 2, 3];

    let (reply_ip, reply) = Socket::rst_reply(&ip, &data);
    assert_eq!(reply_ip.src_addr(), IpAddress::v4(10, 0, 0, 1));
    assert_eq!(reply_ip.dst_addr(), IpAddress::v4(10, 0, 0, 2));
    assert_eq!(reply.seq_number, TcpSeqNumber(77));
    assert_eq!(reply.ack_number, None);

    // An opening segment is acknowledged with all that it takes up, across the top of the
    // sequence space.
    data.control = TcpControl::Syn;
    data.seq_number = TcpSeqNumber(i32::MAX);
    data.ack_number = None;
    let (_, reply) = Socket::rst_reply(&ip, &data);
    assert_eq!(reply.seq_number, TcpSeqNumber(0));
    assert_eq!(reply.ack_number, Some(TcpSeqNumber(i32::MIN + 3)));

    // Without an acknowledgement and without an opening there is nothing to go by.
    data.control = TcpControl::Fin;
    let (_, reply) = Socket::rst_reply(&ip, &data);
    assert_eq!(reply.seq_number, TcpSeqNumber(0));
    assert_eq!(reply.ack_number, None);

    // The reset is not answered in turn.
    assert_eq!(unmatched_reply(&reply_ip, &reply, false), None);
}

#[test]
fn a_malformed_segment_is_dropped_and_the_frame_stays_pending() {
    let mut iface = interface();
    iface.pending_zc_handle = Some(OpaqueFrameHandle { id: 9 });
    let mut sockets = SocketSet { slots: vec![SocketSlot::Tcp(listening(4243))] };
    let reply = iface.process_tcp(
        &mut sockets,
        false,
        ipv6_repr(there(), here()),
        &[0; 19],
        parse,
        |_, _, _, _| unreachable!(),
        |_, _, _, _, _| unreachable!(),
    );
    assert_eq!(reply, None);
    assert_eq!(iface.pending_zc_handle, Some(OpaqueFrameHandle { id: 9 }));
    assert_eq!(sockets.slots, vec![SocketSlot::Tcp(listening(4243))]);
}

#[test]
fn the_parser_gets_the_packet_the_addresses_and_the_checksum_behaviour() {
    let mut iface = interface();
    let mut sockets = SocketSet { slots: vec![] };
    let mut seen = None;
    let bytes = [7u8, 8, 9];
    iface.process_tcp(
        &mut sockets,
        false,
        ipv6_repr(there(), here()),
        &bytes,
        |bytes, src_addr, dst_addr, checksum| {
            seen = Some((bytes.to_vec(), src_addr, dst_addr, checksum));
            Err(Malformed)
        },
        |_, _, _, _| unreachable!(),
        |_, _, _, _, _| unreachable!(),
    );
    assert_eq!(
        seen,
        Some((
            vec![7, 8, 9],
            IpAddress::Ipv6(there()),
            IpAddress::Ipv6(here()),
            ChecksumCapabilities { tcp: Checksum::Both }
        ))
    );
}

#[test]
fn the_pending_frame_goes_to_the_socket() {
    let mut iface = interface();
    let mut sockets = SocketSet {
        slots: vec![SocketSlot::Tcp(connected(State::Established, 4243, 1024))],
    };
    let ip = ipv6_repr(there(), here());
    let data = segment(1024, 4243, TcpControl::Psh, TcpSeqNumber(5), Some(TcpSeqNumber(77)));

    // Found by the search, then by the index.
    for round in 0..2 {
        iface.pending_zc_handle = Some(OpaqueFrameHandle { id: round });
        let mut got = None;
        iface.process_tcp_repr(
            &mut sockets,
            false,
            ip,
            data,
            |_, _, _, _| unreachable!(),
            |handle, socket, ip, tcp, frame| {
                got = Some((handle, ip, tcp, frame));
                Processed { socket, reply: None }
            },
        );
        assert_eq!(
            got,
            Some((SocketHandle::from_index(0), ip, data, OpaqueFrameHandle { id: round }))
        );
        assert_eq!(iface.pending_zc_handle, None);
    }

    // Without a pending frame the segment is processed in the regular way.
    let mut got = None;
    iface.process_tcp_repr(
        &mut sockets,
        false,
        ip,
        data,
        |handle, socket, ip, tcp| {
            got = Some((handle, ip, tcp));
            Processed { socket, reply: None }
        },
        |_, _, _, _, _| unreachable!(),
    );
    assert_eq!(got, Some((SocketHandle::from_index(0), ip, data)));

    // A frame whose segment no socket takes is let go.
    iface.pending_zc_handle = Some(OpaqueFrameHandle { id: 5 });
    sockets.slots[0] = SocketSlot::Vacant;
    let reply = iface.process_tcp_repr(
        &mut sockets,
        true,
        ipv6_repr(there(), here()),
        data,
        |_, _, _, _| unreachable!(),
        |_, _, _, _, _| unreachable!(),
    );
    assert_eq!(reply, None);
    assert_eq!(iface.pending_zc_handle, None);
}

#[test]
fn a_stale_entry_is_evicted_and_the_search_goes_on() {
    let ip = ipv6_repr(there(), here());
    let data = segment(1024, 4243, TcpControl::Plain, TcpSeqNumber(5), Some(TcpSeqNumber(77)));
    let owner = connected(State::Established, 4243, 1024);
    let (l, r) = (IpAddress::Ipv6(here()), IpAddress::Ipv6(there()));

    let stale = [
        SocketSlot::Vacant,
        SocketSlot::Other,
        SocketSlot::Tcp(connected(State::Established, 4243, 2000)),
        SocketSlot::Tcp(connected(State::Closed, 4243, 1024)),
    ];
    for slot in stale {
        let mut iface = interface();
        iface.tcp_socket_index.insert(l, 4243, r, 1024, SocketHandle::from_index(0));
        // The live connection of the slot has an entry of its own, which stays.
        iface.tcp_socket_index.insert(l, 4243, r, 2000, SocketHandle::from_index(0));

        let alone = SocketSet { slots: vec![slot] };
        assert_eq!(iface.route_tcp(&alone, &ip, &data), Route::Unmatched);
        assert_eq!(iface.tcp_socket_index.get(l, 4243, r, 1024), None);
        assert_eq!(
            iface.tcp_socket_index.get(l, 4243, r, 2000),
            Some(SocketHandle::from_index(0))
        );

        iface.tcp_socket_index.insert(l, 4243, r, 1024, SocketHandle::from_index(0));
        let both = SocketSet { slots: vec![slot, SocketSlot::Other, SocketSlot::Tcp(owner)] };
        assert_eq!(
            iface.route_tcp(&both, &ip, &data),
            Route::Scanned(SocketHandle::from_index(2), owner)
        );
    }

    // A handle beyond the set.
    let mut iface = interface();
    iface.tcp_socket_index.insert(l, 4243, r, 1024, SocketHandle::from_index(50));
    let both = SocketSet { slots: vec![SocketSlot::Tcp(owner)] };
    assert_eq!(
        iface.route_tcp(&both, &ip, &data),
        Route::Scanned(SocketHandle::from_index(0), owner)
    );
    assert_eq!(iface.tcp_socket_index.len(), 0);
}

#[test]
fn the_index_does_not_change_where_a_segment_goes() {
    let ip = ipv6_repr(there(), here());
    let data = segment(1024, 4243, TcpControl::Plain, TcpSeqNumber(5), Some(TcpSeqNumber(77)));
    let owner = connected(State::Established, 4243, 1024);
    let sockets = SocketSet {
        slots: vec![
            SocketSlot::Tcp(listening(4243)),
            SocketSlot::Tcp(connected(State::Established, 4243, 1025)),
            SocketSlot::Tcp(owner),
        ],
    };
    let handle = SocketHandle::from_index(2);
    let (l, r) = (IpAddress::Ipv6(here()), IpAddress::Ipv6(there()));

    let mut iface = interface();
    assert_eq!(iface.route_tcp(&sockets, &ip, &data), Route::Scanned(handle, owner));
    iface.tcp_socket_index.insert(l, 4243, r, 1024, handle);
    assert_eq!(iface.route_tcp(&sockets, &ip, &data), Route::Indexed(handle, owner));
    iface.tcp_socket_index.insert(l, 4243, r, 1024, SocketHandle::from_index(1));
    assert_eq!(iface.route_tcp(&sockets, &ip, &data), Route::Scanned(handle, owner));

    // An opening segment that repeats the four values is another matter: the listening socket
    // would take it too, and stands first.
    let syn = segment(1024, 4243, TcpControl::Syn, TcpSeqNumber(5), None);
    assert_eq!(
        iface.route_tcp(&sockets, &ip, &syn),
        Route::Scanned(SocketHandle::from_index(0), listening(4243))
    );
    iface.tcp_socket_index.insert(l, 4243, r, 1024, handle);
    assert_eq!(iface.route_tcp(&sockets, &ip, &syn), Route::Indexed(handle, owner));
}

#[test]
fn a_connection_that_does_not_fit_the_index_is_served_by_the_search() {
    let ip = ipv6_repr(there(), here());
    let (l, r) = (IpAddress::Ipv6(here()), IpAddress::Ipv6(there()));
    let mut iface = interface();
    for n in 0..64u16 {
        assert!(iface.tcp_socket_index.insert(l, 80, r, n, SocketHandle::from_index(0)));
    }
    let owner = connected(State::Established, 4243, 1024);
    let mut sockets = SocketSet { slots: vec![SocketSlot::Tcp(owner)] };
    let data = segment(1024, 4243, TcpControl::Plain, TcpSeqNumber(5), Some(TcpSeqNumber(77)));
    for _ in 0..2 {
        let mut calls = 0;
        iface.process_tcp_repr(
            &mut sockets,
            false,
            ip,
            data,
            |_, socket, _, _| {
                calls += 1;
                Processed { socket, reply: None }
            },
            |_, _, _, _, _| unreachable!(),
        );
        assert_eq!(calls, 1);
        assert_eq!(iface.tcp_socket_index.get(l, 4243, r, 1024), None);
        assert_eq!(iface.tcp_socket_index.len(), 64);
    }

    // Once a slot is free it is indexed, and found by the index.
    iface.tcp_socket_index.remove(l, 80, r, 3);
    iface.process_tcp_repr(
        &mut sockets,
        false,
        ip,
        data,
        |_, socket, _, _| Processed { socket, reply: None },
        |_, _, _, _, _| unreachable!(),
    );
    assert_eq!(
        iface.route_tcp(&sockets, &ip, &data),
        Route::Indexed(SocketHandle::from_index(0), owner)
    );
    // The other connections are as they were.
    for n in 0..64u16 {
        let expected = if n == 3 { None } else { Some(SocketHandle::from_index(0)) };
        assert_eq!(iface.tcp_socket_index.get(l, 80, r, n), expected);
    }
}

#[test]
fn an_entry_is_dead_when_the_socket_is_done_or_owns_another_connection() {
    let (l, r) = (IpAddress::Ipv6(here()), IpAddress::Ipv6(there()));
    let live = [
        State::Listen,
        State::SynSent,
        State::SynReceived,
        State::Established,
        State::FinWait1,
        State::FinWait2,
        State::CloseWait,
        State::Closing,
        State::LastAck,
    ];
    for state in live {
        let socket = connected(state, 4243, 1024);
        assert!(!index_entry_is_dead(&socket, l, 4243, r, 1024));
        assert!(index_entry_is_dead(&socket, r, 4243, r, 1024));
        assert!(index_entry_is_dead(&socket, l, 4244, r, 1024));
        assert!(index_entry_is_dead(&socket, l, 4243, l, 1024));
        assert!(index_entry_is_dead(&socket, l, 4243, r, 1025));
    }
    assert!(index_entry_is_dead(&connected(State::Closed, 4243, 1024), l, 4243, r, 1024));
    assert!(index_entry_is_dead(&connected(State::TimeWait, 4243, 1024), l, 4243, r, 1024));
    assert!(index_entry_is_dead(&listening(4243), l, 4243, r, 1024));
}

#[test]
fn settling_enters_only_what_the_search_found() {
    let (l, r) = (IpAddress::Ipv6(here()), IpAddress::Ipv6(there()));
    let owner = connected(State::Established, 4243, 1024);
    let mut iface = interface();
    iface.settle_tcp(l, 4243, r, 1024, &owner, None);
    assert_eq!(iface.tcp_socket_index.len(), 0);
    iface.settle_tcp(l, 4243, r, 1024, &owner, Some(SocketHandle::from_index(6)));
    assert_eq!(
        iface.tcp_socket_index.get(l, 4243, r, 1024),
        Some(SocketHandle::from_index(6))
    );
    iface.settle_tcp(l, 4243, r, 1024, &owner, None);
    assert_eq!(iface.tcp_socket_index.len(), 1);
    iface.settle_tcp(l, 4243, r, 1024, &listening(4243), None);
    assert_eq!(iface.tcp_socket_index.len(), 0);
    iface.settle_tcp(l, 4243, r, 1024, &listening(4243), Some(SocketHandle::from_index(6)));
    assert_eq!(iface.tcp_socket_index.len(), 0);
}

#[test]
fn a_socket_accepts_what_is_its_own() {
    let ip = ipv6_repr(there(), here());
    let syn = segment(1024, 4243, TcpControl::Syn, TcpSeqNumber(5), None);
    let ack = segment(1024, 4243, TcpControl::Plain, TcpSeqNumber(5), Some(TcpSeqNumber(7)));

    assert!(listening(4243).accepts(&ip, &syn));
    assert!(!listening(4243).accepts(&ip, &ack));
    assert!(!listening(4244).accepts(&ip, &syn));

    let mut bound = listening(4243);
    bound.listen_endpoint.addr = Some(IpAddress::Ipv6(here()));
    assert!(bound.accepts(&ip, &syn));
    bound.listen_endpoint.addr = Some(IpAddress::Ipv6(there()));
    assert!(!bound.accepts(&ip, &syn));

    let mut zero = syn;
    zero.dst_port = 0;
    assert!(!listening(0).accepts(&ip, &zero));

    assert!(connected(State::Established, 4243, 1024).accepts(&ip, &ack));
    assert!(!connected(State::Established, 4243, 1025).accepts(&ip, &ack));
    assert!(!connected(State::Established, 4242, 1024).accepts(&ip, &ack));
    assert!(!connected(State::Closed, 4243, 1024).accepts(&ip, &ack));
    assert!(!connected(State::Established, 4243, 1024).accepts(&ipv6_repr(here(), there()), &ack));
}

#[test]
fn a_batch_goes_to_the_socket_of_its_first_segment() {
    let iface = interface();
    let owner = connected(State::Established, 4243, 1024);
    let mut sockets = SocketSet {
        slots: vec![SocketSlot::Vacant, SocketSlot::Other, SocketSlot::Tcp(owner)],
    };
    let ip = ipv6_repr(there(), here());
    let first = segment(1024, 4243, TcpControl::Plain, TcpSeqNumber(5), Some(TcpSeqNumber(7)));
    let second = segment(1024, 4243, TcpControl::Fin, TcpSeqNumber(6), Some(TcpSeqNumber(7)));
    let segments = [(ip, first), (ip, second)];

    let reply = iface.process_tcp_batch(&mut sockets, false, &segments, |handle, socket, all| {
        assert_eq!(handle, SocketHandle::from_index(2));
        assert_eq!(all, &segments[..]);
        let mut socket = socket;
        socket.state = State::CloseWait;
        Processed { socket, reply: Some((ip.tcp_reply(20), first)) }
    });
    assert_eq!(reply, Some(Packet::new(ip.tcp_reply(20), IpPayload::Tcp(first))));
    assert_eq!(tcp_at(&sockets, SocketHandle::from_index(2)).state(), State::CloseWait);
    assert_eq!(iface.tcp_socket_index.len(), 0);

    // Nothing in, nothing out.
    assert_eq!(iface.process_tcp_batch(&mut sockets, false, &[], |_, _, _| unreachable!()), None);

    // No socket: the first segment is answered.
    let stray = [(ip, segment(1, 2, TcpControl::Plain, TcpSeqNumber(5), Some(TcpSeqNumber(7))))];
    let reply = iface.process_tcp_batch(&mut sockets, false, &stray, |_, _, _| unreachable!());
    assert_eq!(reply, unmatched_reply(&ip, &stray[0].1, false));
    assert!(reply.is_some());
    assert_eq!(
        iface.process_tcp_batch(&mut sockets, true, &stray, |_, _, _| unreachable!()),
        None
    );
}

#[test]
fn a_batch_with_frames_goes_to_the_socket_of_its_first_segment() {
    let iface = interface();
    let owner = connected(State::Established, 4243, 1024);
    let mut sockets = SocketSet { slots: vec![SocketSlot::Tcp(owner)] };
    let ip = ipv6_repr(there(), here());
    let first = segment(1024, 4243, TcpControl::Plain, TcpSeqNumber(5), Some(TcpSeqNumber(7)));
    let segments = [(ip, first, OpaqueFrameHandle { id: 4 })];

    let reply =
        iface.process_tcp_batch_zero_copy(&mut sockets, false, &segments, |handle, socket, all| {
            assert_eq!(handle, SocketHandle::from_index(0));
            assert_eq!(all[0].2, OpaqueFrameHandle { id: 4 });
            let mut socket = socket;
            socket.state = State::LastAck;
            Processed { socket, reply: None }
        });
    assert_eq!(reply, None);
    assert_eq!(tcp_at(&sockets, SocketHandle::from_index(0)).state(), State::LastAck);

    assert_eq!(
        iface.process_tcp_batch_zero_copy(&mut sockets, false, &[], |_, _, _| unreachable!()),
        None
    );

    let stray = [(
        ip,
        segment(1, 2, TcpControl::Syn, TcpSeqNumber(5), None),
        OpaqueFrameHandle { id: 4 },
    )];
    let reply =
        iface.process_tcp_batch_zero_copy(&mut sockets, false, &stray, |_, _, _| unreachable!());
    assert_eq!(reply, unmatched_reply(&ip, &stray[0].1, false));
    assert!(reply.is_some());
}
