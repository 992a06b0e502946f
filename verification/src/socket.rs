//! TCP sockets and the set they stand in, as far as the choice of a socket for a segment reads
//! them.
use vstd::prelude::*;

use crate::wire::{
    IpEndpoint, IpListenEndpoint, IpRepr, TcpControl, TcpRepr, TcpSeqNumber, TCP_HEADER_LEN,
};

verus! {

/// Names a slot of a [`SocketSet`]. Slots are used again, so a handle can outlive its socket.
#[derive(Clone, Copy, Debug, PartialEq, Eq, Structural)]
pub struct SocketHandle {
    pub index: usize,
}

impl SocketHandle {
    pub fn from_index(index: usize) -> (r: Self)
        ensures
            r == (SocketHandle { index }),
    {
        SocketHandle { index }
    }
}

/// The state of a TCP connection.
#[derive(Clone, Copy, Debug, PartialEq, Eq, Structural)]
pub enum State {
    Closed,
    Listen,
    SynSent,
    SynReceived,
    Established,
    FinWait1,
    FinWait2,
    CloseWait,
    Closing,
    LastAck,
    TimeWait,
}

/// The two ends of a connection.
#[derive(Clone, Copy, Debug, PartialEq, Eq, Structural)]
pub struct Tuple {
    pub local: IpEndpoint,
    pub remote: IpEndpoint,
}

/// A TCP socket: its state, what it listens on, and the connection it owns, if any.
#[derive(Clone, Copy, Debug, PartialEq, Eq)]
pub struct Socket {
    pub state: State,
    pub listen_endpoint: IpListenEndpoint,
    pub tuple: Option<Tuple>,
}

impl Socket {
    /// Whether the segment is for this socket.
    ///
    /// A closed socket takes nothing, and a listening one nothing that acknowledges something. A
    /// socket that owns a connection takes the segments of that connection, and one that owns
    /// none takes what arrives at the endpoint it listens on.
    pub open spec fn spec_accepts(self, ip_repr: IpRepr, repr: TcpRepr) -> bool {
        &&& self.state != State::Closed
        &&& !(self.state == State::Listen && repr.ack_number is Some)
        &&& match self.tuple {
            Some(tuple) => {
                &&& ip_repr.spec_dst_addr() == tuple.local.addr
                &&& repr.dst_port == tuple.local.port
                &&& ip_repr.spec_src_addr() == tuple.remote.addr
                &&& repr.src_port == tuple.remote.port
            },
            None => {
                &&& self.listen_endpoint.addr matches Some(addr) ==> ip_repr.spec_dst_addr() == addr
                &&& repr.dst_port != 0
                &&& repr.dst_port == self.listen_endpoint.port
            },
        }
    }

    pub fn accepts(&self, ip_repr: &IpRepr, repr: &TcpRepr) -> (r: bool)
        ensures
            r == self.spec_accepts(*ip_repr, *repr),
    {
        if self.state == State::Closed {
            return false;
        }
        if self.state == State::Listen && repr.ack_number.is_some() {
            return false;
        }
        match self.tuple {
            Some(tuple) => ip_repr.dst_addr() == tuple.local.addr && repr.dst_port
                == tuple.local.port && ip_repr.src_addr() == tuple.remote.addr && repr.src_port
                == tuple.remote.port,
            None => {
                let addr_ok = match self.listen_endpoint.addr {
                    Some(addr) => ip_repr.dst_addr() == addr,
                    None => true,
                };
                addr_ok && repr.dst_port != 0 && repr.dst_port == self.listen_endpoint.port
            },
        }
    }

    pub fn state(&self) -> (r: State)
        ensures
            r == self.state,
    {
        self.state
    }

    /// The local end of the connection that the socket owns.
    pub open spec fn spec_local_endpoint(self) -> Option<IpEndpoint> {
        match self.tuple {
            Some(tuple) => Some(tuple.local),
            None => None,
        }
    }

    /// The remote end of the connection that the socket owns.
    pub open spec fn spec_remote_endpoint(self) -> Option<IpEndpoint> {
        match self.tuple {
            Some(tuple) => Some(tuple.remote),
            None => None,
        }
    }

    pub fn local_endpoint(&self) -> (r: Option<IpEndpoint>)
        ensures
            r == self.spec_local_endpoint(),
    {
        match self.tuple {
            Some(tuple) => Some(tuple.local),
            None => None,
        }
    }

    pub fn remote_endpoint(&self) -> (r: Option<IpEndpoint>)
        ensures
            r == self.spec_remote_endpoint(),
    {
        match self.tuple {
            Some(tuple) => Some(tuple.remote),
            None => None,
        }
    }

    /// Whether `reply` is the reset that answers a segment no socket is for.
    ///
    /// It goes back between the two ends of the segment. It takes its sequence number from the
    /// acknowledgement, or is numbered zero where there is none, and acknowledges an opening
    /// segment that acknowledges nothing itself.
    pub open spec fn spec_is_rst_reply(
        ip_repr: IpRepr,
        repr: TcpRepr,
        ip_reply: IpRepr,
        reply: TcpRepr,
    ) -> bool {
        &&& ip_reply == ip_repr.spec_tcp_reply(TCP_HEADER_LEN)
        &&& reply.src_port == repr.dst_port
        &&& reply.dst_port == repr.src_port
        &&& reply.control == TcpControl::Rst
        &&& reply.seq_number == match repr.ack_number {
            Some(ack_number) => ack_number,
            None => TcpSeqNumber(0),
        }
        &&& reply.ack_number == if Self::spec_rst_acknowledges(repr) {
            Some(repr.seq_number.spec_advance(repr.spec_segment_len()))
        } else {
            None
        }
        &&& reply.window_len == 0
        &&& reply.window_scale is None
        &&& reply.max_seg_size is None
        &&& !reply.sack_permitted
        &&& reply.sack_ranges@ == seq![None::<(u32, u32)>, None, None]
        &&& reply.timestamp is None
        &&& reply.payload@.len() == 0
    }

    /// Whether the reset that answers the segment acknowledges it.
    pub open spec fn spec_rst_acknowledges(repr: TcpRepr) -> bool {
        repr.control == TcpControl::Syn && repr.ack_number is None
    }

    /// Whether the reset that answers the segment can be numbered: where it acknowledges the
    /// segment, that is shorter than half of the sequence space.
    pub open spec fn spec_rst_fits(repr: TcpRepr) -> bool {
        Self::spec_rst_acknowledges(repr) ==> repr.spec_segment_len() <= i32::MAX
    }

    /// The reset that answers a segment no socket is for. A reset is not answered.
    pub fn rst_reply(ip_repr: &IpRepr, repr: &TcpRepr) -> (r: (IpRepr, TcpRepr<'static>))
        requires
            repr.control != TcpControl::Rst,
            Self::spec_rst_fits(*repr),
        ensures
            Self::spec_is_rst_reply(*ip_repr, *repr, r.0, r.1),
    {
        let seq_number = match repr.ack_number {
            Some(ack_number) => ack_number,
            None => TcpSeqNumber(0),
        };
        let ack_number = if repr.control == TcpControl::Syn && repr.ack_number.is_none() {
            Some(repr.seq_number.advance(repr.segment_len()))
        } else {
            None
        };
        let reply = TcpRepr {
            src_port: repr.dst_port,
            dst_port: repr.src_port,
            control: TcpControl::Rst,
            seq_number,
            ack_number,
            window_len: 0,
            window_scale: None,
            max_seg_size: None,
            sack_permitted: false,
            sack_ranges: [None, None, None],
            timestamp: None,
            payload: &[],
        };
        assert(reply.sack_ranges@ =~= seq![None::<(u32, u32)>, None, None]);
        (ip_repr.tcp_reply(TCP_HEADER_LEN), reply)
    }
}

/// A slot of a socket set.
#[derive(Clone, Copy, Debug, PartialEq, Eq)]
pub enum SocketSlot {
    /// No socket stands here.
    Vacant,
    /// A TCP socket.
    Tcp(Socket),
    /// A socket of another protocol.
    Other,
}

/// Sockets by handle: the handle of a socket is the number of its slot.
pub struct SocketSet {
    pub slots: Vec<SocketSlot>,
}

impl View for SocketSet {
    type V = Seq<SocketSlot>;

    open spec fn view(&self) -> Seq<SocketSlot> {
        self.slots@
    }
}

impl SocketSet {
    /// The TCP socket that `handle` names, if a TCP socket stands there.
    pub open spec fn spec_tcp(slots: Seq<SocketSlot>, handle: SocketHandle) -> Option<Socket> {
        if handle.index < slots.len() {
            match slots[handle.index as int] {
                SocketSlot::Tcp(socket) => Some(socket),
                SocketSlot::Vacant | SocketSlot::Other => None,
            }
        } else {
            None
        }
    }

    /// Whether `handle` names a TCP socket that accepts the segment.
    pub open spec fn spec_accepting(
        slots: Seq<SocketSlot>,
        handle: SocketHandle,
        ip_repr: IpRepr,
        repr: TcpRepr,
    ) -> bool {
        Self::spec_tcp(slots, handle) matches Some(socket) && socket.spec_accepts(ip_repr, repr)
    }

    /// The first TCP socket, from slot `from` on, that accepts the segment.
    pub open spec fn spec_scan(
        slots: Seq<SocketSlot>,
        from: int,
        ip_repr: IpRepr,
        repr: TcpRepr,
    ) -> Option<SocketHandle>
        decreases slots.len() - from,
    {
        let handle = SocketHandle { index: from as usize };
        if from >= slots.len() {
            None
        } else if Self::spec_accepting(slots, handle, ip_repr, repr) {
            Some(handle)
        } else {
            Self::spec_scan(slots, from + 1, ip_repr, repr)
        }
    }

    pub fn tcp(&self, handle: SocketHandle) -> (r: Option<Socket>)
        ensures
            r == Self::spec_tcp(self@, handle),
    {
        if handle.index < self.slots.len() {
            match self.slots[handle.index] {
                SocketSlot::Tcp(socket) => Some(socket),
                SocketSlot::Vacant | SocketSlot::Other => None,
            }
        } else {
            None
        }
    }

    /// Linear search for the first TCP socket that accepts the segment.
    pub fn scan(&self, ip_repr: &IpRepr, repr: &TcpRepr) -> (r: Option<SocketHandle>)
        ensures
            r == Self::spec_scan(self@, 0, *ip_repr, *repr),
    {
        let mut i: usize = 0;
        while i < self.slots.len()
            invariant
                i <= self@.len(),
                Self::spec_scan(self@, 0, *ip_repr, *repr) == Self::spec_scan(
                    self@,
                    i as int,
                    *ip_repr,
                    *repr,
                ),
            decreases self@.len() - i,
        {
            let handle = SocketHandle { index: i };
            if let Some(socket) = self.tcp(handle) {
                if socket.accepts(ip_repr, repr) {
                    return Some(handle);
                }
            }
            i = i + 1;
        }
        None
    }

    /// Puts the TCP socket that `handle` names into a new condition.
    pub fn set_tcp(&mut self, handle: SocketHandle, socket: Socket)
        requires
            handle.index < old(self)@.len(),
        ensures
            final(self)@ == old(self)@.update(handle.index as int, SocketSlot::Tcp(socket)),
    {
        self.slots.set(handle.index, SocketSlot::Tcp(socket));
    }
}

} // verus!
