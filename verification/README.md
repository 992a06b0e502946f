# tcp_demux

Hands incoming TCP segments to sockets, and proves with Verus that it does so correctly.

A segment is looked up in a hash table of established connections first. Where the table has no
entry, or a stale one, the sockets are searched in order. A segment that no socket is for is
answered with a reset, where one may be sent. The table is kept up to date as connections open and
end.

- `src/wire.rs`: addresses, headers and packets.
- `src/fxhash.rs`: the hash of a connection key. Reading bytes in native order is taken from `std`
  and trusted.
- `src/tcp_socket_index.rs`: the table, with open addressing and backward-shift deletion. Its
  contracts speak of a map from connection keys to socket handles.
- `src/socket.rs`: what the choice of a socket reads of a TCP socket, the socket set, and the reset
  reply.
- `src/interface.rs`: the choice of a socket, the upkeep of the table, single segments and batches.
- `src/laws.rs`: what holds of all this as a whole.

Parsing a segment and running it through the state machine of a TCP socket are up to the caller,
who passes them in as closures. The contracts say what each closure is called with, and what
becomes of every outcome.
