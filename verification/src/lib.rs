//! Demultiplexing of TCP segments to sockets.

pub mod fxhash;
pub mod hash_laws;
pub mod index_laws;
pub mod interface;
pub mod laws;
pub mod segment_laws;
pub mod socket;
pub mod socket_laws;
pub mod tcp_socket_index;
pub mod wire;
pub mod wire_laws;
