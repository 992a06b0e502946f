//! What holds of calls of the connection index, one after the other.
use vstd::prelude::*;

use crate::socket::SocketHandle;
use crate::tcp_socket_index::{Key, TcpSocketIndex};

verus! {

/// What `get` gives for `key`.
pub open spec fn gets(index: TcpSocketIndex, key: Key, r: Option<SocketHandle>) -> bool {
    call_ensures(
        TcpSocketIndex::get,
        (&index, key.local_addr, key.local_port, key.remote_addr, key.remote_port),
        r,
    )
}

/// `get` reads the map at the four values that it is given.
pub proof fn law_get_reads_the_map(index: TcpSocketIndex, key: Key, r: Option<SocketHandle>)
    requires
        index.wf(),
        gets(index, key, r),
    ensures
        r is Some <==> index@.dom().contains(key),
        r is Some ==> index@[key] == r->0,
{
}

/// A new index gives nothing and counts nothing.
pub proof fn law_new_is_empty(
    index: TcpSocketIndex,
    key: Key,
    got: Option<SocketHandle>,
    len: usize,
)
    requires
        call_ensures(TcpSocketIndex::new, (), index),
        gets(index, key, got),
        call_ensures(TcpSocketIndex::len, (&index,), len),
    ensures
        index.wf(),
        got is None,
        len == 0,
{
}

/// An insertion succeeds exactly if the key was found before or fewer than 64 were counted. If it
/// does, the key is found with the new handle, and the count goes up by one for a key that was not
/// found before; if it does not, the key is still not found and the count is the same.
pub proof fn law_insert(
    index: &mut TcpSocketIndex,
    key: Key,
    handle: SocketHandle,
    r: bool,
    before: Option<SocketHandle>,
    len_before: usize,
    after: Option<SocketHandle>,
    len_after: usize,
)
    requires
        old(index).wf(),
        gets(*old(index), key, before),
        call_ensures(TcpSocketIndex::len, (&*old(index),), len_before),
        call_ensures(
            TcpSocketIndex::insert,
            (index, key.local_addr, key.local_port, key.remote_addr, key.remote_port, handle),
            r,
        ),
        gets(*final(index), key, after),
        call_ensures(TcpSocketIndex::len, (&*final(index),), len_after),
    ensures
        final(index).wf(),
        r <==> (before is Some || len_before < 64),
        after == if r {
            Some(handle)
        } else {
            None
        },
        len_after == if r && before is None {
            len_before + 1
        } else {
            len_before as int
        },
{
    old(index).law_at_most_half_taken();
}

/// An insertion changes nothing under any other key.
pub proof fn law_insert_elsewhere(
    index: &mut TcpSocketIndex,
    key: Key,
    handle: SocketHandle,
    r: bool,
    other: Key,
    before: Option<SocketHandle>,
    after: Option<SocketHandle>,
)
    requires
        old(index).wf(),
        other != key,
        gets(*old(index), other, before),
        call_ensures(
            TcpSocketIndex::insert,
            (index, key.local_addr, key.local_port, key.remote_addr, key.remote_port, handle),
            r,
        ),
        gets(*final(index), other, after),
    ensures
        after == before,
{
}

/// A removed key is not found, the count goes down by one if it was, and nothing changes under any
/// other key.
pub proof fn law_remove(
    index: &mut TcpSocketIndex,
    key: Key,
    before: Option<SocketHandle>,
    len_before: usize,
    after: Option<SocketHandle>,
    len_after: usize,
    other: Key,
    other_before: Option<SocketHandle>,
    other_after: Option<SocketHandle>,
)
    requires
        old(index).wf(),
        gets(*old(index), key, before),
        gets(*old(index), other, other_before),
        call_ensures(TcpSocketIndex::len, (&*old(index),), len_before),
        call_ensures(
            TcpSocketIndex::remove,
            (index, key.local_addr, key.local_port, key.remote_addr, key.remote_port),
            (),
        ),
        gets(*final(index), key, after),
        gets(*final(index), other, other_after),
        call_ensures(TcpSocketIndex::len, (&*final(index),), len_after),
    ensures
        final(index).wf(),
        after is None,
        len_after == if before is Some {
            len_before - 1
        } else {
            len_before as int
        },
        other != key ==> other_after == other_before,
{
    old(index).law_at_most_half_taken();
    if !old(index)@.contains_key(key) {
        assert(old(index)@.remove(key) =~= old(index)@);
    }
}

/// After the removal of a handle a key is found exactly if it was found before with another handle,
/// and it is found with that one.
pub proof fn law_remove_by_handle(
    index: &mut TcpSocketIndex,
    handle: SocketHandle,
    key: Key,
    before: Option<SocketHandle>,
    after: Option<SocketHandle>,
)
    requires
        old(index).wf(),
        gets(*old(index), key, before),
        call_ensures(TcpSocketIndex::remove_by_handle, (index, handle), ()),
        gets(*final(index), key, after),
    ensures
        final(index).wf(),
        before == Some(handle) ==> after is None,
        before != Some(handle) ==> after == before,
{
}

/// The count is that of the keys that are found, and never above 64.
pub proof fn law_len(index: TcpSocketIndex, len: usize)
    requires
        index.wf(),
        call_ensures(TcpSocketIndex::len, (&index,), len),
    ensures
        len == index@.dom().len(),
        len <= 64,
{
}

} // verus!
