//! Constant-time lookup of established TCP connections.
//!
//! Maps (local address, local port, remote address, remote port) to a socket handle, in an
//! open-addressing hash table of fixed size. Nothing is allocated.
use vstd::prelude::*;

use crate::fxhash::{address_words, hash_ip_addr, mix, mix_all, seed};
use crate::socket::SocketHandle;
use crate::wire::IpAddress;

verus! {

/// Slots of the table; a power of two.
///
/// Insertion stops when half of them are taken, to keep probe chains short, so the table admits
/// `CAPACITY / 2` live connections; further ones are found by a linear search of the sockets.
pub const CAPACITY: usize = 128;

/// Keeps the low bits of a hash that number a slot.
pub const MASK: usize = CAPACITY - 1;

/// The four values that identify a TCP connection.
#[derive(Clone, Copy, Debug, PartialEq, Eq, Structural)]
pub struct Key {
    pub local_addr: IpAddress,
    pub local_port: u16,
    pub remote_addr: IpAddress,
    pub remote_port: u16,
}

impl Key {
    /// The local port, then the remote port and the words of both addresses mixed in.
    pub open spec fn spec_hash(self) -> usize {
        let ports = mix(self.local_port as usize, self.remote_port as usize);
        mix_all(mix_all(ports, address_words(self.local_addr)), address_words(self.remote_addr))
    }

    /// The slot at which the probe for this key starts.
    pub open spec fn home(self) -> int {
        (self.spec_hash() & MASK) as int
    }

    /// Hash for fast lookup, with no cryptographic strength.
    pub fn hash(&self) -> (r: usize)
        ensures
            r == self.spec_hash(),
    {
        let mut h: usize = self.local_port as usize;
        h = h.wrapping_mul(seed()) ^ (self.remote_port as usize);
        h = hash_ip_addr(h, &self.local_addr);
        h = hash_ip_addr(h, &self.remote_addr);
        h
    }

    fn home_slot(&self) -> (r: usize)
        ensures
            r == self.home(),
            r < CAPACITY,
    {
        let h: usize = self.hash();
        assert(h & 127 < 128) by (bit_vector);
        h & MASK
    }
}

/// A slot of the table.
#[derive(Clone, Copy)]
enum Slot {
    Empty,
    Occupied(Key, SocketHandle),
}

/// The slot after `i`, with the last followed by the first.
spec fn after(i: int) -> int {
    if i + 1 == CAPACITY {
        0
    } else {
        i + 1
    }
}

/// How many steps a probe takes from slot `a` to slot `b`.
pub open spec fn steps(a: int, b: int) -> int {
    if a <= b {
        b - a
    } else {
        b - a + CAPACITY
    }
}

/// Whether slot `i` holds an entry for `key`.
spec fn at(slots: Seq<Slot>, i: int, key: Key) -> bool {
    0 <= i < slots.len() && slots[i] is Occupied && slots[i]->Occupied_0 == key
}

/// No key stands in two slots.
spec fn unique(slots: Seq<Slot>) -> bool {
    forall|i: int, j: int|
        #![trigger slots[i], slots[j]]
        0 <= i < slots.len() && 0 <= j < slots.len() && slots[i] is Occupied
            && slots[j] is Occupied && slots[i]->Occupied_0 == slots[j]->Occupied_0 ==> i == j
}

/// Whether a probe for the entry of slot `j` passes slot `p` before it arrives.
spec fn passes(slots: Seq<Slot>, j: int, p: int) -> bool {
    let home = slots[j]->Occupied_0.home();
    steps(home, p) < steps(home, j)
}

/// A probe for any entry but the one it looks for meets occupied slots, or the slot `hole`.
spec fn reachable_but(slots: Seq<Slot>, hole: int) -> bool {
    forall|j: int, p: int|
        #![trigger slots[j], slots[p]]
        0 <= j < CAPACITY && 0 <= p < CAPACITY && slots[j] is Occupied && passes(slots, j, p)
            ==> slots[p] is Occupied || p == hole
}

/// A probe for any entry arrives without meeting an empty slot.
spec fn reachable(slots: Seq<Slot>) -> bool {
    reachable_but(slots, -1)
}

/// What the slots hold, as a map.
spec fn entries(slots: Seq<Slot>) -> Map<Key, SocketHandle> {
    Map::new(
        |key: Key| exists|i: int| at(slots, i, key),
        |key: Key| slots[choose|i: int| at(slots, i, key)]->Occupied_1,
    )
}

/// An occupied slot is an entry of the map.
proof fn lemma_entry(slots: Seq<Slot>, i: int)
    requires
        unique(slots),
        0 <= i < slots.len(),
        slots[i] is Occupied,
    ensures
        entries(slots).contains_pair(slots[i]->Occupied_0, slots[i]->Occupied_1),
{
    let key = slots[i]->Occupied_0;
    assert(at(slots, i, key));
    let c = choose|c: int| at(slots, c, key);
    assert(at(slots, c, key));
    assert(c == i);
}

/// An entry of the map is an occupied slot.
proof fn lemma_position(slots: Seq<Slot>, key: Key) -> (i: int)
    requires
        entries(slots).contains_key(key),
    ensures
        at(slots, i, key),
        entries(slots)[key] == slots[i]->Occupied_1,
{
    choose|i: int| at(slots, i, key)
}

/// A probe that meets an empty slot has shown that the key is absent.
proof fn lemma_absent(slots: Seq<Slot>, key: Key, p: int)
    requires
        slots.len() == CAPACITY,
        reachable(slots),
        0 <= p < CAPACITY,
        slots[p] is Empty,
        0 <= key.home() < CAPACITY,
        forall|q: int|
            #![trigger slots[q]]
            0 <= q < CAPACITY && steps(key.home(), q) < steps(key.home(), p) ==> !at(slots, q, key),
    ensures
        !entries(slots).contains_key(key),
{
    if entries(slots).contains_key(key) {
        let j = lemma_position(slots, key);
        assert(slots[j] is Occupied);
        if steps(key.home(), p) < steps(key.home(), j) {
            assert(passes(slots, j, p));
        }
    }
}

/// The map is determined by what the slots hold.
proof fn lemma_entries_are(slots: Seq<Slot>, m: Map<Key, SocketHandle>)
    requires
        unique(slots),
        forall|i: int|
            #![trigger slots[i]]
            0 <= i < slots.len() && slots[i] is Occupied ==> m.contains_pair(
                slots[i]->Occupied_0,
                slots[i]->Occupied_1,
            ),
        forall|key: Key| m.contains_key(key) ==> exists|i: int| at(slots, i, key),
    ensures
        entries(slots) == m,
{
    assert forall|key: Key| entries(slots).contains_key(key) implies m.contains_pair(
        key,
        entries(slots)[key],
    ) by {
        let i = lemma_position(slots, key);
        assert(slots[i] is Occupied);
    }
    assert(entries(slots) =~= m);
}

/// Filling an empty slot with an absent key adds the entry.
proof fn lemma_fill(slots: Seq<Slot>, i: int, key: Key, handle: SocketHandle)
    requires
        unique(slots),
        0 <= i < slots.len(),
        slots[i] is Empty,
        !entries(slots).contains_key(key),
    ensures
        unique(slots.update(i, Slot::Occupied(key, handle))),
        entries(slots.update(i, Slot::Occupied(key, handle))) == entries(slots).insert(key, handle),
{
    let new = slots.update(i, Slot::Occupied(key, handle));
    let m = entries(slots).insert(key, handle);
    assert forall|a: int|
        #![trigger new[a]]
        0 <= a < new.len() && a != i && new[a] is Occupied implies new[a]->Occupied_0 != key
        && m.contains_pair(new[a]->Occupied_0, new[a]->Occupied_1) by {
        lemma_entry(slots, a);
    }
    assert(unique(new)) by {
        assert forall|a: int, b: int|
            #![trigger new[a], new[b]]
            0 <= a < new.len() && 0 <= b < new.len() && new[a] is Occupied && new[b] is Occupied
                && new[a]->Occupied_0 == new[b]->Occupied_0 implies a == b by {
            assert(a != i && b != i ==> slots[a] == new[a] && slots[b] == new[b]);
        }
    }
    assert forall|k: Key| m.contains_key(k) implies exists|j: int| at(new, j, k) by {
        if k == key {
            assert(at(new, i, k));
        } else {
            let j = lemma_position(slots, k);
            assert(at(new, j, k));
        }
    }
    lemma_entries_are(new, m);
}

/// Overwriting the entry of a key with another handle updates the map.
proof fn lemma_overwrite(slots: Seq<Slot>, i: int, key: Key, handle: SocketHandle)
    requires
        unique(slots),
        at(slots, i, key),
    ensures
        unique(slots.update(i, Slot::Occupied(key, handle))),
        entries(slots.update(i, Slot::Occupied(key, handle))) == entries(slots).insert(key, handle),
{
    let new = slots.update(i, Slot::Occupied(key, handle));
    let m = entries(slots).insert(key, handle);
    assert(unique(new)) by {
        assert forall|a: int, b: int|
            #![trigger new[a], new[b]]
            0 <= a < new.len() && 0 <= b < new.len() && new[a] is Occupied && new[b] is Occupied
                && new[a]->Occupied_0 == new[b]->Occupied_0 implies a == b by {
            assert(slots[a] is Occupied && slots[b] is Occupied);
        }
    }
    assert forall|a: int|
        #![trigger new[a]]
        0 <= a < new.len() && new[a] is Occupied implies m.contains_pair(
        new[a]->Occupied_0,
        new[a]->Occupied_1,
    ) by {
        if a != i {
            lemma_entry(slots, a);
            assert(slots[a]->Occupied_0 != slots[i]->Occupied_0);
        }
    }
    assert forall|k: Key| m.contains_key(k) implies exists|j: int| at(new, j, k) by {
        if k == key {
            assert(at(new, i, k));
        } else {
            let j = lemma_position(slots, k);
            assert(at(new, j, k));
        }
    }
    lemma_entries_are(new, m);
}

/// Emptying the slot of a key removes the entry.
proof fn lemma_clear(slots: Seq<Slot>, i: int, key: Key)
    requires
        unique(slots),
        at(slots, i, key),
    ensures
        unique(slots.update(i, Slot::Empty)),
        entries(slots.update(i, Slot::Empty)) == entries(slots).remove(key),
{
    let new = slots.update(i, Slot::Empty);
    let m = entries(slots).remove(key);
    assert(unique(new)) by {
        assert forall|a: int, b: int|
            #![trigger new[a], new[b]]
            0 <= a < new.len() && 0 <= b < new.len() && new[a] is Occupied && new[b] is Occupied
                && new[a]->Occupied_0 == new[b]->Occupied_0 implies a == b by {
            assert(slots[a] is Occupied && slots[b] is Occupied);
        }
    }
    assert forall|a: int|
        #![trigger new[a]]
        0 <= a < new.len() && new[a] is Occupied implies m.contains_pair(
        new[a]->Occupied_0,
        new[a]->Occupied_1,
    ) by {
        lemma_entry(slots, a);
        assert(slots[a]->Occupied_0 != slots[i]->Occupied_0);
    }
    assert forall|k: Key| m.contains_key(k) implies exists|j: int| at(new, j, k) by {
        let j = lemma_position(slots, k);
        assert(at(new, j, k));
    }
    lemma_entries_are(new, m);
}

/// Moving an entry to an empty slot leaves the map as it is.
proof fn lemma_move(slots: Seq<Slot>, from: int, to: int)
    requires
        unique(slots),
        0 <= from < slots.len(),
        0 <= to < slots.len(),
        slots[from] is Occupied,
        slots[to] is Empty,
    ensures
        unique(slots.update(to, slots[from]).update(from, Slot::Empty)),
        entries(slots.update(to, slots[from]).update(from, Slot::Empty)) == entries(slots),
{
    let new = slots.update(to, slots[from]).update(from, Slot::Empty);
    assert(unique(new)) by {
        assert forall|a: int, b: int|
            #![trigger new[a], new[b]]
            0 <= a < new.len() && 0 <= b < new.len() && new[a] is Occupied && new[b] is Occupied
                && new[a]->Occupied_0 == new[b]->Occupied_0 implies a == b by {
            let x = if a == to {
                from
            } else {
                a
            };
            let y = if b == to {
                from
            } else {
                b
            };
            assert(slots[x] == new[a] && slots[y] == new[b]);
        }
    }
    assert forall|a: int|
        #![trigger new[a]]
        0 <= a < new.len() && new[a] is Occupied implies entries(slots).contains_pair(
        new[a]->Occupied_0,
        new[a]->Occupied_1,
    ) by {
        if a == to {
            lemma_entry(slots, from);
        } else {
            lemma_entry(slots, a);
        }
    }
    assert forall|k: Key| entries(slots).contains_key(k) implies exists|j: int| at(new, j, k) by {
        let j = lemma_position(slots, k);
        if j == from {
            assert(at(new, to, k));
        } else {
            assert(at(new, j, k));
        }
    }
    lemma_entries_are(new, entries(slots));
}

/// A table with fewer entries than slots has an empty slot.
proof fn lemma_some_empty(slots: Seq<Slot>) -> (e: int)
    requires
        slots.len() == CAPACITY,
        unique(slots),
        entries(slots).dom().finite(),
        entries(slots).len() < CAPACITY,
    ensures
        0 <= e < CAPACITY,
        slots[e] is Empty,
{
    if forall|i: int| 0 <= i < CAPACITY ==> slots[i] is Occupied {
        let keys = Seq::new(CAPACITY as nat, |i: int| slots[i]->Occupied_0);
        assert(keys.no_duplicates());
        keys.unique_seq_to_set();
        assert forall|key: Key| keys.to_set().contains(key) implies entries(slots).dom().contains(
            key,
        ) by {
            let i = choose|i: int| 0 <= i < keys.len() && keys[i] == key;
            assert(at(slots, i, key));
        }
        vstd::set_lib::lemma_len_subset(keys.to_set(), entries(slots).dom());
    }
    choose|e: int| 0 <= e < CAPACITY && !(slots[e] is Occupied)
}

/// Between the gap at `hole` and slot `next` all slots are taken, by entries that no probe
/// reaches through the gap.
spec fn settled_between(slots: Seq<Slot>, hole: int, next: int) -> bool {
    forall|j: int|
        #![trigger slots[j]]
        0 <= j < CAPACITY && 0 < steps(hole, j) < steps(hole, next) ==> slots[j] is Occupied
            && !passes(slots, j, hole)
}

/// Emptying a slot leaves a table whose only gap is there.
proof fn lemma_open_hole(slots: Seq<Slot>, hole: int)
    requires
        slots.len() == CAPACITY,
        reachable(slots),
        0 <= hole < CAPACITY,
    ensures
        reachable_but(slots.update(hole, Slot::Empty), hole),
        settled_between(slots.update(hole, Slot::Empty), hole, after(hole)),
{
    let new = slots.update(hole, Slot::Empty);
    assert forall|j: int, p: int|
        #![trigger new[j], new[p]]
        0 <= j < CAPACITY && 0 <= p < CAPACITY && new[j] is Occupied && passes(new, j, p) implies
        new[p] is Occupied || p == hole by {
        assert(slots[j] is Occupied && passes(slots, j, p));
        assert(slots[p] is Occupied);
    }
}

/// Moving the entry of `next` back into the gap moves the gap to `next`.
proof fn lemma_shift_back(slots: Seq<Slot>, hole: int, next: int)
    requires
        slots.len() == CAPACITY,
        0 <= hole < CAPACITY,
        0 <= next < CAPACITY,
        hole != next,
        slots[hole] is Empty,
        slots[next] is Occupied,
        0 <= slots[next]->Occupied_0.home() < CAPACITY,
        passes(slots, next, hole),
        reachable_but(slots, hole),
    ensures
        reachable_but(slots.update(hole, slots[next]).update(next, Slot::Empty), next),
        settled_between(
            slots.update(hole, slots[next]).update(next, Slot::Empty),
            next,
            after(next),
        ),
{
    let new = slots.update(hole, slots[next]).update(next, Slot::Empty);
    assert forall|j: int, p: int|
        #![trigger new[j], new[p]]
        0 <= j < CAPACITY && 0 <= p < CAPACITY && new[j] is Occupied && passes(new, j, p) implies
        new[p] is Occupied || p == next by {
        if j == hole {
            assert(passes(slots, next, p));
            assert(slots[p] is Occupied || p == hole);
        } else {
            assert(slots[j] is Occupied && passes(slots, j, p));
            assert(slots[p] is Occupied || p == hole);
        }
    }
}

/// An entry that no probe reaches through the gap stays where it is.
proof fn lemma_pass_by(slots: Seq<Slot>, hole: int, next: int)
    requires
        slots.len() == CAPACITY,
        0 <= hole < CAPACITY,
        0 <= next < CAPACITY,
        hole != next,
        after(next) != hole,
        slots[next] is Occupied,
        !passes(slots, next, hole),
        settled_between(slots, hole, next),
    ensures
        settled_between(slots, hole, after(next)),
{
    assert forall|j: int|
        #![trigger slots[j]]
        0 <= j < CAPACITY && 0 < steps(hole, j) < steps(hole, after(next)) implies slots[j] is Occupied
        && !passes(slots, j, hole) by {
        if j != next {
            assert(steps(hole, j) < steps(hole, next));
        }
    }
}

/// When the chain has ended behind the gap, no probe needs the gap filled.
proof fn lemma_close_hole(slots: Seq<Slot>, hole: int, next: int)
    requires
        slots.len() == CAPACITY,
        0 <= hole < CAPACITY,
        0 <= next < CAPACITY,
        hole != next,
        slots[next] is Empty,
        reachable_but(slots, hole),
        settled_between(slots, hole, next),
    ensures
        reachable(slots),
{
    assert forall|j: int, p: int|
        #![trigger slots[j], slots[p]]
        0 <= j < CAPACITY && 0 <= p < CAPACITY && slots[j] is Occupied && passes(slots, j, p) implies
        slots[p] is Occupied by {
        lemma_home(slots[j]->Occupied_0);
        if !(slots[p] is Occupied) {
            assert(p == hole);
            if steps(hole, next) < steps(hole, j) {
                assert(passes(slots, j, next));
                assert(slots[next] is Occupied || next == hole);
            }
        }
    }
}

/// The start of a probe is a slot of the table.
proof fn lemma_home(key: Key)
    ensures
        0 <= key.home() < CAPACITY,
{
    let h = key.spec_hash();
    assert(h & 127 < 128) by (bit_vector);
}

/// The slot after `i`.
fn next_slot(i: usize) -> (r: usize)
    requires
        i < CAPACITY,
    ensures
        r == after(i as int),
        r < CAPACITY,
{
    assert((i + 1) as usize & 127 == (if i == 127 {
        0
    } else {
        i + 1
    })) by (bit_vector)
        requires
            i < 128,
    ;
    (i + 1) & MASK
}

/// Whether an index with the connections `m` takes `key`: it is there already, or fewer than half
/// of the slots are taken.
pub open spec fn spec_admits(m: Map<Key, SocketHandle>, key: Key) -> bool {
    m.contains_key(key) || m.len() < CAPACITY / 2
}

/// The connections after an insertion.
pub open spec fn spec_insert(m: Map<Key, SocketHandle>, key: Key, handle: SocketHandle) -> Map<
    Key,
    SocketHandle,
> {
    if spec_admits(m, key) {
        m.insert(key, handle)
    } else {
        m
    }
}

/// The connections that are not indexed to `handle`.
pub open spec fn spec_without_handle(m: Map<Key, SocketHandle>, handle: SocketHandle) -> Map<
    Key,
    SocketHandle,
> {
    Map::new(|key: Key| m.contains_key(key) && m[key] != handle, |key: Key| m[key])
}

/// Open-addressing hash table of fixed size from the four values of a connection to the handle
/// of its socket.
pub struct TcpSocketIndex {
    slots: [Slot; CAPACITY],
    len: usize,
}

impl View for TcpSocketIndex {
    type V = Map<Key, SocketHandle>;

    /// The connections that are indexed.
    closed spec fn view(&self) -> Map<Key, SocketHandle> {
        entries(self.slots@)
    }
}

impl TcpSocketIndex {
    /// Every key stands in one slot, a probe finds it, and at most half of the slots are taken.
    pub closed spec fn wf(&self) -> bool {
        &&& unique(self.slots@)
        &&& reachable(self.slots@)
        &&& self@.dom().finite()
        &&& self.len == self@.len()
        &&& self.len <= CAPACITY / 2
    }

    /// An index never has more than half of its slots taken.
    pub proof fn law_at_most_half_taken(&self)
        requires
            self.wf(),
        ensures
            self@.dom().finite(),
            self@.len() <= CAPACITY / 2,
    {
    }

    /// What slot `i` holds.
    pub closed spec fn spec_slot(&self, i: int) -> Option<(Key, SocketHandle)> {
        match self.slots@[i] {
            Slot::Empty => None,
            Slot::Occupied(key, handle) => Some((key, handle)),
        }
    }

    /// The slots that are taken.
    pub open spec fn spec_taken(&self) -> Set<int> {
        Set::new(|i: int| 0 <= i < CAPACITY && self.spec_slot(i) is Some)
    }

    /// As many slots are taken as connections are indexed, and at most half of all.
    pub proof fn law_one_slot_each(&self)
        requires
            self.wf(),
        ensures
            self.spec_taken().finite(),
            self.spec_taken().len() == self@.len(),
            self.spec_taken().len() <= CAPACITY / 2,
    {
        let slots = self.slots@;
        let taken = self.spec_taken();
        let key_at = |i: int| slots[i]->Occupied_0;
        assert(taken.subset_of(vstd::set_lib::set_int_range(0, CAPACITY as int)));
        vstd::set_lib::lemma_int_range(0, CAPACITY as int);
        vstd::set_lib::lemma_set_subset_finite(
            vstd::set_lib::set_int_range(0, CAPACITY as int),
            taken,
        );
        assert forall|key: Key| self@.dom().contains(key) implies taken.map(key_at).contains(
            key,
        ) by {
            let i = lemma_position(slots, key);
            assert(taken.contains(i) && key_at(i) == key);
        }
        assert forall|key: Key| taken.map(key_at).contains(key) implies self@.dom().contains(
            key,
        ) by {
            let i = choose|i: int| taken.contains(i) && key == key_at(i);
            lemma_entry(slots, i);
        }
        assert(taken.map(key_at) =~= self@.dom());
        vstd::set_lib::lemma_map_size(taken, self@.dom(), key_at);
    }

    /// A taken slot holds a connection that is indexed.
    pub proof fn law_slot_is_indexed(&self, i: int)
        requires
            self.wf(),
            self.spec_taken().contains(i),
        ensures
            self@.contains_pair((self.spec_slot(i)->0).0, (self.spec_slot(i)->0).1),
    {
        lemma_entry(self.slots@, i);
    }

    /// A connection that is indexed stands in one slot, and all slots from the start of its probe
    /// to that one are taken.
    pub proof fn law_no_gap_before_an_entry(&self, key: Key) -> (i: int)
        requires
            self.wf(),
            self@.contains_key(key),
        ensures
            self.spec_taken().contains(i),
            self.spec_slot(i) == Some((key, self@[key])),
            0 <= key.home() < CAPACITY,
            forall|p: int|
                0 <= p < CAPACITY && steps(key.home(), p) < steps(key.home(), i)
                    ==> #[trigger] self.spec_taken().contains(p),
            forall|j: int| #[trigger]
                self.spec_taken().contains(j) && (self.spec_slot(j)->0).0 == key ==> j == i,
    {
        let slots = self.slots@;
        let i = lemma_position(slots, key);
        lemma_home(key);
        assert(slots[i] is Occupied);
        assert forall|p: int|
            0 <= p < CAPACITY && steps(key.home(), p) < steps(key.home(), i) implies #[trigger]
            self.spec_taken().contains(p) by {
            assert(passes(slots, i, p));
            assert(slots[p] is Occupied);
        }
        assert forall|j: int| #[trigger]
            self.spec_taken().contains(j) && (self.spec_slot(j)->0).0 == key implies j == i by {
            assert(slots[j] is Occupied);
        }
        i
    }

    /// An index that holds nothing.
    pub fn new() -> (r: Self)
        ensures
            r.wf(),
            r@ == Map::<Key, SocketHandle>::empty(),
    {
        let r = TcpSocketIndex { slots: [Slot::Empty; CAPACITY], len: 0 };
        proof {
            lemma_entries_are(r.slots@, Map::empty());
        }
        r
    }

    /// How many connections are indexed.
    pub fn len(&self) -> (r: usize)
        requires
            self.wf(),
        ensures
            r == self@.len(),
            r == self.spec_taken().len(),
            r <= CAPACITY / 2,
    {
        proof {
            self.law_one_slot_each();
        }
        self.len
    }

    /// The slot that holds `key`, or else the empty slot that a probe for it ends at.
    fn probe(&self, key: &Key) -> (r: usize)
        requires
            self.wf(),
        ensures
            r < CAPACITY,
            at(self.slots@, r as int, *key) || (self.slots@[r as int] is Empty
                && !self@.contains_key(*key)),
            forall|p: int|
                #![trigger self.slots@[p]]
                0 <= p < CAPACITY && steps(key.home(), p) < steps(key.home(), r as int)
                    ==> self.slots@[p] is Occupied,
            0 <= key.home() < CAPACITY,
    {
        let home: usize = key.home_slot();
        let ghost vacant = lemma_some_empty(self.slots@);
        let mut idx: usize = home;
        loop
            invariant
                self.wf(),
                home == key.home(),
                home < CAPACITY,
                idx < CAPACITY,
                0 <= vacant < CAPACITY,
                self.slots@[vacant] is Empty,
                steps(home as int, idx as int) <= steps(home as int, vacant),
                forall|p: int|
                    #![trigger self.slots@[p]]
                    0 <= p < CAPACITY && steps(home as int, p) < steps(home as int, idx as int)
                        ==> self.slots@[p] is Occupied && !at(self.slots@, p, *key),
            decreases steps(idx as int, vacant),
        {
            match self.slots[idx] {
                Slot::Empty => {
                    proof {
                        lemma_absent(self.slots@, *key, idx as int);
                    }
                    return idx;
                },
                Slot::Occupied(k, _) => {
                    if k == *key {
                        return idx;
                    }
                },
            }
            idx = next_slot(idx);
        }
    }

    /// The handle that is indexed under the four values, if any.
    pub fn get(
        &self,
        local_addr: IpAddress,
        local_port: u16,
        remote_addr: IpAddress,
        remote_port: u16,
    ) -> (r: Option<SocketHandle>)
        requires
            self.wf(),
        ensures
            r == self@.get(Key { local_addr, local_port, remote_addr, remote_port }),
    {
        let key = Key { local_addr, local_port, remote_addr, remote_port };
        let idx: usize = self.probe(&key);
        match self.slots[idx] {
            Slot::Empty => None,
            Slot::Occupied(_, handle) => {
                proof {
                    lemma_entry(self.slots@, idx as int);
                }
                Some(handle)
            },
        }
    }

    /// Adds or updates a connection. Returns whether it is indexed now; a new one is refused when
    /// half of the slots are taken.
    pub fn insert(
        &mut self,
        local_addr: IpAddress,
        local_port: u16,
        remote_addr: IpAddress,
        remote_port: u16,
        handle: SocketHandle,
    ) -> (r: bool)
        requires
            old(self).wf(),
        ensures
            final(self).wf(),
            r == spec_admits(old(self)@, Key { local_addr, local_port, remote_addr, remote_port }),
            final(self)@ == spec_insert(
                old(self)@,
                Key { local_addr, local_port, remote_addr, remote_port },
                handle,
            ),
    {
        let key = Key { local_addr, local_port, remote_addr, remote_port };
        let idx: usize = self.probe(&key);
        let ghost before = self.slots@;
        match self.slots[idx] {
            Slot::Empty => {
                if self.len >= CAPACITY / 2 {
                    return false;
                }
                proof {
                    lemma_fill(before, idx as int, key, handle);
                }
                self.slots[idx] = Slot::Occupied(key, handle);
                self.len = self.len + 1;
            },
            Slot::Occupied(_, _) => {
                proof {
                    lemma_entry(before, idx as int);
                    lemma_overwrite(before, idx as int, key, handle);
                }
                self.slots[idx] = Slot::Occupied(key, handle);
            },
        }
        assert(self@ == entries(before).insert(key, handle));
        proof {
            let after = self.slots@;
            assert forall|j: int, p: int|
                #![trigger after[j], after[p]]
                0 <= j < CAPACITY && 0 <= p < CAPACITY && after[j] is Occupied && passes(after, j, p)
                    implies after[p] is Occupied by {
                if j != idx {
                    assert(before[j] is Occupied && passes(before, j, p));
                    assert(before[p] is Occupied);
                } else {
                    assert(before[p] is Occupied);
                }
            }
        }
        true
    }

    /// Removes a connection, if it is indexed.
    ///
    /// Later entries of the probe chain are shifted back into the gap, so that no probe meets an
    /// empty slot before its entry.
    pub fn remove(
        &mut self,
        local_addr: IpAddress,
        local_port: u16,
        remote_addr: IpAddress,
        remote_port: u16,
    )
        requires
            old(self).wf(),
        ensures
            final(self).wf(),
            final(self)@ == old(self)@.remove(
                Key { local_addr, local_port, remote_addr, remote_port },
            ),
    {
        let key = Key { local_addr, local_port, remote_addr, remote_port };
        let mut idx: usize = self.probe(&key);
        if let Slot::Empty = self.slots[idx] {
            assert(self@ =~= self@.remove(key));
            return ;
        }
        let ghost before = self.slots@;
        let ghost m = entries(before).remove(key);
        let ghost vacant = lemma_some_empty(before);
        proof {
            lemma_entry(before, idx as int);
            lemma_clear(before, idx as int, key);
        }
        self.slots[idx] = Slot::Empty;
        self.len = self.len - 1;
        let mut next: usize = next_slot(idx);
        proof {
            lemma_open_hole(before, idx as int);
        }
        loop
            invariant_except_break
                steps(idx as int, next as int) <= steps(idx as int, vacant),
            invariant
                idx < CAPACITY,
                next < CAPACITY,
                0 <= vacant < CAPACITY,
                idx != next,
                idx != vacant,
                self.slots@[vacant] is Empty,
                self.slots@[idx as int] is Empty,
                unique(self.slots@),
                entries(self.slots@) == m,
                self.len == m.len(),
                m.dom().finite(),
                self.len <= CAPACITY / 2,
                reachable_but(self.slots@, idx as int),
                settled_between(self.slots@, idx as int, next as int),
            ensures
                self.slots@[next as int] is Empty,
            decreases steps(next as int, vacant),
        {
            match self.slots[next] {
                Slot::Empty => {
                    break ;
                },
                Slot::Occupied(k, _) => {
                    let natural: usize = k.home_slot();
                    let displaced: bool = if idx <= next {
                        natural <= idx || natural > next
                    } else {
                        natural <= idx && natural > next
                    };
                    let ghost now = self.slots@;
                    if displaced {
                        proof {
                            lemma_move(now, next as int, idx as int);
                            lemma_shift_back(now, idx as int, next as int);
                        }
                        self.slots[idx] = self.slots[next];
                        self.slots[next] = Slot::Empty;
                        idx = next;
                    } else {
                        proof {
                            lemma_pass_by(now, idx as int, next as int);
                        }
                    }
                    next = next_slot(next);
                },
            }
        }
        proof {
            lemma_close_hole(self.slots@, idx as int, next as int);
        }
    }

    /// Removes every connection that is indexed to `handle`.
    ///
    /// There can be several: handles are used again, so the entry of a closed connection and that
    /// of its successor may name the same one until the stale entry is evicted.
    pub fn remove_by_handle(&mut self, handle: SocketHandle)
        requires
            old(self).wf(),
        ensures
            final(self).wf(),
            final(self)@ == spec_without_handle(old(self)@, handle),
    {
        // `remove` moves entries into slots that the search has passed, so the search starts
        // again after each removal.
        loop
            invariant
                self.wf(),
                spec_without_handle(self@, handle) == spec_without_handle(old(self)@, handle),
            decreases self@.len(),
        {
            match self.find_handle(handle) {
                None => {
                    assert(self@ =~= spec_without_handle(self@, handle));
                    return ;
                },
                Some(key) => {
                    let ghost m = self@;
                    self.remove(key.local_addr, key.local_port, key.remote_addr, key.remote_port);
                    assert(spec_without_handle(m.remove(key), handle) =~= spec_without_handle(
                        m,
                        handle,
                    ));
                },
            }
        }
    }

    /// The key of some connection that is indexed to `handle`: the first in slot order.
    fn find_handle(&self, handle: SocketHandle) -> (r: Option<Key>)
        requires
            self.wf(),
        ensures
            match r {
                Some(key) => self@.contains_pair(key, handle),
                None => forall|key: Key| self@.contains_key(key) ==> self@[key] != handle,
            },
    {
        for i in 0..CAPACITY
            invariant
                self.wf(),
                forall|j: int|
                    #![trigger self.slots@[j]]
                    0 <= j < i && self.slots@[j] is Occupied ==> self.slots@[j]->Occupied_1
                        != handle,
        {
            if let Slot::Occupied(key, h) = self.slots[i] {
                if h == handle {
                    proof {
                        lemma_entry(self.slots@, i as int);
                    }
                    return Some(key);
                }
            }
        }
        proof {
            assert forall|key: Key| self@.contains_key(key) implies self@[key] != handle by {
                let j = lemma_position(self.slots@, key);
                assert(self.slots@[j] is Occupied);
            }
        }
        None
    }
}

} // verus!
