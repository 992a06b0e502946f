//! What holds of the hash of connection keys.
use vstd::endian::endianness;
use vstd::prelude::*;

use crate::fxhash::{
    address_words, big_endian, hash_ip_addr, little_endian, mix, mix_all, native_endian,
    native_words, seed, spec_seed, word_bytes,
};
use crate::tcp_socket_index::{steps, Key, CAPACITY};
use crate::wire::{IpAddress, Ipv4Address, Ipv6Address};

verus! {

/// The multiplier is the one for the word size of the target.
pub proof fn law_seed(r: usize)
    requires
        call_ensures(seed, (), r),
    ensures
        usize::BITS == 64 ==> r == 0x517cc1b727220a95,
        usize::BITS == 32 ==> r == 0x9e3779b9,
        spec_seed() == r,
{
}

/// A step of the hash is undone by the word up to the product with the multiplier.
pub proof fn law_mix(h: usize, word: usize, r: usize)
    requires
        call_ensures(seed, (), r),
    ensures
        mix(h, word) ^ word == ((h * r) % (usize::MAX + 1)) as usize,
{
    let x = ((h * spec_seed()) % (usize::MAX + 1)) as usize;
    assert((x ^ word) ^ word == x) by (bit_vector);
}

/// The hash of words one after the other continues from the hash of the first of them.
pub proof fn law_mix_all_continues(h: usize, first: Seq<usize>, word: usize)
    ensures
        mix_all(h, Seq::empty()) == h,
        mix_all(h, first.push(word)) == mix(mix_all(h, first), word),
{
    reveal_with_fuel(Seq::fold_left, 2);
    assert(first.push(word).drop_last() =~= first);
}

/// Read from the least significant byte, bytes count 256 times as much each as the one before;
/// read from the most significant byte, the other way round.
pub proof fn law_byte_orders(bytes: Seq<u8>, byte: u8)
    ensures
        little_endian(Seq::empty()) == 0,
        little_endian(seq![byte] + bytes) == byte + 256 * little_endian(bytes),
        big_endian(Seq::empty()) == 0,
        big_endian(bytes.push(byte)) == 256 * big_endian(bytes) + byte,
        endianness() is Little ==> native_endian(bytes) == little_endian(bytes),
        endianness() is Big ==> native_endian(bytes) == big_endian(bytes),
{
    assert((seq![byte] + bytes).skip(1) =~= bytes);
    assert(bytes.push(byte).reverse() =~= seq![byte] + bytes.reverse());
    assert((seq![byte] + bytes.reverse()).skip(1) =~= bytes.reverse());
    assert(Seq::<u8>::empty().reverse() =~= Seq::<u8>::empty());
}

/// An IPv4 address is hashed in one step, with its four octets as a native number.
pub proof fn law_hash_of_ipv4(h: usize, addr: Ipv4Address, r: usize)
    requires
        call_ensures(hash_ip_addr, (h, &IpAddress::Ipv4(addr)), r),
    ensures
        r == mix(h, native_endian(seq![addr.a, addr.b, addr.c, addr.d]) as usize),
{
    let word = native_endian(addr.spec_octets()) as usize;
    law_mix_all_continues(h, Seq::empty(), word);
    assert(Seq::<usize>::empty().push(word) =~= address_words(IpAddress::Ipv4(addr)));
}

/// An IPv6 address is hashed in two steps on a 64-bit target and in four on a 32-bit one, with as
/// many of its octets at a time as a word has.
pub proof fn law_hash_of_ipv6(h: usize, addr: Ipv6Address, octets: [u8; 16], r: usize)
    requires
        call_ensures(Ipv6Address::octets, (&addr,), octets),
        call_ensures(hash_ip_addr, (h, &IpAddress::Ipv6(addr)), r),
    ensures
        usize::BITS == 64 ==> r == mix(
            mix(h, native_endian(octets@.subrange(0, 8)) as usize),
            native_endian(octets@.subrange(8, 16)) as usize,
        ),
        usize::BITS == 32 ==> r == mix(
            mix(
                mix(
                    mix(h, native_endian(octets@.subrange(0, 4)) as usize),
                    native_endian(octets@.subrange(4, 8)) as usize,
                ),
                native_endian(octets@.subrange(8, 12)) as usize,
            ),
            native_endian(octets@.subrange(12, 16)) as usize,
        ),
{
    let words = native_words(octets@);
    let none = Seq::<usize>::empty();
    if usize::BITS == 64 {
        assert(word_bytes() == 8);
        assert(octets@.len() / word_bytes() as nat == 2) by (nonlinear_arith)
            requires
                octets@.len() == 16,
                word_bytes() == 8,
        ;
        assert(words =~= none.push(words[0]).push(words[1]));
        law_mix_all_continues(h, none, words[0]);
        law_mix_all_continues(h, none.push(words[0]), words[1]);
    }
    if usize::BITS == 32 {
        assert(word_bytes() == 4);
        assert(octets@.len() / word_bytes() as nat == 4) by (nonlinear_arith)
            requires
                octets@.len() == 16,
                word_bytes() == 4,
        ;
        let two = none.push(words[0]).push(words[1]);
        assert(words =~= two.push(words[2]).push(words[3]));
        law_mix_all_continues(h, none, words[0]);
        law_mix_all_continues(h, none.push(words[0]), words[1]);
        law_mix_all_continues(h, two, words[2]);
        law_mix_all_continues(h, two.push(words[2]), words[3]);
    }
}

/// The hash of a key starts with the local port, and goes on with the remote port, the local
/// address and the remote address.
pub proof fn law_hash_of_key(key: Key, local: usize, both: usize, r: usize)
    requires
        call_ensures(
            hash_ip_addr,
            (mix(key.local_port as usize, key.remote_port as usize), &key.local_addr),
            local,
        ),
        call_ensures(hash_ip_addr, (local, &key.remote_addr), both),
        call_ensures(Key::hash, (&key,), r),
    ensures
        r == both,
        key.spec_hash() == r,
{
}

/// A probe starts at the hash modulo the number of slots.
pub proof fn law_probe_start(key: Key, r: usize)
    requires
        call_ensures(Key::hash, (&key,), r),
    ensures
        CAPACITY == 128,
        key.home() == r % 128,
{
    assert(r & 127 == r % 128) by (bit_vector);
}

/// A probe goes upwards, and from the last slot to the first.
pub proof fn law_probe_steps(a: int, b: int)
    requires
        0 <= a < 128,
        0 <= b < 128,
    ensures
        0 <= steps(a, b) < 128,
        (a + steps(a, b)) % 128 == b,
{
}

} // verus!
