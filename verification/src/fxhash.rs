//! The multiply-and-XOR hash of connection keys, one native word at a time.
use vstd::endian::{endianness, Endian};
use vstd::prelude::*;

use crate::wire::IpAddress;

verus! {

/// The multiplier on targets with 64-bit words.
pub const SEED_64: u64 = 0x517cc1b727220a95;

/// The multiplier on targets with 32-bit words.
pub const SEED_32: u32 = 0x9e3779b9;

/// The number that `bytes` stand for with the least significant byte first.
pub open spec fn little_endian(bytes: Seq<u8>) -> nat
    decreases bytes.len(),
{
    if bytes.len() == 0 {
        0
    } else {
        bytes[0] as nat + 256 * little_endian(bytes.skip(1))
    }
}

/// The number that `bytes` stand for with the most significant byte first.
pub open spec fn big_endian(bytes: Seq<u8>) -> nat {
    little_endian(bytes.reverse())
}

/// The number that `bytes` stand for in the byte order of the machine.
pub open spec fn native_endian(bytes: Seq<u8>) -> nat {
    match endianness() {
        Endian::Little => little_endian(bytes),
        Endian::Big => big_endian(bytes),
    }
}

/// The multiplier, for the word size of the target.
pub open spec fn spec_seed() -> usize {
    if usize::BITS == 64 {
        SEED_64 as usize
    } else {
        SEED_32 as usize
    }
}

/// One step of the hash: multiply modulo the word size, then XOR the next word in.
pub open spec fn mix(h: usize, word: usize) -> usize {
    ((h * spec_seed()) % (usize::MAX + 1)) as usize ^ word
}

/// The steps of the hash over all of `words`, from the left.
pub open spec fn mix_all(h: usize, words: Seq<usize>) -> usize {
    words.fold_left(h, |acc: usize, word: usize| mix(acc, word))
}

/// Bytes in a word of the target.
pub open spec fn word_bytes() -> int {
    usize::BITS as int / 8
}

/// The native words that `octets` hold one after the other.
pub open spec fn native_words(octets: Seq<u8>) -> Seq<usize> {
    Seq::new(
        (octets.len() / word_bytes() as nat) as nat,
        |i: int|
            native_endian(octets.subrange(i * word_bytes(), (i + 1) * word_bytes())) as usize,
    )
}

/// The words that an address adds to the hash: one for all of an IPv4 address, and the sixteen
/// octets of an IPv6 address in native words.
pub open spec fn address_words(addr: IpAddress) -> Seq<usize> {
    match addr {
        IpAddress::Ipv4(addr) => seq![native_endian(addr.spec_octets()) as usize],
        IpAddress::Ipv6(addr) => native_words(addr.spec_octets()),
    }
}

/// Hashing one more word is one more step.
proof fn lemma_mix_all_push(h: usize, words: Seq<usize>, word: usize)
    ensures
        mix_all(h, words.push(word)) == mix(mix_all(h, words), word),
{
    reveal_with_fuel(Seq::fold_left, 2);
    assert(words.push(word).drop_last() =~= words);
}

/// Sixteen octets are a whole number of words.
proof fn lemma_word_count(width: int)
    requires
        width == 4 || width == 8,
    ensures
        (16nat / width as nat) * width == 16,
{
    assert((16nat / width as nat) * width == 16) by (nonlinear_arith)
        requires
            width == 4 || width == 8,
    ;
}

/// `u32::from_ne_bytes`: the bytes read as a number in the byte order of the machine.
#[verifier::external_body]
fn u32_from_ne_bytes(bytes: [u8; 4]) -> (r: u32)
    ensures
        r as nat == native_endian(bytes@),
{
    u32::from_ne_bytes(bytes)
}

/// `usize::from_ne_bytes`: as many bytes as a word has, read as a number in the byte order of the
/// machine.
#[verifier::external_body]
fn usize_from_ne_bytes(bytes: &[u8]) -> (r: usize)
    requires
        bytes@.len() == word_bytes(),
    ensures
        r as nat == native_endian(bytes@),
{
    usize::from_ne_bytes(bytes.try_into().unwrap())
}

/// The multiplier, for the word size of the target.
pub fn seed() -> (r: usize)
    ensures
        r == spec_seed(),
{
    if usize::BITS == 64 {
        SEED_64 as usize
    } else {
        SEED_32 as usize
    }
}

/// One step of the hash.
fn mix_word(h: usize, word: usize) -> (r: usize)
    ensures
        r == mix(h, word),
{
    h.wrapping_mul(seed()) ^ word
}

/// Continues the hash `h` with an address.
pub fn hash_ip_addr(h: usize, addr: &IpAddress) -> (r: usize)
    ensures
        r == mix_all(h, address_words(*addr)),
{
    match addr {
        IpAddress::Ipv4(addr) => {
            let word: usize = u32_from_ne_bytes(addr.octets()) as usize;
            proof {
                lemma_mix_all_push(h, seq![], word);
                assert(seq![].push(word) =~= address_words(IpAddress::Ipv4(*addr)));
            }
            mix_word(h, word)
        },
        IpAddress::Ipv6(addr) => {
            let octets = addr.octets();
            let ghost words = native_words(octets@);
            let width: usize = core::mem::size_of::<usize>();
            let mut acc: usize = h;
            let mut i: usize = 0;
            let ghost mut done: int = 0;
            while i + width <= 16
                invariant
                    width == word_bytes(),
                    width == 4 || width == 8,
                    octets@.len() == 16,
                    words == native_words(octets@),
                    0 <= done <= words.len(),
                    i == done * width,
                    i <= 16,
                    acc == mix_all(h, words.take(done)),
                decreases 16 - i,
            {
                let end: usize = i + width;
                proof {
                    lemma_word_count(width as int);
                    assert(done < words.len()) by (nonlinear_arith)
                        requires
                            done * width + width <= 16,
                            words.len() * width == 16,
                            width > 0,
                    ;
                    assert((done + 1) * width == end) by (nonlinear_arith)
                        requires
                            done * width == i,
                            i + width == end,
                    ;
                    lemma_mix_all_push(h, words.take(done), words[done]);
                    assert(words.take(done).push(words[done]) =~= words.take(done + 1));
                    done = done + 1;
                }
                let word: &[u8] = vstd::slice::slice_subrange(octets.as_slice(), i, end);
                acc = mix_word(acc, usize_from_ne_bytes(word));
                i = end;
            }
            proof {
                lemma_word_count(width as int);
                assert(done == words.len()) by (nonlinear_arith)
                    requires
                        done * width + width > 16,
                        words.len() * width == 16,
                        width > 0,
                        done <= words.len(),
                ;
                assert(words.take(done) =~= words);
            }
            acc
        },
    }
}

} // verus!
