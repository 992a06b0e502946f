use tcp_demux::fxhash::{hash_ip_addr, seed};
use tcp_demux::socket::SocketHandle;
use tcp_demux::tcp_socket_index::{Key, TcpSocketIndex, CAPACITY};
use tcp_demux::wire::{IpAddress, Ipv4Address, Ipv6Address};

fn local() -> IpAddress {
    IpAddress::v4(10, 0, 0, 1)
}

/// A distinct connection per `n`, all sharing the local endpoint.
fn insert_nth(index: &mut TcpSocketIndex, n: usize, handle: usize) -> bool {
    index.insert(
        local(),
        80,
        IpAddress::v4(10, 0, 1, (n / 256) as u8),
        (n % 256) as u16 + 1024,
        SocketHandle::from_index(handle),
    )
}

fn get_nth(index: &TcpSocketIndex, n: usize) -> Option<SocketHandle> {
    index.get(
        local(),
        80,
        IpAddress::v4(10, 0, 1, (n / 256) as u8),
        (n % 256) as u16 + 1024,
    )
}

fn remove_nth(index: &mut TcpSocketIndex, n: usize) {
    index.remove(
        local(),
        80,
        IpAddress::v4(10, 0, 1, (n / 256) as u8),
        (n % 256) as u16 + 1024,
    )
}

fn key_nth(n: usize) -> Key {
    Key {
        local_addr: local(),
        local_port: 80,
        remote_addr: IpAddress::v4(10, 0, 1, (n / 256) as u8),
        remote_port: (n % 256) as u16 + 1024,
    }
}

#[test]
fn insert_and_get_round_trip() {
    let mut index = TcpSocketIndex::new();
    assert!(insert_nth(&mut index, 0, 7));

    assert_eq!(get_nth(&index, 0), Some(SocketHandle::from_index(7)));
    assert_eq!(get_nth(&index, 1), None);
}

#[test]
fn insert_refuses_past_half_capacity() {
    let mut index = TcpSocketIndex::new();
    for n in 0..CAPACITY / 2 {
        assert!(insert_nth(&mut index, n, n), "insert {n} should fit");
    }

    assert!(!insert_nth(&mut index, CAPACITY / 2, 0));
}

#[test]
fn remove_by_handle_drains_every_entry_for_that_handle() {
    let mut index = TcpSocketIndex::new();
    // The entry of a closed connection and that of its successor name one handle.
    assert!(insert_nth(&mut index, 0, 3));
    assert!(insert_nth(&mut index, 1, 3));

    index.remove_by_handle(SocketHandle::from_index(3));

    assert_eq!(get_nth(&index, 0), None);
    assert_eq!(get_nth(&index, 1), None);
    assert_eq!(index.len(), 0);
}

#[test]
fn remove_by_handle_leaves_other_handles_alone() {
    let mut index = TcpSocketIndex::new();
    assert!(insert_nth(&mut index, 0, 3));
    assert!(insert_nth(&mut index, 1, 4));

    index.remove_by_handle(SocketHandle::from_index(3));

    assert_eq!(get_nth(&index, 0), None);
    assert_eq!(get_nth(&index, 1), Some(SocketHandle::from_index(4)));
}

#[test]
fn eviction_makes_capacity_a_live_ceiling_not_a_lifetime_one() {
    let mut index = TcpSocketIndex::new();

    // Many connections one after the other, never more than one live at a time.
    for n in 0..CAPACITY * 4 {
        assert!(insert_nth(&mut index, n, 1), "lifetime {n} should index");
        assert_eq!(get_nth(&index, n), Some(SocketHandle::from_index(1)));
        index.remove_by_handle(SocketHandle::from_index(1));
    }

    assert_eq!(index.len(), 0);
}

#[test]
fn removal_preserves_probe_chains() {
    let mut index = TcpSocketIndex::new();
    for n in 0..CAPACITY / 2 {
        assert!(insert_nth(&mut index, n, n));
    }

    // Drop every other entry, then confirm that the survivors are still reachable through the
    // probe chains that the deletions rewrote.
    for n in (0..CAPACITY / 2).step_by(2) {
        index.remove_by_handle(SocketHandle::from_index(n));
    }

    for n in 0..CAPACITY / 2 {
        let expected = if n % 2 == 0 {
            None
        } else {
            Some(SocketHandle::from_index(n))
        };
        assert_eq!(get_nth(&index, n), expected, "entry {n}");
    }
}

#[test]
fn a_full_index_still_updates_what_it_holds() {
    let mut index = TcpSocketIndex::new();
    for n in 0..CAPACITY / 2 {
        assert!(insert_nth(&mut index, n, n));
    }

    assert!(insert_nth(&mut index, 5, 99));
    assert_eq!(get_nth(&index, 5), Some(SocketHandle::from_index(99)));
    assert_eq!(index.len(), 64);

    assert!(!insert_nth(&mut index, 1000, 1));
    assert_eq!(get_nth(&index, 1000), None);
    assert_eq!(index.len(), 64);

    remove_nth(&mut index, 5);
    assert_eq!(index.len(), 63);
    assert!(insert_nth(&mut index, 1000, 1));
    assert_eq!(get_nth(&index, 1000), Some(SocketHandle::from_index(1)));
}

#[test]
fn removing_what_is_absent_changes_nothing() {
    let mut index = TcpSocketIndex::new();
    remove_nth(&mut index, 3);
    assert_eq!(index.len(), 0);

    assert!(insert_nth(&mut index, 0, 7));
    remove_nth(&mut index, 3);
    index.remove_by_handle(SocketHandle::from_index(8));
    assert_eq!(get_nth(&index, 0), Some(SocketHandle::from_index(7)));
    assert_eq!(index.len(), 1);
}

#[test]
fn removal_undoes_insertion() {
    let mut index = TcpSocketIndex::new();
    for n in 0..10 {
        assert!(insert_nth(&mut index, n, n));
    }
    assert!(insert_nth(&mut index, 77, 5));
    remove_nth(&mut index, 77);
    assert_eq!(get_nth(&index, 77), None);
    assert_eq!(index.len(), 10);
    for n in 0..10 {
        assert_eq!(get_nth(&index, n), Some(SocketHandle::from_index(n)));
    }
}

/// Connections whose probes all start in the last slot of the table, so that the chain wraps.
fn colliding() -> Vec<usize> {
    (0..CAPACITY * 400).filter(|n| key_nth(*n).hash() % CAPACITY == CAPACITY - 1).take(40).collect()
}

#[test]
fn a_probe_chain_wraps_round_the_end_of_the_table() {
    let numbers = colliding();
    assert!(numbers.len() > 20);
    let mut index = TcpSocketIndex::new();
    for n in numbers.iter() {
        assert!(insert_nth(&mut index, *n, *n));
    }
    for n in numbers.iter() {
        assert_eq!(get_nth(&index, *n), Some(SocketHandle::from_index(*n)));
    }
    for (i, n) in numbers.iter().enumerate() {
        if i % 3 != 1 {
            remove_nth(&mut index, *n);
        }
    }
    for (i, n) in numbers.iter().enumerate() {
        let expected = if i % 3 == 1 {
            Some(SocketHandle::from_index(*n))
        } else {
            None
        };
        assert_eq!(get_nth(&index, *n), expected);
    }
}

#[test]
fn each_of_the_four_values_tells_connections_apart() {
    let mut index = TcpSocketIndex::new();
    let a = IpAddress::v4(10, 0, 0, 1);
    let b = IpAddress::v4(10, 0, 0, 2);
    let six = IpAddress::Ipv6(Ipv6Address::new(0xfe80, 0, 0, 0, 0, 0, 0, 1));
    assert!(index.insert(a, 1, b, 2, SocketHandle::from_index(1)));

    assert_eq!(index.get(a, 1, b, 2), Some(SocketHandle::from_index(1)));
    assert_eq!(index.get(b, 1, b, 2), None);
    assert_eq!(index.get(a, 3, b, 2), None);
    assert_eq!(index.get(a, 1, a, 2), None);
    assert_eq!(index.get(a, 1, b, 3), None);
    assert_eq!(index.get(six, 1, b, 2), None);
    assert_eq!(index.get(b, 2, a, 1), None);
}

/// One step of the hash, written with the operations of the machine.
fn step(h: usize, word: usize) -> usize {
    h.wrapping_mul(seed()) ^ word
}

#[test]
fn the_seed_is_that_of_the_word_size() {
    if usize::BITS == 64 {
        assert_eq!(seed() as u64, 0x517cc1b727220a95);
    } else {
        assert_eq!(seed() as u64, 0x9e3779b9);
    }
}

#[test]
fn an_ipv4_address_is_one_word() {
    let addr = Ipv4Address::new(192, 168, 69, 1);
    let word = u32::from_ne_bytes([192, 168, 69, 1]) as usize;
    assert_eq!(addr.octets(), [192, 168, 69, 1]);
    assert_eq!(hash_ip_addr(12345, &IpAddress::Ipv4(addr)), step(12345, word));
    assert_eq!(hash_ip_addr(0, &IpAddress::Ipv4(addr)), word);
}

#[test]
fn an_ipv6_address_is_sixteen_octets_in_words() {
    let addr = Ipv6Address::new(0xfe80, 1, 0x0203, 0, 0xffff, 0xabcd, 7, 0x1234);
    let octets: [u8; 16] = [
        0xfe, 0x80, 0, 1, 2, 3, 0, 0, 0xff, 0xff, 0xab, 0xcd, 0, 7, 0x12, 0x34,
    ];
    assert_eq!(addr.octets(), octets);

    let width = (usize::BITS / 8) as usize;
    let mut expected: usize = 99;
    for chunk in octets.chunks(width) {
        expected = step(expected, usize::from_ne_bytes(chunk.try_into().unwrap()));
    }
    assert_eq!(hash_ip_addr(99, &IpAddress::Ipv6(addr)), expected);
}

#[test]
fn a_key_hashes_its_ports_and_then_its_addresses() {
    let key = Key {
        local_addr: IpAddress::v4(10, 0, 0, 1),
        local_port: 80,
        remote_addr: IpAddress::v4(10, 0, 1, 2),
        remote_port: 40000,
    };
    let mut expected = step(80, 40000);
    expected = step(expected, u32::from_ne_bytes([10, 0, 0, 1]) as usize);
    expected = step(expected, u32::from_ne_bytes([10, 0, 1, 2]) as usize);
    assert_eq!(key.hash(), expected);
}

#[test]
fn ipv6_connections_are_indexed() {
    let mut index = TcpSocketIndex::new();
    let here = IpAddress::Ipv6(Ipv6Address::new(0xfe80, 0, 0, 0, 0, 0, 0, 1));
    for n in 0..60u16 {
        let there = IpAddress::Ipv6(Ipv6Address::new(0xfe80, 0, 0, 0, 0, 0, n, 2));
        assert!(index.insert(here, 4243, there, 9999, SocketHandle::from_index(n as usize)));
    }
    for n in 0..60u16 {
        let there = IpAddress::Ipv6(Ipv6Address::new(0xfe80, 0, 0, 0, 0, 0, n, 2));
        assert_eq!(
            index.get(here, 4243, there, 9999),
            Some(SocketHandle::from_index(n as usize))
        );
    }
}

#[test]
fn len_counts_the_connections_that_are_found() {
    let mut index = TcpSocketIndex::new();
    let mut state: usize = 1;
    for _ in 0..2000 {
        state = (state * 1103 + 12345) % 65536;
        let n = state % 90;
        if state / 90 % 5 == 0 {
            index.remove_by_handle(SocketHandle::from_index(n % 7));
        } else if state / 90 % 5 == 1 {
            remove_nth(&mut index, n);
        } else {
            insert_nth(&mut index, n, n % 7);
        }
        let found = (0..90).filter(|n| get_nth(&index, *n).is_some()).count();
        assert_eq!(index.len(), found);
        assert!(found <= CAPACITY / 2);
    }
}
