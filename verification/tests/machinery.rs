use netprobe::addr::{Ipv4, Mac, SocketV4};
use netprobe::error::{conclude, ScanError};
use netprobe::interface::{find_interface, Interface};
use netprobe::pending::PendingSet;
use netprobe::scanner::get_socket_addr;
use netprobe::config::{GRACE_PERIOD, PACING_DELAY};
use netprobe::transmit::{Action, Transmitter};

#[test]
fn transmitter_sends_paces_waits_and_signals_once() {
    let mut tx = Transmitter::new(2, 1, 100_000);
    let mut seen = Vec::new();
    for _ in 0..10 {
        seen.push(tx.step(true));
    }
    assert_eq!(
        seen,
        vec![
            Ok(Action::Send(0)),
            Ok(Action::Sleep(1)),
            Ok(Action::Send(1)),
            Ok(Action::Sleep(1)),
            Ok(Action::Sleep(100_000)),
            Ok(Action::Signal),
            Ok(Action::Done),
            Ok(Action::Done),
            Ok(Action::Done),
            Ok(Action::Done),
        ]
    );
    assert_eq!(tx.progress(), 2);
}

#[test]
fn transmitter_without_targets_still_waits_and_signals() {
    let mut tx = Transmitter::new(0, 1, 100_000);
    assert_eq!(tx.step(true), Ok(Action::Sleep(100_000)));
    assert_eq!(tx.step(true), Ok(Action::Signal));
    assert_eq!(tx.step(true), Ok(Action::Done));
    assert_eq!(tx.progress(), 0);
}

#[test]
fn failed_write_gives_up_the_scan() {
    let mut tx = Transmitter::new(3, 5, 7);
    assert_eq!(tx.step(true), Ok(Action::Send(0)));
    assert_eq!(tx.step(true), Ok(Action::Sleep(5)));
    assert_eq!(tx.progress(), 1);
    assert_eq!(tx.step(true), Ok(Action::Send(1)));
    assert_eq!(tx.step(false), Err(ScanError::Send));
    assert_eq!(tx.progress(), 1);
    for ok in [true, false, true] {
        assert_eq!(tx.step(ok), Err(ScanError::Send));
    }
}

#[test]
fn outcome_of_the_last_write_counts_only_after_a_send() {
    let mut tx = Transmitter::new(1, 5, 7);
    assert_eq!(tx.step(false), Ok(Action::Send(0)));
    assert_eq!(tx.step(true), Ok(Action::Sleep(5)));
    assert_eq!(tx.step(false), Ok(Action::Sleep(7)));
    assert_eq!(tx.step(false), Ok(Action::Signal));
    assert_eq!(tx.step(false), Ok(Action::Done));
}

#[test]
fn errors_have_messages() {
    assert_eq!(ScanError::InterfaceNotFound.message(), "no interface is bound to the local address");
    assert_eq!(ScanError::Send.message(), "a frame could not be sent");
    assert_eq!(ScanError::Receive.message(), "the link could not be read");
}

#[test]
fn first_interface_with_the_address_is_found() {
    let ip = Ipv4::new(192, 168, 1, 10);
    let mac1 = Mac::new(1, 1, 1, 1, 1, 1);
    let mac2 = Mac::new(2, 2, 2, 2, 2, 2);
    let list = vec![
        Interface { ip: None, mac: None },
        Interface { ip: Some(Ipv4::new(127, 0, 0, 1)), mac: None },
        Interface { ip: Some(ip), mac: Some(mac1) },
        Interface { ip: Some(ip), mac: Some(mac2) },
    ];
    assert_eq!(find_interface(&list, ip), Ok((2, mac1)));
    assert_eq!(find_interface(&list, Ipv4::new(10, 0, 0, 1)), Err(ScanError::InterfaceNotFound));
    assert_eq!(find_interface(&list, Ipv4::new(127, 0, 0, 1)), Err(ScanError::InterfaceNotFound));
    assert_eq!(find_interface(&vec![], ip), Err(ScanError::InterfaceNotFound));
    // the first bound interface decides, also where it has no hardware address
    let list = vec![Interface { ip: Some(ip), mac: None }, Interface { ip: Some(ip), mac: Some(mac2) }];
    assert_eq!(find_interface(&list, ip), Err(ScanError::InterfaceNotFound));
}

#[test]
fn pending_set_keeps_keys_unique_and_ascending() {
    let mut set = PendingSet::new();
    assert_eq!(set.len(), 0);
    assert!(!set.contains(5));
    assert!(set.insert(5));
    assert!(set.insert(1));
    assert!(set.insert(9));
    assert!(!set.insert(5));
    assert!(set.insert(u64::MAX));
    assert!(set.insert(0));
    assert_eq!(set.len(), 5);
    assert!(set.contains(0) && set.contains(1) && set.contains(5) && set.contains(9));
    assert!(!set.contains(2));
    assert!(set.remove(5));
    assert!(!set.remove(5));
    assert!(!set.remove(7));
    assert!(!set.contains(5));
    assert_eq!(set.len(), 4);
    assert_eq!(set.into_keys(), vec![0, 1, 9, u64::MAX]);
    let set = PendingSet::from_keys(&vec![3, 1, 3, 2, 1]);
    assert_eq!(set.into_keys(), vec![1, 2, 3]);
    assert!(PendingSet::from_keys(&vec![]).into_keys().is_empty());
}

#[test]
fn addresses_and_keys_convert_both_ways() {
    let ip = Ipv4::new(192, 168, 1, 10);
    assert_eq!(ip.to_bits(), 0xc0a8010a);
    assert_eq!(ip.key(), 0xc0a8010a);
    assert_eq!(Ipv4::from_bits(0xc0a8010a), ip);
    assert_eq!(Ipv4::from_key(0xc0a8010a), ip);
    assert_eq!(Ipv4::from_bits(0), Ipv4::new(0, 0, 0, 0));
    assert_eq!(Ipv4::from_bits(u32::MAX), Ipv4::new(255, 255, 255, 255));
    let socket = SocketV4::new(ip, 443);
    assert_eq!(socket.key(), 0xc0a8010a01bb);
    assert_eq!(SocketV4::from_key(0xc0a8010a01bb), socket);
    assert_eq!(SocketV4::from_key(0xffff_ffff_ffff), SocketV4::new(Ipv4::new(255, 255, 255, 255), 65535));
    assert!(Ipv4::new(255, 255, 255, 255).is_broadcast());
    assert!(!Ipv4::new(255, 255, 255, 254).is_broadcast());
    assert!(Ipv4::new(224, 0, 0, 0).is_multicast());
    assert!(Ipv4::new(239, 255, 255, 255).is_multicast());
    assert!(!Ipv4::new(223, 255, 255, 255).is_multicast());
    assert!(!Ipv4::new(240, 0, 0, 0).is_multicast());
}

#[test]
fn every_address_is_paired_with_every_port() {
    let ips = vec![Ipv4::new(10, 0, 0, 2), Ipv4::new(10, 0, 0, 1)];
    let ports = vec![80, 22, 443];
    let pairs = get_socket_addr(&ips, &ports);
    assert_eq!(
        pairs,
        vec![
            SocketV4::new(ips[0], 80),
            SocketV4::new(ips[0], 22),
            SocketV4::new(ips[0], 443),
            SocketV4::new(ips[1], 80),
            SocketV4::new(ips[1], 22),
            SocketV4::new(ips[1], 443),
        ]
    );
    assert!(get_socket_addr(&vec![], &ports).is_empty());
    assert!(get_socket_addr(&ips, &vec![]).is_empty());
}

#[test]
fn a_scan_is_all_or_nothing() {
    assert_eq!(conclude(Ok(()), Ok(7)), Ok(7));
    assert_eq!(conclude(Err(ScanError::Send), Ok(7)), Err(ScanError::Send));
    assert_eq!(conclude::<u8>(Ok(()), Err(ScanError::Receive)), Err(ScanError::Receive));
    assert_eq!(conclude::<u8>(Err(ScanError::Send), Err(ScanError::Receive)), Err(ScanError::Send));
    assert_eq!(
        conclude::<u8>(Err(ScanError::InterfaceNotFound), Err(ScanError::Receive)),
        Err(ScanError::InterfaceNotFound)
    );
}

#[test]
fn probes_are_paced_by_a_microsecond_and_graced_by_a_tenth_of_a_second() {
    assert_eq!(PACING_DELAY, 1);
    assert_eq!(GRACE_PERIOD, 100_000);
}
