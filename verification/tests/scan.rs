use netprobe::addr::{Ipv4, Mac, SocketV4};
use netprobe::error::ScanError;
use netprobe::frame::build_ipv4_header;
use netprobe::scanner::packet::{build_with, destination_of, FLAG_ACK, FLAG_RST, FLAG_SYN};
use netprobe::scanner::{
    get_btree, is_ack_syn, is_rst, judge, scan, syn_probe, tcp_reply_from, Receiver, TcpReply,
    Verdict,
};

const LOCAL: Ipv4 = Ipv4 { a: 10, b: 0, c: 0, d: 1 };

fn local_mac() -> Mac {
    Mac::new(0x02, 0, 0, 0, 0, 0x01)
}

fn gateway_mac() -> Mac {
    Mac::new(0x02, 0, 0, 0, 0, 0xfe)
}

fn tcp_frame_to(from: SocketV4, to: Ipv4, local_port: u16, flags: u8) -> Vec<u8> {
    let mut frame = Vec::new();
    frame.extend_from_slice(&local_mac().octets);
    frame.extend_from_slice(&gateway_mac().octets);
    frame.extend_from_slice(&[0x08, 0x00]);
    frame.extend_from_slice(&build_ipv4_header(40, 99, 6, from.ip, to));
    frame.extend_from_slice(&from.port.to_be_bytes());
    frame.extend_from_slice(&local_port.to_be_bytes());
    frame.extend_from_slice(&[0, 0, 0, 1, 0, 0, 0, 1, 0x50, flags, 0xff, 0xff, 0, 0, 0, 0]);
    frame
}

fn reply(from: SocketV4, local_port: u16, flags: u8) -> Vec<u8> {
    tcp_frame_to(from, LOCAL, local_port, flags)
}

fn socket(d: u8, port: u16) -> SocketV4 {
    SocketV4::new(Ipv4::new(10, 0, 0, d), port)
}

#[test]
fn open_closed_and_filtered_ports() {
    let s80 = socket(7, 80);
    let s81 = socket(7, 81);
    let s82 = socket(7, 82);
    let frames = vec![reply(s80, 40001, FLAG_SYN | FLAG_ACK), reply(s81, 40002, FLAG_RST)];
    let (ports, resets) = scan(local_mac(), LOCAL, gateway_mac(), &vec![s80, s81, s82], &frames);
    assert_eq!(ports.open, vec![s80]);
    assert_eq!(ports.closed, vec![s81]);
    assert_eq!(ports.filtered, vec![s82]);
    assert_eq!(resets.len(), 1);
    let reset = resets[0];
    let ident = u16::from_be_bytes([reset[18], reset[19]]);
    let expected =
        build_with(local_mac(), SocketV4::new(LOCAL, 40001), s80, gateway_mac(), FLAG_RST, ident);
    assert_eq!(reset, expected);
    // the reset goes from the probed-from port to the open socket, with RST alone
    assert_eq!(&reset[26..30], &[10, 0, 0, 1]);
    assert_eq!(&reset[30..34], &[10, 0, 0, 7]);
    assert_eq!(u16::from_be_bytes([reset[34], reset[35]]), 40001);
    assert_eq!(u16::from_be_bytes([reset[36], reset[37]]), 80);
    assert_eq!(reset[47], 0x04);
}

#[test]
fn reset_with_ack_means_closed() {
    let s = socket(7, 81);
    let frames = vec![reply(s, 40002, FLAG_RST | FLAG_ACK)];
    let (ports, resets) = scan(local_mac(), LOCAL, gateway_mac(), &vec![s], &frames);
    assert!(ports.open.is_empty());
    assert_eq!(ports.closed, vec![s]);
    assert!(ports.filtered.is_empty());
    assert!(resets.is_empty());
}

#[test]
fn undecided_flags_leave_the_socket_pending() {
    let s = socket(7, 443);
    for flags in [0u8, FLAG_SYN, FLAG_ACK, 0x01, 0x08 | FLAG_ACK, 0x20] {
        let (ports, resets) =
            scan(local_mac(), LOCAL, gateway_mac(), &vec![s], &vec![reply(s, 40000, flags)]);
        assert!(ports.open.is_empty(), "flags {:#x}", flags);
        assert!(ports.closed.is_empty(), "flags {:#x}", flags);
        assert_eq!(ports.filtered, vec![s]);
        assert!(resets.is_empty());
    }
    // an undecided reply does not keep a later deciding one from counting
    let frames = vec![reply(s, 40000, FLAG_ACK), reply(s, 40000, FLAG_SYN | FLAG_ACK)];
    let (ports, resets) = scan(local_mac(), LOCAL, gateway_mac(), &vec![s], &frames);
    assert_eq!(ports.open, vec![s]);
    assert_eq!(resets.len(), 1);
}

#[test]
fn flags_are_judged_bit_by_bit() {
    assert!(is_ack_syn(0x12));
    assert!(is_ack_syn(0x12 | 0x04));
    assert!(is_ack_syn(0xff));
    assert!(!is_ack_syn(0x02));
    assert!(!is_ack_syn(0x10));
    assert!(!is_ack_syn(0x00));
    assert!(is_rst(0x04));
    assert!(is_rst(0x14));
    assert!(!is_rst(0x12));
    assert!(!is_rst(0x00));
    assert_eq!(judge(0x12), Some(Verdict::Open));
    assert_eq!(judge(0x16), Some(Verdict::Open));
    assert_eq!(judge(0x04), Some(Verdict::Closed));
    assert_eq!(judge(0x14), Some(Verdict::Closed));
    assert_eq!(judge(0x06), Some(Verdict::Closed));
    assert_eq!(judge(0x10), None);
    assert_eq!(judge(0x02), None);
    assert_eq!(judge(0x00), None);
    for flags in 0..=255u8 {
        let expected = if flags & 0x12 == 0x12 {
            Some(Verdict::Open)
        } else if flags & 0x04 != 0 {
            Some(Verdict::Closed)
        } else {
            None
        };
        assert_eq!(judge(flags), expected);
    }
}

#[test]
fn first_deciding_reply_wins() {
    let s = socket(7, 80);
    let t = socket(7, 81);
    let frames = vec![
        reply(s, 40001, FLAG_SYN | FLAG_ACK),
        reply(s, 40001, FLAG_RST),
        reply(s, 40001, FLAG_SYN | FLAG_ACK),
        reply(t, 40002, FLAG_RST),
        reply(t, 40002, FLAG_SYN | FLAG_ACK),
        reply(t, 40002, FLAG_RST),
    ];
    let (ports, resets) = scan(local_mac(), LOCAL, gateway_mac(), &vec![s, t], &frames);
    assert_eq!(ports.open, vec![s]);
    assert_eq!(ports.closed, vec![t]);
    assert!(ports.filtered.is_empty());
    assert_eq!(resets.len(), 1);
}

#[test]
fn sockets_are_matched_on_address_and_port() {
    let s = socket(7, 80);
    let frames = vec![
        reply(socket(7, 8080), 40001, FLAG_SYN | FLAG_ACK),
        reply(socket(8, 80), 40001, FLAG_SYN | FLAG_ACK),
        tcp_frame_to(s, Ipv4::new(10, 0, 0, 2), 40001, FLAG_SYN | FLAG_ACK),
    ];
    let (ports, resets) = scan(local_mac(), LOCAL, gateway_mac(), &vec![s], &frames);
    assert!(ports.open.is_empty());
    assert!(ports.closed.is_empty());
    assert_eq!(ports.filtered, vec![s]);
    assert!(resets.is_empty());
}

#[test]
fn scan_buckets_partition_the_targets() {
    let targets: Vec<SocketV4> =
        [22u16, 80, 443, 8080, 25, 53].iter().map(|p| socket(9, *p)).collect();
    let frames = vec![
        reply(socket(9, 443), 50000, 0x12),
        reply(socket(9, 22), 50001, 0x14),
        reply(socket(9, 443), 50000, 0x04),
        reply(socket(9, 53), 50002, 0x12),
        reply(socket(9, 9999), 50003, 0x12),
        vec![1, 2, 3],
    ];
    let (ports, resets) = scan(local_mac(), LOCAL, gateway_mac(), &targets, &frames);
    assert_eq!(ports.open, vec![socket(9, 443), socket(9, 53)]);
    assert_eq!(ports.closed, vec![socket(9, 22)]);
    assert_eq!(ports.filtered, vec![socket(9, 25), socket(9, 80), socket(9, 8080)]);
    assert_eq!(resets.len(), 2);
    assert_eq!(u16::from_be_bytes([resets[1][34], resets[1][35]]), 50002);
    assert_eq!(u16::from_be_bytes([resets[1][36], resets[1][37]]), 53);
    for t in &targets {
        let n = ports.open.iter().filter(|x| *x == t).count()
            + ports.closed.iter().filter(|x| *x == t).count()
            + ports.filtered.iter().filter(|x| *x == t).count();
        assert_eq!(n, 1);
    }
}

#[test]
fn filtered_sockets_ascend_by_address_then_port() {
    let targets = vec![
        SocketV4::new(Ipv4::new(10, 0, 1, 0), 1),
        SocketV4::new(Ipv4::new(10, 0, 0, 255), 65535),
        SocketV4::new(Ipv4::new(10, 0, 0, 255), 0),
        SocketV4::new(Ipv4::new(255, 255, 255, 255), 65535),
        SocketV4::new(Ipv4::new(0, 0, 0, 0), 0),
    ];
    let (ports, _) = scan(local_mac(), LOCAL, gateway_mac(), &targets, &vec![]);
    assert_eq!(
        ports.filtered,
        vec![
            SocketV4::new(Ipv4::new(0, 0, 0, 0), 0),
            SocketV4::new(Ipv4::new(10, 0, 0, 255), 0),
            SocketV4::new(Ipv4::new(10, 0, 0, 255), 65535),
            SocketV4::new(Ipv4::new(10, 0, 1, 0), 1),
            SocketV4::new(Ipv4::new(255, 255, 255, 255), 65535),
        ]
    );
}

#[test]
fn tcp_reply_is_read_from_the_frame() {
    let s = socket(7, 80);
    assert_eq!(
        tcp_reply_from(&reply(s, 40001, 0x12), LOCAL),
        Some(TcpReply { source: s, local_port: 40001, flags: 0x12 })
    );
    let whole = reply(s, 40001, 0x12);
    for len in 0..whole.len() {
        assert_eq!(tcp_reply_from(&whole[..len], LOCAL), None, "length {}", len);
    }
    // a segment of 19 bytes is no TCP header
    let mut stub = reply(s, 40001, 0x12);
    stub[17] = 39;
    assert_eq!(tcp_reply_from(&stub, LOCAL), None);
    // ICMP is not TCP
    let mut other = reply(s, 40001, 0x12);
    other[23] = 1;
    assert_eq!(tcp_reply_from(&other, LOCAL), None);
}

#[test]
fn receiver_takes_frames_one_by_one() {
    let s80 = socket(7, 80);
    let s81 = socket(7, 81);
    let mut receiver = Receiver::new(local_mac(), LOCAL, gateway_mac(), &vec![s81, s80, s80]);
    assert!(receiver.receive(&reply(s81, 40000, FLAG_RST)).is_none());
    let reset = receiver.receive(&reply(s80, 40001, FLAG_SYN | FLAG_ACK)).unwrap();
    assert_eq!(reset[47], FLAG_RST);
    assert!(receiver.receive(&reply(s80, 40001, FLAG_SYN | FLAG_ACK)).is_none());
    let ports = receiver.finish();
    assert_eq!(ports.open, vec![s80]);
    assert_eq!(ports.closed, vec![s81]);
    assert!(ports.filtered.is_empty());
}

#[test]
fn pending_set_of_sockets_holds_each_once() {
    let set = get_btree(&vec![socket(7, 81), socket(7, 80), socket(7, 81)]);
    assert_eq!(set.len(), 2);
    assert!(set.contains(socket(7, 80).key()));
    assert!(set.contains(socket(7, 81).key()));
    assert!(!set.contains(socket(7, 82).key()));
    assert_eq!(set.into_keys(), vec![socket(7, 80).key(), socket(7, 81).key()]);
}

#[test]
fn syn_probe_leaves_from_a_high_port() {
    let target = socket(7, 80);
    for _ in 0..200 {
        let frame = syn_probe(local_mac(), LOCAL, gateway_mac(), target);
        let port = u16::from_be_bytes([frame[34], frame[35]]);
        assert!(port >= 20000);
        let ident = u16::from_be_bytes([frame[18], frame[19]]);
        let expected = build_with(
            local_mac(),
            SocketV4::new(LOCAL, port),
            target,
            gateway_mac(),
            FLAG_SYN,
            ident,
        );
        assert_eq!(frame, expected);
    }
}

#[test]
fn failed_read_of_the_scan_is_fatal() {
    let s80 = socket(7, 80);
    let mut receiver = Receiver::new(local_mac(), LOCAL, gateway_mac(), &vec![s80]);
    assert_eq!(receiver.take(None), Err(ScanError::Receive));
    assert_eq!(receiver.take(Some(&reply(s80, 40001, FLAG_ACK))), Ok(None));
    let reset = receiver.take(Some(&reply(s80, 40001, FLAG_SYN | FLAG_ACK))).unwrap().unwrap();
    assert_eq!(reset[47], FLAG_RST);
    assert_eq!(receiver.take(None), Err(ScanError::Receive));
    let ports = receiver.finish();
    assert_eq!(ports.open, vec![s80]);
    assert!(ports.filtered.is_empty());
}

#[test]
fn built_frame_names_its_destination() {
    for (d, port) in [(7u8, 80u16), (255, 65535), (0, 0), (1, 256)] {
        let to = socket(d, port);
        let frame =
            build_with(local_mac(), SocketV4::new(LOCAL, 40000), to, gateway_mac(), FLAG_SYN, 9);
        assert_eq!(destination_of(&frame), to);
    }
}

#[test]
fn built_frame_is_read_back_at_its_destination() {
    let from = SocketV4::new(Ipv4::new(10, 0, 0, 7), 443);
    let to = SocketV4::new(LOCAL, 40123);
    for flags in [FLAG_SYN, FLAG_RST, FLAG_SYN | FLAG_ACK, 0xff, 0x00] {
        let frame = build_with(gateway_mac(), from, to, local_mac(), flags, 0x7777);
        assert_eq!(
            tcp_reply_from(&frame, LOCAL),
            Some(TcpReply { source: from, local_port: 40123, flags })
        );
        assert_eq!(tcp_reply_from(&frame, Ipv4::new(10, 0, 0, 2)), None);
    }
}

#[test]
fn own_probes_decide_nothing() {
    let target = socket(7, 80);
    let probe = syn_probe(local_mac(), LOCAL, gateway_mac(), target);
    let (ports, resets) =
        scan(local_mac(), LOCAL, gateway_mac(), &vec![target], &vec![probe.to_vec()]);
    assert_eq!(ports.filtered, vec![target]);
    assert!(resets.is_empty());
}

#[test]
fn identification_has_no_part_in_matching() {
    let s80 = socket(7, 80);
    let whole = reply(s80, 40001, FLAG_SYN | FLAG_ACK);
    let expected = tcp_reply_from(&whole, LOCAL);
    assert!(expected.is_some());
    for at in [18usize, 19, 24, 25] {
        for value in [0u8, 1, 0x80, 0xff] {
            let mut frame = whole.clone();
            frame[at] = value;
            assert_eq!(tcp_reply_from(&frame, LOCAL), expected, "offset {}", at);
        }
    }
}
