use netprobe::addr::{Ipv4, Mac};
use netprobe::error::ScanError;
use netprobe::frame::build_ipv4_header;
use netprobe::icmp_detector::packet::build;
use netprobe::icmp_detector::{detect, echo_reply_from, Detector};

const LOCAL: Ipv4 = Ipv4 { a: 10, b: 0, c: 0, d: 1 };

fn link_header(ether_type: [u8; 2]) -> Vec<u8> {
    let local = Mac::new(0x02, 0, 0, 0, 0, 0x01);
    let peer = Mac::new(0x02, 0, 0, 0, 0, 0xfe);
    let mut frame = Vec::new();
    frame.extend_from_slice(&local.octets);
    frame.extend_from_slice(&peer.octets);
    frame.extend_from_slice(&ether_type);
    frame
}

fn icmp_frame(from: Ipv4, to: Ipv4, icmp_type: u8) -> Vec<u8> {
    let mut frame = link_header([0x08, 0x00]);
    frame.extend_from_slice(&build_ipv4_header(28, 7, 1, from, to));
    frame.extend_from_slice(&[icmp_type, 0, 0, 0, 0x12, 0x34, 0, 1]);
    frame
}

fn echo_reply(from: Ipv4) -> Vec<u8> {
    icmp_frame(from, LOCAL, 0)
}

#[test]
fn one_of_two_targets_replies() {
    let t5 = Ipv4::new(10, 0, 0, 5);
    let t6 = Ipv4::new(10, 0, 0, 6);
    let found = detect(LOCAL, &vec![t5, t6], &vec![echo_reply(t5)]);
    assert_eq!(found.reachable, vec![t5]);
    assert_eq!(found.unreachable, vec![t6]);
}

#[test]
fn no_frame_leaves_every_target_unreachable() {
    let targets = vec![Ipv4::new(10, 0, 0, 9), Ipv4::new(10, 0, 0, 5), Ipv4::new(10, 0, 0, 7)];
    let found = detect(LOCAL, &targets, &vec![]);
    assert!(found.reachable.is_empty());
    assert_eq!(
        found.unreachable,
        vec![Ipv4::new(10, 0, 0, 5), Ipv4::new(10, 0, 0, 7), Ipv4::new(10, 0, 0, 9)]
    );
}

#[test]
fn empty_target_list_gives_empty_lists() {
    let found = detect(LOCAL, &vec![], &vec![echo_reply(Ipv4::new(10, 0, 0, 5))]);
    assert!(found.reachable.is_empty());
    assert!(found.unreachable.is_empty());
}

#[test]
fn reachable_follows_arrival_and_unreachable_ascends() {
    let a = Ipv4::new(10, 0, 0, 2);
    let b = Ipv4::new(10, 0, 0, 3);
    let c = Ipv4::new(10, 0, 1, 0);
    let d = Ipv4::new(9, 255, 255, 255);
    let frames = vec![echo_reply(c), echo_reply(a)];
    let found = detect(LOCAL, &vec![a, b, c, d], &frames);
    assert_eq!(found.reachable, vec![c, a]);
    assert_eq!(found.unreachable, vec![d, b]);
}

#[test]
fn repeated_reply_is_counted_once() {
    let t5 = Ipv4::new(10, 0, 0, 5);
    let t6 = Ipv4::new(10, 0, 0, 6);
    let frames = vec![echo_reply(t5), echo_reply(t5), echo_reply(t6), echo_reply(t5)];
    let found = detect(LOCAL, &vec![t5, t6], &frames);
    assert_eq!(found.reachable, vec![t5, t6]);
    assert!(found.unreachable.is_empty());
}

#[test]
fn duplicate_targets_are_one_target() {
    let t5 = Ipv4::new(10, 0, 0, 5);
    let found = detect(LOCAL, &vec![t5, t5, t5], &vec![]);
    assert_eq!(found.unreachable, vec![t5]);
    let found = detect(LOCAL, &vec![t5, t5], &vec![echo_reply(t5)]);
    assert_eq!(found.reachable, vec![t5]);
    assert!(found.unreachable.is_empty());
}

#[test]
fn buckets_partition_the_targets() {
    let targets: Vec<Ipv4> = (1..=20).map(|d| Ipv4::new(192, 168, 0, d)).collect();
    let frames: Vec<Vec<u8>> =
        [3u8, 7, 7, 19, 4, 200, 3].iter().map(|d| echo_reply(Ipv4::new(192, 168, 0, *d))).collect();
    let found = detect(LOCAL, &targets, &frames);
    assert_eq!(found.reachable.len() + found.unreachable.len(), targets.len());
    for t in &targets {
        let r = found.reachable.iter().filter(|x| *x == t).count();
        let u = found.unreachable.iter().filter(|x| *x == t).count();
        assert_eq!(r + u, 1);
    }
    assert_eq!(
        found.reachable,
        vec![
            Ipv4::new(192, 168, 0, 3),
            Ipv4::new(192, 168, 0, 7),
            Ipv4::new(192, 168, 0, 19),
            Ipv4::new(192, 168, 0, 4)
        ]
    );
}

#[test]
fn reply_from_a_stranger_is_ignored() {
    let t5 = Ipv4::new(10, 0, 0, 5);
    let found = detect(LOCAL, &vec![t5], &vec![echo_reply(Ipv4::new(10, 0, 0, 50))]);
    assert!(found.reachable.is_empty());
    assert_eq!(found.unreachable, vec![t5]);
}

#[test]
fn frames_that_are_no_echo_reply_are_discarded() {
    let t5 = Ipv4::new(10, 0, 0, 5);
    // an echo request, not a reply
    assert_eq!(echo_reply_from(&icmp_frame(t5, LOCAL, 8), LOCAL), None);
    // destination unreachable
    assert_eq!(echo_reply_from(&icmp_frame(t5, LOCAL, 3), LOCAL), None);
    // for another address
    assert_eq!(echo_reply_from(&icmp_frame(t5, Ipv4::new(10, 0, 0, 2), 0), LOCAL), None);
    // not IPv4 on the link
    let mut arp = echo_reply(t5);
    arp[12] = 0x08;
    arp[13] = 0x06;
    assert_eq!(echo_reply_from(&arp, LOCAL), None);
    // TCP instead of ICMP
    let mut tcp = echo_reply(t5);
    tcp[23] = 6;
    assert_eq!(echo_reply_from(&tcp, LOCAL), None);
    // IP version 6 in the header
    let mut six = echo_reply(t5);
    six[14] = 0x65;
    assert_eq!(echo_reply_from(&six, LOCAL), None);
    // header length below five words
    let mut short_header = echo_reply(t5);
    short_header[14] = 0x44;
    assert_eq!(echo_reply_from(&short_header, LOCAL), None);
    // a good one, for comparison
    assert_eq!(echo_reply_from(&echo_reply(t5), LOCAL), Some(t5));
}

#[test]
fn truncated_frames_are_discarded() {
    let t5 = Ipv4::new(10, 0, 0, 5);
    let whole = echo_reply(t5);
    for len in 0..whole.len() {
        assert_eq!(echo_reply_from(&whole[..len], LOCAL), None, "length {}", len);
    }
    assert_eq!(echo_reply_from(&whole, LOCAL), Some(t5));
    // total length larger than what is there
    let mut liar = echo_reply(t5);
    liar[17] = 29;
    assert_eq!(echo_reply_from(&liar, LOCAL), None);
    // total length smaller than the header
    let mut tiny = echo_reply(t5);
    tiny[17] = 19;
    assert_eq!(echo_reply_from(&tiny, LOCAL), None);
    // an ICMP message of under four bytes
    let mut stub = echo_reply(t5);
    stub[17] = 23;
    assert_eq!(echo_reply_from(&stub, LOCAL), None);
    stub[17] = 24;
    assert_eq!(echo_reply_from(&stub, LOCAL), Some(t5));
}

#[test]
fn padded_frame_and_ip_options_are_read() {
    let t5 = Ipv4::new(10, 0, 0, 5);
    let mut padded = echo_reply(t5);
    padded.resize(60, 0);
    assert_eq!(echo_reply_from(&padded, LOCAL), Some(t5));
    // a header of six words: the ICMP type stands four bytes later
    let mut frame = link_header([0x08, 0x00]);
    let mut header = build_ipv4_header(32, 7, 1, t5, LOCAL).to_vec();
    header[0] = 0x46;
    frame.extend_from_slice(&header);
    frame.extend_from_slice(&[1, 1, 1, 1]);
    frame.extend_from_slice(&[0, 0, 0, 0, 0, 0, 0, 1]);
    assert_eq!(echo_reply_from(&frame, LOCAL), Some(t5));
    frame[38] = 8;
    assert_eq!(echo_reply_from(&frame, LOCAL), None);
}

#[test]
fn detector_takes_frames_one_by_one() {
    let t5 = Ipv4::new(10, 0, 0, 5);
    let t6 = Ipv4::new(10, 0, 0, 6);
    let mut detector = Detector::new(LOCAL, &vec![t6, t5]);
    assert_eq!(detector.receive(&echo_reply(Ipv4::new(10, 0, 0, 7))), None);
    assert_eq!(detector.receive(&echo_reply(t6)), Some(t6));
    assert_eq!(detector.receive(&echo_reply(t6)), None);
    assert_eq!(detector.receive(&[0u8; 10]), None);
    let found = detector.finish();
    assert_eq!(found.reachable, vec![t6]);
    assert_eq!(found.unreachable, vec![t5]);
}

#[test]
fn failed_read_is_fatal_and_changes_nothing() {
    let t5 = Ipv4::new(10, 0, 0, 5);
    let t6 = Ipv4::new(10, 0, 0, 6);
    let mut detector = Detector::new(LOCAL, &vec![t5, t6]);
    assert_eq!(detector.take(Some(&echo_reply(t5))), Ok(Some(t5)));
    assert_eq!(detector.take(Some(&[0u8; 3])), Ok(None));
    assert_eq!(detector.take(None), Err(ScanError::Receive));
    let found = detector.finish();
    assert_eq!(found.reachable, vec![t5]);
    assert_eq!(found.unreachable, vec![t6]);
}

#[test]
fn echo_request_is_no_echo_reply() {
    let t5 = Ipv4::new(10, 0, 0, 5);
    let local = Mac::new(0x02, 0, 0, 0, 0, 0x01);
    let gateway = Mac::new(0x02, 0, 0, 0, 0, 0xfe);
    let probe = build(local, LOCAL, t5, gateway);
    assert_eq!(echo_reply_from(&probe, LOCAL), None);
    assert_eq!(echo_reply_from(&probe, t5), None);
    // the same frame with the type of a reply is one, read at its destination
    let mut reply = probe;
    reply[34] = 0;
    assert_eq!(echo_reply_from(&reply, t5), Some(LOCAL));
    let found = detect(LOCAL, &vec![t5], &vec![probe.to_vec()]);
    assert_eq!(found.unreachable, vec![t5]);
}

#[test]
fn random_fields_have_no_part_in_matching() {
    let t5 = Ipv4::new(10, 0, 0, 5);
    let whole = echo_reply(t5);
    for at in [18usize, 19, 24, 25, 35, 36, 37, 38, 39, 40, 41] {
        for value in [0u8, 1, 0x80, 0xff] {
            let mut frame = whole.clone();
            frame[at] = value;
            assert_eq!(echo_reply_from(&frame, LOCAL), Some(t5), "offset {}", at);
        }
    }
}
