use netprobe::addr::{Ipv4, Mac, SocketV4};
use netprobe::icmp_detector;
use netprobe::scanner;
use pnet::packet::ethernet::{EtherTypes, MutableEthernetPacket};
use pnet::packet::icmp::echo_request::{IcmpCodes, MutableEchoRequestPacket};
use pnet::packet::icmp::IcmpTypes;
use pnet::packet::ip::IpNextHeaderProtocols;
use pnet::packet::ipv4::{Ipv4Flags, MutableIpv4Packet};
use pnet::packet::tcp::{MutableTcpPacket, TcpFlags, TcpOption};
use pnet::packet::Packet;
use pnet::util::MacAddr;

fn local_mac() -> Mac {
    Mac::new(0x02, 0x42, 0xac, 0x11, 0x00, 0x02)
}

fn gateway_mac() -> Mac {
    Mac::new(0x02, 0x42, 0xac, 0x11, 0x00, 0x01)
}

fn to_mac(mac: Mac) -> MacAddr {
    let o = mac.octets;
    MacAddr::new(o[0], o[1], o[2], o[3], o[4], o[5])
}

fn to_ip(ip: Ipv4) -> [u8; 4] {
    [ip.a, ip.b, ip.c, ip.d]
}

fn fill_ip_and_link(
    buf: &mut [u8],
    total: u16,
    ident: u16,
    tcp: bool,
    src_mac: Mac,
    src: Ipv4,
    dst: Ipv4,
    gateway: Mac,
) {
    {
        let mut ip_header = MutableIpv4Packet::new(&mut buf[14..34]).unwrap();
        ip_header.set_version(4);
        ip_header.set_header_length(5);
        ip_header.set_dscp(0);
        ip_header.set_ecn(0);
        ip_header.set_total_length(total);
        ip_header.set_identification(ident);
        ip_header.set_flags(Ipv4Flags::DontFragment);
        ip_header.set_fragment_offset(0);
        ip_header.set_ttl(128);
        ip_header.set_next_level_protocol(if tcp {
            IpNextHeaderProtocols::Tcp
        } else {
            IpNextHeaderProtocols::Icmp
        });
        ip_header.set_source(to_ip(src).into());
        ip_header.set_destination(to_ip(dst).into());
        let sum = pnet::packet::ipv4::checksum(&ip_header.to_immutable());
        ip_header.set_checksum(sum);
    }
    let mut eth_header = MutableEthernetPacket::new(&mut buf[0..14]).unwrap();
    eth_header.set_destination(to_mac(gateway));
    eth_header.set_source(to_mac(src_mac));
    eth_header.set_ethertype(EtherTypes::Ipv4);
}

fn echo_by_fields(src: Ipv4, dst: Ipv4, ident: u16, identifier: u16) -> Vec<u8> {
    let mut buf = vec![0u8; 42];
    {
        let mut request = MutableEchoRequestPacket::new(&mut buf[34..]).unwrap();
        request.set_icmp_type(IcmpTypes::EchoRequest);
        request.set_icmp_code(IcmpCodes::NoCode);
        request.set_identifier(identifier);
        request.set_sequence_number(1);
        let sum = pnet::packet::util::checksum(request.packet(), 1);
        request.set_checksum(sum);
    }
    fill_ip_and_link(&mut buf, 28, ident, false, local_mac(), src, dst, gateway_mac());
    buf
}

fn tcp_by_fields(src: SocketV4, dst: SocketV4, flags: u8, ident: u16) -> Vec<u8> {
    let mut buf = vec![0u8; 66];
    {
        let mut tcp_header = MutableTcpPacket::new(&mut buf[34..]).unwrap();
        tcp_header.set_source(src.port);
        tcp_header.set_destination(dst.port);
        tcp_header.set_sequence(0);
        tcp_header.set_acknowledgement(0);
        tcp_header.set_data_offset(8);
        tcp_header.set_flags(flags);
        tcp_header.set_window(64240);
        tcp_header.set_urgent_ptr(0);
        tcp_header.set_options(&[
            TcpOption::mss(1460),
            TcpOption::nop(),
            TcpOption::wscale(8),
            TcpOption::nop(),
            TcpOption::nop(),
            TcpOption::sack_perm(),
        ]);
        let sum = pnet::packet::tcp::ipv4_checksum(
            &tcp_header.to_immutable(),
            &to_ip(src.ip).into(),
            &to_ip(dst.ip).into(),
        );
        tcp_header.set_checksum(sum);
    }
    fill_ip_and_link(&mut buf, 52, ident, true, local_mac(), src.ip, dst.ip, gateway_mac());
    buf
}

#[test]
fn echo_frame_matches_field_by_field_construction() {
    let src = Ipv4::new(192, 168, 1, 10);
    let dst = Ipv4::new(10, 0, 0, 5);
    for (ident, identifier) in [(0u16, 0u16), (0x1234, 0xabcd), (0xffff, 0xffff), (1, 65534)] {
        let frame =
            icmp_detector::packet::build_with(local_mac(), src, dst, gateway_mac(), ident, identifier);
        assert_eq!(frame.to_vec(), echo_by_fields(src, dst, ident, identifier));
    }
}

#[test]
fn tcp_frame_matches_field_by_field_construction() {
    let src = SocketV4::new(Ipv4::new(192, 168, 1, 10), 40000);
    let dst = SocketV4::new(Ipv4::new(10, 0, 0, 7), 80);
    for flags in [TcpFlags::SYN, TcpFlags::RST] {
        for ident in [0u16, 0x4242, 0xffff] {
            let frame =
                scanner::packet::build_with(local_mac(), src, dst, gateway_mac(), flags, ident);
            assert_eq!(frame.to_vec(), tcp_by_fields(src, dst, flags, ident));
        }
    }
}

#[test]
fn echo_frame_bytes_are_exact() {
    let frame = icmp_detector::packet::build_with(
        local_mac(),
        Ipv4::new(192, 168, 1, 10),
        Ipv4::new(10, 0, 0, 5),
        gateway_mac(),
        0x1234,
        0xabcd,
    );
    let expected: [u8; 42] = [
        0x02, 0x42, 0xac, 0x11, 0x00, 0x01, 0x02, 0x42, 0xac, 0x11, 0x00, 0x02, 0x08, 0x00,
        0x45, 0x00, 0x00, 0x1c, 0x12, 0x34, 0x40, 0x00, 0x80, 0x01, 0x1c, 0xf6, 192, 168, 1, 10,
        10, 0, 0, 5,
        0x08, 0x00, 0x4c, 0x31, 0xab, 0xcd, 0x00, 0x01,
    ];
    assert_eq!(frame, expected);
}

#[test]
fn random_fields_leave_the_other_bytes_alone() {
    let src = Ipv4::new(192, 168, 1, 10);
    let dst = Ipv4::new(10, 0, 0, 5);
    let first = icmp_detector::packet::build(local_mac(), src, dst, gateway_mac());
    for _ in 0..50 {
        let next = icmp_detector::packet::build(local_mac(), src, dst, gateway_mac());
        for i in 0..42 {
            if ![18usize, 19, 24, 25, 36, 37, 38, 39].contains(&i) {
                assert_eq!(first[i], next[i], "offset {}", i);
            }
        }
    }
    let from = SocketV4::new(src, 40000);
    let to = SocketV4::new(dst, 80);
    let first = scanner::packet::build(local_mac(), from, to, gateway_mac(), TcpFlags::SYN);
    for _ in 0..50 {
        let next = scanner::packet::build(local_mac(), from, to, gateway_mac(), TcpFlags::SYN);
        for i in 0..66 {
            if ![18usize, 19, 24, 25].contains(&i) {
                assert_eq!(first[i], next[i], "offset {}", i);
            }
        }
    }
}

#[test]
fn header_checksum_is_reproduced_after_clearing() {
    for _ in 0..50 {
        let frame = icmp_detector::packet::build(
            local_mac(),
            Ipv4::new(192, 168, 1, 10),
            Ipv4::new(10, 0, 0, 5),
            gateway_mac(),
        );
        let stored = u16::from_be_bytes([frame[24], frame[25]]);
        let mut header = frame[14..34].to_vec();
        header[10] = 0;
        header[11] = 0;
        assert_eq!(pnet::packet::util::checksum(&header, 5), stored);
        // summed with its checksum in place, a good header gives zero
        assert_eq!(pnet::packet::util::checksum(&frame[14..34], 10), 0);
        // the same holds of the echo request
        assert_eq!(pnet::packet::util::checksum(&frame[34..42], 4), 0);
    }
}

#[test]
fn tcp_frame_bytes_are_exact() {
    let frame = scanner::packet::build_with(
        local_mac(),
        SocketV4::new(Ipv4::new(192, 168, 1, 10), 40000),
        SocketV4::new(Ipv4::new(10, 0, 0, 7), 80),
        gateway_mac(),
        TcpFlags::SYN,
        0x0001,
    );
    assert_eq!(frame.len(), 66);
    assert_eq!(&frame[0..14], &[0x02, 0x42, 0xac, 0x11, 0, 1, 0x02, 0x42, 0xac, 0x11, 0, 2, 8, 0]);
    assert_eq!(&frame[14..24], &[0x45, 0, 0, 52, 0, 1, 0x40, 0, 128, 6]);
    assert_eq!(&frame[26..34], &[192, 168, 1, 10, 10, 0, 0, 7]);
    assert_eq!(&frame[34..50], &[0x9c, 0x40, 0, 80, 0, 0, 0, 0, 0, 0, 0, 0, 0x80, 0x02, 0xfa, 0xf0]);
    assert_eq!(&frame[52..66], &[0, 0, 2, 4, 5, 0xb4, 1, 3, 3, 8, 1, 1, 4, 2]);
    // pseudo-header, header and options sum to the stored checksum
    let mut sum: u32 = 0xc0a8 + 0x010a + 0x0a00 + 0x0007 + 6 + 32;
    for i in (34..66).step_by(2) {
        if i != 50 {
            sum += u16::from_be_bytes([frame[i], frame[i + 1]]) as u32;
        }
    }
    while sum >> 16 != 0 {
        sum = (sum >> 16) + (sum & 0xffff);
    }
    assert_eq!(u16::from_be_bytes([frame[50], frame[51]]), !(sum as u16));
}
