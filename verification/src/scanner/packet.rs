//! The frame of a TCP probe: a bare header with options and chosen flags.

use vstd::prelude::*;
use crate::addr::{Ipv4, Mac, SocketV4};
use crate::checksum::{
    hi, hi_byte, lo, lo_byte, tcp_checksum, tcp_ipv4_checksum, with_word, word, word_of,
};
use crate::config::{PROBE_MSS, PROBE_WINDOW, PROBE_WINDOW_SCALE, PROTOCOL_TCP, TCP_FRAME_LEN};
use crate::entropy::random_u16;
use crate::frame::{build_ipv4_header, ethernet_header, ipv4_header, place};

verus! {

/// The SYN flag bit.
pub const FLAG_SYN: u8 = 0x02;

/// The RST flag bit.
pub const FLAG_RST: u8 = 0x04;

/// The ACK flag bit.
pub const FLAG_ACK: u8 = 0x10;

/// A TCP header with its checksum field still zero: the two ports, sequence
/// and acknowledgement numbers zero, a data offset of eight words, the flags,
/// window 64240, urgent pointer zero, then the options MSS 1460, NOP,
/// window scale 8, NOP, NOP, SACK permitted.
pub open spec fn tcp_segment_unsummed(src_port: u16, dest_port: u16, flags: u8) -> Seq<u8> {
    seq![
        hi(src_port), lo(src_port), hi(dest_port), lo(dest_port),
        0x00u8, 0x00u8, 0x00u8, 0x00u8,
        0x00u8, 0x00u8, 0x00u8, 0x00u8,
        0x80u8, flags, hi(PROBE_WINDOW), lo(PROBE_WINDOW),
        0x00u8, 0x00u8, 0x00u8, 0x00u8,
        0x02u8, 0x04u8, hi(PROBE_MSS), lo(PROBE_MSS),
        0x01u8, 0x03u8, 0x03u8, PROBE_WINDOW_SCALE,
        0x01u8, 0x01u8, 0x04u8, 0x02u8,
    ]
}

/// The finished TCP header, its checksum taken with the IPv4 pseudo-header.
pub open spec fn tcp_segment(src_socket: SocketV4, dest_socket: SocketV4, flags: u8) -> Seq<u8> {
    let zeroed = tcp_segment_unsummed(src_socket.port, dest_socket.port, flags);
    with_word(zeroed, 16, tcp_checksum(zeroed, src_socket.ip, dest_socket.ip))
}

/// The whole frame: Ethernet header towards the gateway, IPv4 header of
/// total length 52 with the given identification, and the TCP header.
pub open spec fn tcp_frame(
    src_mac: Mac,
    src_socket: SocketV4,
    dest_socket: SocketV4,
    gateway_mac: Mac,
    flags: u8,
    identification: u16,
) -> Seq<u8> {
    ethernet_header(gateway_mac, src_mac) + ipv4_header(
        52,
        identification,
        PROTOCOL_TCP,
        src_socket.ip,
        dest_socket.ip,
    ) + tcp_segment(src_socket, dest_socket, flags)
}

/// The offsets of a TCP frame that hold the random IPv4 identification
/// (18, 19) or the header checksum that covers it (24, 25).
pub open spec fn varies_at(offset: int) -> bool {
    offset == 18 || offset == 19 || offset == 24 || offset == 25
}

/// Two TCP frames built from the same arguments have 66 bytes each and
/// differ at most in the IPv4 identification and header checksum.
pub proof fn lemma_fixed_bytes(
    src_mac: Mac,
    src_socket: SocketV4,
    dest_socket: SocketV4,
    gateway_mac: Mac,
    flags: u8,
    first: u16,
    second: u16,
)
    ensures
        tcp_frame(src_mac, src_socket, dest_socket, gateway_mac, flags, first).len() == 66,
        tcp_frame(src_mac, src_socket, dest_socket, gateway_mac, flags, second).len() == 66,
        forall|offset: int|
            0 <= offset < 66 && !varies_at(offset) ==> tcp_frame(
                src_mac,
                src_socket,
                dest_socket,
                gateway_mac,
                flags,
                first,
            )[offset] == tcp_frame(src_mac, src_socket, dest_socket, gateway_mac, flags, second)[offset],
{
}

/// Builds the 32 bytes of a TCP header with options.
pub fn build_tcp_segment(src_socket: SocketV4, dest_socket: SocketV4, flags: u8) -> (segment: [
    u8;
    32
])
    ensures
        segment@ == tcp_segment(src_socket, dest_socket, flags),
{
    let mut segment: [u8; 32] = [
        hi_byte(src_socket.port), lo_byte(src_socket.port),
        hi_byte(dest_socket.port), lo_byte(dest_socket.port),
        0x00, 0x00, 0x00, 0x00,
        0x00, 0x00, 0x00, 0x00,
        0x80, flags, hi_byte(PROBE_WINDOW), lo_byte(PROBE_WINDOW),
        0x00, 0x00, 0x00, 0x00,
        0x02, 0x04, hi_byte(PROBE_MSS), lo_byte(PROBE_MSS),
        0x01, 0x03, 0x03, PROBE_WINDOW_SCALE,
        0x01, 0x01, 0x04, 0x02,
    ];
    assert(segment@ =~= tcp_segment_unsummed(src_socket.port, dest_socket.port, flags));
    let sum = tcp_ipv4_checksum(segment.as_slice(), src_socket.ip, dest_socket.ip);
    segment[16] = hi_byte(sum);
    segment[17] = lo_byte(sum);
    segment
}

/// Builds a TCP frame whose IPv4 identification is given.
pub fn build_with(
    src_mac: Mac,
    src_socket: SocketV4,
    dest_socket: SocketV4,
    gateway_mac: Mac,
    flags: u8,
    identification: u16,
) -> (frame: [u8; TCP_FRAME_LEN])
    ensures
        frame@ == tcp_frame(src_mac, src_socket, dest_socket, gateway_mac, flags, identification),
{
    let segment = build_tcp_segment(src_socket, dest_socket, flags);
    let header = build_ipv4_header(52, identification, PROTOCOL_TCP, src_socket.ip, dest_socket.ip);
    let link: [u8; 2] = [0x08, 0x00];
    let mut frame = [0u8; TCP_FRAME_LEN];
    place(&mut frame, 0, gateway_mac.octets.as_slice());
    place(&mut frame, 6, src_mac.octets.as_slice());
    place(&mut frame, 12, link.as_slice());
    place(&mut frame, 14, header.as_slice());
    place(&mut frame, 34, segment.as_slice());
    assert(frame@ =~= tcp_frame(
        src_mac,
        src_socket,
        dest_socket,
        gateway_mac,
        flags,
        identification,
    ));
    frame
}

/// Builds a TCP frame from `src_socket` to `dest_socket` with the given flag
/// bits, sent by way of the gateway. The IPv4 identification is drawn at
/// random; every other byte is fixed by the arguments.
pub fn build(
    src_mac: Mac,
    src_socket: SocketV4,
    dest_socket: SocketV4,
    gateway_mac: Mac,
    flags: u8,
) -> (frame: [u8; TCP_FRAME_LEN])
    ensures
        exists|identification: u16|
            frame@ == tcp_frame(
                src_mac,
                src_socket,
                dest_socket,
                gateway_mac,
                flags,
                identification,
            ),
{
    let identification = random_u16();
    build_with(src_mac, src_socket, dest_socket, gateway_mac, flags, identification)
}

/// The socket that a TCP frame is addressed to: the destination address of
/// its IPv4 header with the destination port of its TCP header.
pub open spec fn destination_in(frame: Seq<u8>) -> SocketV4 {
    SocketV4 {
        ip: Ipv4 { a: frame[30], b: frame[31], c: frame[32], d: frame[33] },
        port: word(frame[36], frame[37]) as u16,
    }
}

/// A built frame is addressed to the socket that it was built for.
pub proof fn lemma_destination_read_back(
    src_mac: Mac,
    src_socket: SocketV4,
    dest_socket: SocketV4,
    gateway_mac: Mac,
    flags: u8,
    identification: u16,
)
    ensures
        destination_in(
            tcp_frame(src_mac, src_socket, dest_socket, gateway_mac, flags, identification),
        ) == dest_socket,
{
}

/// Reads the socket that a TCP frame is addressed to.
pub fn destination_of(frame: &[u8; TCP_FRAME_LEN]) -> (socket: SocketV4)
    ensures
        socket == destination_in(frame@),
{
    SocketV4 {
        ip: Ipv4 { a: frame[30], b: frame[31], c: frame[32], d: frame[33] },
        port: word_of(frame[36], frame[37]),
    }
}

} // verus!
