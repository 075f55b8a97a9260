//! The frame of an ICMP echo request.

use vstd::prelude::*;
use crate::addr::{Ipv4, Mac};
use crate::checksum::{checksum, hi, hi_byte, internet_checksum, lo, lo_byte, with_word};
use crate::config::{ECHO_FRAME_LEN, PROTOCOL_ICMP};
use crate::entropy::random_u16;
use crate::frame::{build_ipv4_header, ethernet_header, ipv4_header, place};

verus! {

/// An echo request with its checksum field still zero: type 8, code 0, the
/// identifier, sequence number 1.
pub open spec fn echo_request_unsummed(identifier: u16) -> Seq<u8> {
    seq![0x08u8, 0x00u8, 0x00u8, 0x00u8, hi(identifier), lo(identifier), 0x00u8, 0x01u8]
}

/// The finished echo request, its checksum taken over all eight bytes.
pub open spec fn echo_request(identifier: u16) -> Seq<u8> {
    let zeroed = echo_request_unsummed(identifier);
    with_word(zeroed, 2, internet_checksum(zeroed, 1))
}

/// The whole frame: Ethernet header towards the gateway, IPv4 header of
/// total length 28 with the given identification, and the echo request with
/// the given identifier.
pub open spec fn echo_frame(
    src_mac: Mac,
    src_ip: Ipv4,
    dest_ip: Ipv4,
    gateway_mac: Mac,
    identification: u16,
    identifier: u16,
) -> Seq<u8> {
    ethernet_header(gateway_mac, src_mac) + ipv4_header(
        28,
        identification,
        PROTOCOL_ICMP,
        src_ip,
        dest_ip,
    ) + echo_request(identifier)
}

/// The offsets of an echo-request frame that hold a random field or a
/// checksum that covers one: the IPv4 identification (18, 19) and header
/// checksum (24, 25), the echo checksum (36, 37) and identifier (38, 39).
pub open spec fn varies_at(offset: int) -> bool {
    offset == 18 || offset == 19 || offset == 24 || offset == 25 || 36 <= offset <= 39
}

/// Two echo-request frames built from the same arguments have 42 bytes each
/// and differ at most where a random field or its checksum stands.
pub proof fn lemma_fixed_bytes(
    src_mac: Mac,
    src_ip: Ipv4,
    dest_ip: Ipv4,
    gateway_mac: Mac,
    first: (u16, u16),
    second: (u16, u16),
)
    ensures
        echo_frame(src_mac, src_ip, dest_ip, gateway_mac, first.0, first.1).len() == 42,
        echo_frame(src_mac, src_ip, dest_ip, gateway_mac, second.0, second.1).len() == 42,
        forall|offset: int|
            0 <= offset < 42 && !varies_at(offset) ==> echo_frame(
                src_mac,
                src_ip,
                dest_ip,
                gateway_mac,
                first.0,
                first.1,
            )[offset] == echo_frame(src_mac, src_ip, dest_ip, gateway_mac, second.0, second.1)[offset],
{
}

/// Builds the eight bytes of an echo request.
pub fn build_echo_request(identifier: u16) -> (request: [u8; 8])
    ensures
        request@ == echo_request(identifier),
{
    let mut request: [u8; 8] = [
        0x08, 0x00, 0x00, 0x00, hi_byte(identifier), lo_byte(identifier), 0x00, 0x01,
    ];
    assert(request@ =~= echo_request_unsummed(identifier));
    let sum = checksum(request.as_slice(), 1);
    request[2] = hi_byte(sum);
    request[3] = lo_byte(sum);
    request
}

/// Builds an echo-request frame whose two free fields are given.
pub fn build_with(
    src_mac: Mac,
    src_ip: Ipv4,
    dest_ip: Ipv4,
    gateway_mac: Mac,
    identification: u16,
    identifier: u16,
) -> (frame: [u8; ECHO_FRAME_LEN])
    ensures
        frame@ == echo_frame(src_mac, src_ip, dest_ip, gateway_mac, identification, identifier),
{
    let request = build_echo_request(identifier);
    let header = build_ipv4_header(28, identification, PROTOCOL_ICMP, src_ip, dest_ip);
    let link: [u8; 2] = [0x08, 0x00];
    let mut frame = [0u8; ECHO_FRAME_LEN];
    place(&mut frame, 0, gateway_mac.octets.as_slice());
    place(&mut frame, 6, src_mac.octets.as_slice());
    place(&mut frame, 12, link.as_slice());
    place(&mut frame, 14, header.as_slice());
    place(&mut frame, 34, request.as_slice());
    assert(frame@ =~= echo_frame(
        src_mac,
        src_ip,
        dest_ip,
        gateway_mac,
        identification,
        identifier,
    ));
    frame
}

/// Builds an echo-request frame from `src_ip` to `dest_ip`, sent by way of
/// the gateway. The IPv4 identification and the echo identifier are drawn at
/// random; every other byte is fixed by the arguments.
pub fn build(src_mac: Mac, src_ip: Ipv4, dest_ip: Ipv4, gateway_mac: Mac) -> (frame: [
    u8;
    ECHO_FRAME_LEN
])
    ensures
        exists|identification: u16, identifier: u16|
            frame@ == echo_frame(
                src_mac,
                src_ip,
                dest_ip,
                gateway_mac,
                identification,
                identifier,
            ),
{
    let identifier = random_u16();
    let identification = random_u16();
    build_with(src_mac, src_ip, dest_ip, gateway_mac, identification, identifier)
}

} // verus!
