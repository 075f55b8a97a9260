//! The link-layer and network-layer headers that every probe starts with,
//! and the reading of those headers in frames that come back.

use vstd::prelude::*;
use crate::addr::{Ipv4, Mac};
use crate::checksum::{
    hi, hi_byte, internet_checksum, ipv4_checksum, lemma_word_sum_skips, lo, lo_byte, with_word,
    word, word_of,
};

verus! {

/// An Ethernet II header for an IPv4 packet: destination, source, type 0x0800.
pub open spec fn ethernet_header(destination: Mac, source: Mac) -> Seq<u8> {
    destination.octets@ + source.octets@ + seq![0x08u8, 0x00u8]
}

/// An IPv4 header with its checksum field still zero: version 4, five words,
/// DSCP and ECN zero, "don't fragment" set, fragment offset zero, TTL 128.
pub open spec fn ipv4_header_unsummed(
    total_len: u16,
    ident: u16,
    protocol: u8,
    source: Ipv4,
    destination: Ipv4,
) -> Seq<u8> {
    seq![
        0x45u8, 0x00u8, hi(total_len), lo(total_len),
        hi(ident), lo(ident), 0x40u8, 0x00u8,
        128u8, protocol, 0x00u8, 0x00u8,
    ] + source.octets() + destination.octets()
}

/// The finished IPv4 header: the checksum of the header with a zero checksum
/// field, stored in that field.
pub open spec fn ipv4_header(
    total_len: u16,
    ident: u16,
    protocol: u8,
    source: Ipv4,
    destination: Ipv4,
) -> Seq<u8> {
    let zeroed = ipv4_header_unsummed(total_len, ident, protocol, source, destination);
    with_word(zeroed, 10, internet_checksum(zeroed, 5))
}

/// The checksum that a header carries in its bytes 10 and 11.
pub open spec fn stored_checksum(header: Seq<u8>) -> nat {
    word(header[10], header[11])
}

/// Clearing the checksum field of a built header and computing the checksum
/// anew gives the value that the header carries, and storing it gives the
/// header back. So does computing it over the header as built, since the
/// checksum field is left out of the sum.
pub proof fn lemma_ipv4_checksum_round_trip(
    total_len: u16,
    ident: u16,
    protocol: u8,
    source: Ipv4,
    destination: Ipv4,
)
    ensures
        ({
            let header = ipv4_header(total_len, ident, protocol, source, destination);
            let cleared = with_word(header, 10, 0);
            &&& internet_checksum(cleared, 5) == stored_checksum(header)
            &&& with_word(cleared, 10, internet_checksum(cleared, 5)) == header
            &&& internet_checksum(header, 5) == stored_checksum(header)
        }),
{
    let zeroed = ipv4_header_unsummed(total_len, ident, protocol, source, destination);
    let header = ipv4_header(total_len, ident, protocol, source, destination);
    let cleared = with_word(header, 10, 0);
    let sum = internet_checksum(zeroed, 5);
    assert(cleared =~= zeroed);
    assert(with_word(cleared, 10, sum) =~= header);
    assert(word(hi(sum), lo(sum)) == sum);
    lemma_word_sum_skips(header, zeroed, 5);
}

/// Builds the 20 bytes of an IPv4 header.
pub fn build_ipv4_header(
    total_len: u16,
    ident: u16,
    protocol: u8,
    source: Ipv4,
    destination: Ipv4,
) -> (header: [u8; 20])
    ensures
        header@ == ipv4_header(total_len, ident, protocol, source, destination),
{
    let mut header: [u8; 20] = [
        0x45, 0x00, hi_byte(total_len), lo_byte(total_len),
        hi_byte(ident), lo_byte(ident), 0x40, 0x00,
        128, protocol, 0x00, 0x00,
        source.a, source.b, source.c, source.d,
        destination.a, destination.b, destination.c, destination.d,
    ];
    assert(header@ =~= ipv4_header_unsummed(total_len, ident, protocol, source, destination));
    let sum = ipv4_checksum(header.as_slice());
    header[10] = hi_byte(sum);
    header[11] = lo_byte(sum);
    header
}

/// Copies `bytes` into `frame`, starting at offset `at`.
pub fn place<const N: usize>(frame: &mut [u8; N], at: usize, bytes: &[u8])
    requires
        at + bytes@.len() <= N,
    ensures
        final(frame)@ == old(frame)@.subrange(0, at as int) + bytes@ + old(frame)@.subrange(
            at + bytes@.len(),
            N as int,
        ),
{
    let ghost before = frame@;
    let mut i: usize = 0;
    while i < bytes.len()
        invariant
            at + bytes@.len() <= N,
            i <= bytes@.len(),
            frame@.len() == N,
            before.len() == N,
            forall|k: int| 0 <= k < at ==> frame@[k] == before[k],
            forall|k: int| at <= k < at + i ==> frame@[k] == bytes@[k - at],
            forall|k: int| at + i <= k < N ==> frame@[k] == before[k],
        decreases bytes@.len() - i,
    {
        frame[at + i] = bytes[i];
        i += 1;
    }
    assert(frame@ =~= before.subrange(0, at as int) + bytes@ + before.subrange(
        at + bytes@.len(),
        N as int,
    ));
}

/// What a receiver reads from the headers of an incoming IPv4 frame.
#[derive(Clone, Copy, Debug, PartialEq, Eq, Structural)]
pub struct Datagram {
    /// The IPv4 protocol number.
    pub protocol: u8,
    /// The sender's address.
    pub source: Ipv4,
    /// The address the packet is for.
    pub destination: Ipv4,
    /// Offset in the frame of the first byte behind the IPv4 header.
    pub start: usize,
    /// Offset in the frame of the first byte behind the IPv4 packet.
    pub end: usize,
}

/// Length in bytes of the IPv4 header that the frame announces.
pub open spec fn header_len(frame: Seq<u8>) -> int {
    (frame[14] % 16) * 4
}

/// Length in bytes of the IPv4 packet that the frame announces.
pub open spec fn total_len(frame: Seq<u8>) -> int {
    word(frame[16], frame[17]) as int
}

/// Whether the frame holds a whole IPv4 packet: an Ethernet header of type
/// 0x0800, then version 4, a header of at least five words that fits in the
/// announced total length, and that many bytes at hand.
pub open spec fn holds_ipv4(frame: Seq<u8>) -> bool {
    &&& frame.len() >= 34
    &&& frame[12] == 0x08
    &&& frame[13] == 0x00
    &&& frame[14] / 16 == 4
    &&& 20 <= header_len(frame) <= total_len(frame)
    &&& 14 + total_len(frame) <= frame.len()
}

/// The header fields of the IPv4 packet in the frame, or `None` for a frame
/// that holds none.
pub open spec fn datagram_of(frame: Seq<u8>) -> Option<Datagram> {
    if holds_ipv4(frame) {
        Some(
            Datagram {
                protocol: frame[23],
                source: Ipv4 { a: frame[26], b: frame[27], c: frame[28], d: frame[29] },
                destination: Ipv4 { a: frame[30], b: frame[31], c: frame[32], d: frame[33] },
                start: (14 + header_len(frame)) as usize,
                end: (14 + total_len(frame)) as usize,
            },
        )
    } else {
        None
    }
}

/// What lies behind the IPv4 header, up to the end of the packet.
pub open spec fn payload_of(frame: Seq<u8>) -> Seq<u8> {
    frame.subrange(14 + header_len(frame), 14 + total_len(frame))
}

/// Reads the Ethernet and IPv4 headers of an incoming frame. A frame that is
/// too short, is not IPv4 or announces lengths that do not fit is refused.
pub fn read_ipv4(frame: &[u8]) -> (packet: Option<Datagram>)
    ensures
        packet == datagram_of(frame@),
        packet is Some ==> packet->0.start <= packet->0.end <= frame@.len(),
{
    if frame.len() < 34 {
        return None;
    }
    if frame[12] != 0x08 || frame[13] != 0x00 || frame[14] / 16 != 4 {
        return None;
    }
    let header: usize = ((frame[14] % 16) as usize) * 4;
    let total: usize = word_of(frame[16], frame[17]) as usize;
    if header < 20 || header > total || total > frame.len() - 14 {
        return None;
    }
    Some(
        Datagram {
            protocol: frame[23],
            source: Ipv4 { a: frame[26], b: frame[27], c: frame[28], d: frame[29] },
            destination: Ipv4 { a: frame[30], b: frame[31], c: frame[32], d: frame[33] },
            start: 14 + header,
            end: 14 + total,
        },
    )
}

/// The byte sequences of a list of captured frames.
pub open spec fn views(frames: Seq<Vec<u8>>) -> Seq<Seq<u8>> {
    Seq::new(frames.len(), |i: int| frames[i]@)
}

} // verus!
