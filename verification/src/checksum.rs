//! The Internet checksum: the ones'-complement sum of big-endian 16-bit
//! words that IPv4, ICMP and TCP carry in their headers.

use vstd::prelude::*;
use crate::addr::Ipv4;

verus! {

/// The upper byte of a 16-bit word.
pub open spec fn hi(x: u16) -> u8 {
    (x / 256) as u8
}

/// The lower byte of a 16-bit word.
pub open spec fn lo(x: u16) -> u8 {
    (x % 256) as u8
}

/// The 16-bit word made of two bytes, the first one the upper.
pub open spec fn word(upper: u8, lower: u8) -> nat {
    (upper * 256 + lower) as nat
}

pub fn hi_byte(x: u16) -> (b: u8)
    ensures
        b == hi(x),
{
    (x / 256) as u8
}

pub fn lo_byte(x: u16) -> (b: u8)
    ensures
        b == lo(x),
{
    (x % 256) as u8
}

pub fn word_of(upper: u8, lower: u8) -> (w: u16)
    ensures
        w == word(upper, lower),
        hi(w) == upper,
        lo(w) == lower,
{
    (upper as u16) * 256 + (lower as u16)
}

/// The sum of the big-endian 16-bit words of `data`, the word with index
/// `skip` left out. A last byte without a partner counts as the upper byte
/// of a word whose lower byte is zero.
pub open spec fn word_sum(data: Seq<u8>, skip: int) -> nat
    decreases data.len(),
{
    if data.len() == 0 {
        0
    } else if data.len() % 2 == 1 {
        let rest = word_sum(data.drop_last(), skip);
        if data.len() / 2 != skip {
            rest + word(data.last(), 0)
        } else {
            rest
        }
    } else {
        let rest = word_sum(data.subrange(0, data.len() - 2), skip);
        if data.len() / 2 - 1 != skip {
            rest + word(data[data.len() - 2], data[data.len() - 1])
        } else {
            rest
        }
    }
}

/// Folds the carries above bit 15 back into the low 16 bits until none is
/// left.
pub open spec fn fold_carries(sum: nat) -> nat
    decreases sum,
{
    if sum < 0x1_0000 {
        sum
    } else {
        fold_carries(sum / 0x1_0000 + sum % 0x1_0000)
    }
}

/// The ones' complement of the folded sum.
pub open spec fn finish(sum: nat) -> u16 {
    (0xffff - fold_carries(sum)) as u16
}

/// The checksum of `data` with the word at index `skip` taken as zero.
/// Empty data has checksum zero.
pub open spec fn internet_checksum(data: Seq<u8>, skip: int) -> u16 {
    if data.len() == 0 {
        0
    } else {
        finish(word_sum(data, skip))
    }
}

/// What the IPv4 pseudo-header adds to a transport checksum: both addresses,
/// the protocol number and the length of the segment.
pub open spec fn pseudo_header_sum(source: Ipv4, destination: Ipv4, protocol: u8, len: nat) -> nat {
    word(source.a, source.b) + word(source.c, source.d) + word(destination.a, destination.b)
        + word(destination.c, destination.d) + protocol as nat + len
}

/// The TCP checksum of `segment` between two IPv4 addresses: the pseudo-header
/// and the segment summed, with the segment's own checksum word (index 8)
/// taken as zero.
pub open spec fn tcp_checksum(segment: Seq<u8>, source: Ipv4, destination: Ipv4) -> u16 {
    finish(pseudo_header_sum(source, destination, 6, segment.len()) + word_sum(segment, 8))
}

/// `bytes` with the 16-bit word `sum` stored big-endian at offset `at`.
pub open spec fn with_word(bytes: Seq<u8>, at: int, sum: u16) -> Seq<u8> {
    bytes.update(at, hi(sum)).update(at + 1, lo(sum))
}

/// The bytes of the skipped word have no part in the sum: two sequences that
/// differ there alone have the same sum.
pub proof fn lemma_word_sum_skips(a: Seq<u8>, b: Seq<u8>, skip: int)
    requires
        a.len() == b.len(),
        forall|i: int| 0 <= i < a.len() && i != 2 * skip && i != 2 * skip + 1 ==> a[i] == b[i],
    ensures
        word_sum(a, skip) == word_sum(b, skip),
    decreases a.len(),
{
    if a.len() == 0 {
    } else if a.len() % 2 == 1 {
        lemma_word_sum_skips(a.drop_last(), b.drop_last(), skip);
    } else {
        lemma_word_sum_skips(
            a.subrange(0, a.len() - 2),
            b.subrange(0, b.len() - 2),
            skip,
        );
    }
}

/// Calls `pnet::packet::util::checksum`. That function returns 0 for empty
/// data; otherwise it adds the big-endian words but the skipped one in a
/// `u32`, folds the carries and complements. The bound on the length keeps
/// that `u32` from overflowing.
#[verifier::external_body]
pub(crate) fn checksum(data: &[u8], skip: usize) -> (sum: u16)
    requires
        data@.len() <= 0x1_0000,
    ensures
        sum == internet_checksum(data@, skip as int),
{
    pnet::packet::util::checksum(data, skip)
}

/// Calls `pnet::packet::ipv4::checksum` on a header of exactly 20 bytes.
/// That function clamps the header length field to the 20 bytes at hand and
/// returns `util::checksum` of them with word 5, the checksum field, skipped.
#[verifier::external_body]
pub(crate) fn ipv4_checksum(header: &[u8]) -> (sum: u16)
    requires
        header@.len() == 20,
    ensures
        sum == internet_checksum(header@, 5),
{
    pnet::packet::ipv4::checksum(&pnet::packet::ipv4::Ipv4Packet::new(header).unwrap())
}

/// Calls `pnet::packet::tcp::ipv4_checksum`. That function sums the
/// pseudo-header (addresses, protocol 6, segment length) and the segment with
/// word 8, the checksum field, skipped, then folds and complements. It takes
/// a segment of at least 20 bytes.
#[verifier::external_body]
pub(crate) fn tcp_ipv4_checksum(segment: &[u8], source: Ipv4, destination: Ipv4) -> (sum: u16)
    requires
        20 <= segment@.len() <= 0xffff,
    ensures
        sum == tcp_checksum(segment@, source, destination),
{
    let packet = pnet::packet::tcp::TcpPacket::new(segment).unwrap();
    let from = [source.a, source.b, source.c, source.d].into();
    let to = [destination.a, destination.b, destination.c, destination.d].into();
    pnet::packet::tcp::ipv4_checksum(&packet, &from, &to)
}

} // verus!
