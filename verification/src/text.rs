//! Addresses as text: the dotted decimal form of an IPv4 address and the
//! colon-separated form of a hardware address.

use vstd::prelude::*;
use vstd::string::*;
use vstd::utf8::encode_utf8;
use crate::addr::{Ipv4, Mac};

verus! {

/// The decimal digits of an octet, without leading zeros.
#[verifier::opaque]
pub open spec fn octet_bytes(n: u8) -> Seq<u8> {
    if n < 10 {
        seq![(48 + n) as u8]
    } else if n < 100 {
        seq![(48 + n / 10) as u8, (48 + n % 10) as u8]
    } else {
        seq![(48 + n / 100) as u8, (48 + n / 10 % 10) as u8, (48 + n % 10) as u8]
    }
}

/// The dotted decimal form of an address: its four octets in decimal with a
/// full stop between them.
pub open spec fn dotted(ip: Ipv4) -> Seq<u8> {
    octet_bytes(ip.a) + seq![46u8] + octet_bytes(ip.b) + seq![46u8] + octet_bytes(ip.c) + seq![
        46u8,
    ] + octet_bytes(ip.d)
}

/// The decimal digit at position `at`, where there is one.
pub open spec fn digit_at(bytes: Seq<u8>, at: int) -> Option<int> {
    if 0 <= at < bytes.len() && 48 <= bytes[at] <= 57 {
        Some(bytes[at] - 48)
    } else {
        None
    }
}

/// The octet written at position `at` and the number of its digits: one to
/// three digits, no leading zero before another digit, at most 255.
#[verifier::opaque]
pub open spec fn octet_at(bytes: Seq<u8>, at: int) -> Option<(u8, int)> {
    match digit_at(bytes, at) {
        None => None,
        Some(first) => match digit_at(bytes, at + 1) {
            None => Some((first as u8, 1)),
            Some(second) => if first == 0 {
                None
            } else {
                match digit_at(bytes, at + 2) {
                    None => Some(((first * 10 + second) as u8, 2)),
                    Some(third) => if first * 100 + second * 10 + third > 255 {
                        None
                    } else {
                        Some(((first * 100 + second * 10 + third) as u8, 3))
                    },
                }
            },
        },
    }
}

/// Whether a full stop stands at position `at`.
pub open spec fn stop_at(bytes: Seq<u8>, at: int) -> bool {
    0 <= at < bytes.len() && bytes[at] == 46
}

/// The address that `bytes` is the dotted decimal form of, or `None` where
/// it is the form of none.
pub open spec fn address_named(bytes: Seq<u8>) -> Option<Ipv4> {
    match octet_at(bytes, 0) {
        None => None,
        Some((a, la)) => if !stop_at(bytes, la) {
            None
        } else {
            match octet_at(bytes, la + 1) {
                None => None,
                Some((b, lb)) => if !stop_at(bytes, la + 1 + lb) {
                    None
                } else {
                    match octet_at(bytes, la + lb + 2) {
                        None => None,
                        Some((c, lc)) => if !stop_at(bytes, la + lb + lc + 2) {
                            None
                        } else {
                            match octet_at(bytes, la + lb + lc + 3) {
                                None => None,
                                Some((d, ld)) => if la + lb + lc + ld + 3 == bytes.len() {
                                    Some(Ipv4 { a, b, c, d })
                                } else {
                                    None
                                },
                            }
                        },
                    }
                },
            }
        },
    }
}

/// An octet has one to three digits.
pub proof fn lemma_octet_len(n: u8)
    ensures
        1 <= octet_bytes(n).len() <= 3,
{
    reveal(octet_bytes);
}

/// An octet that stands written at `at`, with no digit behind it, is read as
/// itself.
pub proof fn lemma_octet_read_back(bytes: Seq<u8>, at: int, n: u8)
    requires
        0 <= at,
        at + octet_bytes(n).len() <= bytes.len(),
        bytes.subrange(at, at + octet_bytes(n).len()) == octet_bytes(n),
        digit_at(bytes, at + octet_bytes(n).len()) is None,
    ensures
        octet_at(bytes, at) == Some((n, octet_bytes(n).len() as int)),
{
    reveal(octet_bytes);
    reveal(octet_at);
    let text = octet_bytes(n);
    let part = bytes.subrange(at, at + text.len());
    assert(part[0] == bytes[at]);
    if n >= 10 {
        assert(part[1] == bytes[at + 1]);
    }
    if n >= 100 {
        assert(part[2] == bytes[at + 2]);
    }
}

/// What is read as an octet stands written there in the octet's own form,
/// with no digit behind it.
pub proof fn lemma_octet_written(bytes: Seq<u8>, at: int)
    requires
        0 <= at,
        octet_at(bytes, at) is Some,
    ensures
        ({
            let (n, len) = octet_at(bytes, at).unwrap();
            &&& at + len <= bytes.len()
            &&& len == octet_bytes(n).len()
            &&& bytes.subrange(at, at + len) == octet_bytes(n)
        }),
{
    reveal(octet_bytes);
    reveal(octet_at);
    let (n, len) = octet_at(bytes, at).unwrap();
    assert(bytes.subrange(at, at + len) =~= octet_bytes(n));
}

/// The dotted decimal form of an address names that address.
pub proof fn lemma_dotted_is_named(ip: Ipv4)
    ensures
        address_named(dotted(ip)) == Some(ip),
{
    let text = dotted(ip);
    let la = octet_bytes(ip.a).len() as int;
    let lb = octet_bytes(ip.b).len() as int;
    let lc = octet_bytes(ip.c).len() as int;
    let ld = octet_bytes(ip.d).len() as int;
    lemma_octet_len(ip.a);
    lemma_octet_len(ip.b);
    lemma_octet_len(ip.c);
    lemma_octet_len(ip.d);
    assert(text.len() == la + lb + lc + ld + 3);
    assert(text.subrange(0, la) =~= octet_bytes(ip.a));
    assert(text[la] == 46);
    lemma_octet_read_back(text, 0, ip.a);
    assert(text.subrange(la + 1, la + 1 + lb) =~= octet_bytes(ip.b));
    assert(text[la + 1 + lb] == 46);
    lemma_octet_read_back(text, la + 1, ip.b);
    assert(text.subrange(la + lb + 2, la + lb + 2 + lc) =~= octet_bytes(ip.c));
    assert(text[la + lb + lc + 2] == 46);
    lemma_octet_read_back(text, la + lb + 2, ip.c);
    assert(text.subrange(la + lb + lc + 3, la + lb + lc + 3 + ld) =~= octet_bytes(ip.d));
    lemma_octet_read_back(text, la + lb + lc + 3, ip.d);
}

/// A text that names an address is the dotted decimal form of that address.
pub proof fn lemma_named_is_dotted(bytes: Seq<u8>)
    requires
        address_named(bytes) is Some,
    ensures
        bytes == dotted(address_named(bytes).unwrap()),
{
    let ip = address_named(bytes).unwrap();
    lemma_octet_written(bytes, 0);
    let la = octet_at(bytes, 0).unwrap().1;
    lemma_octet_written(bytes, la + 1);
    let lb = octet_at(bytes, la + 1).unwrap().1;
    lemma_octet_written(bytes, la + lb + 2);
    let lc = octet_at(bytes, la + lb + 2).unwrap().1;
    lemma_octet_written(bytes, la + lb + lc + 3);
    let ld = octet_at(bytes, la + lb + lc + 3).unwrap().1;
    assert(bytes =~= bytes.subrange(0, la) + seq![46u8] + bytes.subrange(la + 1, la + 1 + lb)
        + seq![46u8] + bytes.subrange(la + lb + 2, la + lb + 2 + lc) + seq![46u8]
        + bytes.subrange(la + lb + lc + 3, la + lb + lc + 3 + ld));
}

/// The address that a text names in dotted decimal form.
pub open spec fn address_of_text(text: Seq<char>) -> Option<Ipv4> {
    address_named(encode_utf8(text))
}

/// Reads the decimal digit at position `at`.
fn read_digit(bytes: &[u8], at: usize) -> (digit: Option<u8>)
    ensures
        match digit {
            Some(d) => digit_at(bytes@, at as int) == Some(d as int) && at < bytes@.len() && d < 10,
            None => digit_at(bytes@, at as int) is None,
        },
{
    if at < bytes.len() && 48 <= bytes[at] && bytes[at] <= 57 {
        Some(bytes[at] - 48)
    } else {
        None
    }
}

/// Reads the octet written at position `at`.
fn read_octet(bytes: &[u8], at: usize) -> (octet: Option<(u8, usize)>)
    requires
        at <= bytes@.len(),
    ensures
        match octet {
            Some((n, len)) => octet_at(bytes@, at as int) == Some((n, len as int)) && at + len
                <= bytes@.len(),
            None => octet_at(bytes@, at as int) is None,
        },
{
    reveal(octet_at);
    let end = bytes.len();
    let first = match read_digit(bytes, at) {
        Some(d) => d,
        None => {
            return None;
        },
    };
    let second = match read_digit(bytes, at + 1) {
        Some(d) => d,
        None => {
            return Some((first, 1));
        },
    };
    if first == 0 {
        return None;
    }
    let third = match read_digit(bytes, at + 2) {
        Some(d) => d,
        None => {
            return Some((first * 10 + second, 2));
        },
    };
    let value: u16 = first as u16 * 100 + second as u16 * 10 + third as u16;
    if value > 255 {
        None
    } else {
        Some((value as u8, 3))
    }
}

/// Whether a full stop stands at position `at`.
fn is_stop(bytes: &[u8], at: usize) -> (yes: bool)
    ensures
        yes == stop_at(bytes@, at as int),
        yes ==> at < bytes@.len(),
{
    at < bytes.len() && bytes[at] == 46
}

/// Reads an IPv4 address in dotted decimal form: four numbers from 0 to 255
/// without leading zeros, with a full stop between them and nothing else.
pub fn parse_address(text: &str) -> (ip: Option<Ipv4>)
    ensures
        ip == address_of_text(text@),
{
    let bytes = text.as_bytes();
    let end = bytes.len();
    let (a, la) = match read_octet(bytes, 0) {
        Some(found) => found,
        None => {
            return None;
        },
    };
    if !is_stop(bytes, la) {
        return None;
    }
    let (b, lb) = match read_octet(bytes, la + 1) {
        Some(found) => found,
        None => {
            return None;
        },
    };
    if !is_stop(bytes, la + 1 + lb) {
        return None;
    }
    let (c, lc) = match read_octet(bytes, la + lb + 2) {
        Some(found) => found,
        None => {
            return None;
        },
    };
    if !is_stop(bytes, la + lb + lc + 2) {
        return None;
    }
    let (d, ld) = match read_octet(bytes, la + lb + lc + 3) {
        Some(found) => found,
        None => {
            return None;
        },
    };
    if la + lb + lc + ld + 3 == end {
        Some(Ipv4 { a, b, c, d })
    } else {
        None
    }
}

/// The hardware address that a text names, or `None` where it names none.
pub uninterp spec fn mac_of_text(text: Seq<char>) -> Option<Mac>;

/// Calls pnet's `FromStr for MacAddr`, which reads six hexadecimal numbers
/// with colons between them. Whether it succeeds and what it returns depends
/// on the text alone.
#[verifier::external_body]
pub(crate) fn mac_from_text(text: &str) -> (mac: Option<Mac>)
    ensures
        mac == mac_of_text(text@),
{
    match text.parse::<pnet::util::MacAddr>() {
        Ok(mac) => Some(Mac { octets: mac.octets() }),
        Err(_) => None,
    }
}

/// Reads a hardware address from text.
pub fn parse_mac(text: &str) -> (mac: Option<Mac>)
    ensures
        mac == mac_of_text(text@),
{
    mac_from_text(text)
}

} // verus!
