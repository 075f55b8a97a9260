//! Plain address values: IPv4 addresses, sockets and hardware addresses.

use vstd::prelude::*;

verus! {

/// An IPv4 address, held as its four octets in network order.
#[derive(Clone, Copy, Debug, PartialEq, Eq, Structural)]
pub struct Ipv4 {
    pub a: u8,
    pub b: u8,
    pub c: u8,
    pub d: u8,
}

impl Ipv4 {
    /// The address read as one big-endian number.
    pub open spec fn value(self) -> nat {
        (self.a * 16777216 + self.b * 65536 + self.c * 256 + self.d) as nat
    }

    /// The four octets in network order.
    pub open spec fn octets(self) -> Seq<u8> {
        seq![self.a, self.b, self.c, self.d]
    }

    pub fn new(a: u8, b: u8, c: u8, d: u8) -> (ip: Ipv4)
        ensures
            ip == (Ipv4 { a, b, c, d }),
    {
        Ipv4 { a, b, c, d }
    }

    /// The address as a 32-bit number, most significant octet first.
    pub fn to_bits(self) -> (bits: u32)
        ensures
            bits == self.value(),
    {
        let a: u32 = self.a as u32;
        let b: u32 = self.b as u32;
        let c: u32 = self.c as u32;
        let d: u32 = self.d as u32;
        a * 16777216 + b * 65536 + c * 256 + d
    }

    /// The address that a 32-bit number stands for.
    pub fn from_bits(bits: u32) -> (ip: Ipv4)
        ensures
            ip.value() == bits,
    {
        Ipv4 {
            a: (bits / 16777216) as u8,
            b: (bits / 65536 % 256) as u8,
            c: (bits / 256 % 256) as u8,
            d: (bits % 256) as u8,
        }
    }

    /// The number by which addresses are ordered and found again.
    pub fn key(self) -> (key: u64)
        ensures
            key == self.value(),
    {
        let a: u64 = self.a as u64;
        let b: u64 = self.b as u64;
        let c: u64 = self.c as u64;
        let d: u64 = self.d as u64;
        a * 16777216 + b * 65536 + c * 256 + d
    }

    /// The address that has the given key. A key is taken modulo 2^32, so
    /// that every number is the key of an address.
    pub fn from_key(key: u64) -> (ip: Ipv4)
        ensures
            ip.value() == key % 0x1_0000_0000,
    {
        let low: u64 = key % 0x1_0000_0000;
        Ipv4 {
            a: (low / 16777216) as u8,
            b: (low / 65536 % 256) as u8,
            c: (low / 256 % 256) as u8,
            d: (low % 256) as u8,
        }
    }

    /// Whether this is the limited broadcast address 255.255.255.255.
    pub fn is_broadcast(self) -> (yes: bool)
        ensures
            yes == (self.value() == 0xffff_ffff),
    {
        self.a == 255 && self.b == 255 && self.c == 255 && self.d == 255
    }

    /// Whether the address lies in 224.0.0.0/4.
    pub fn is_multicast(self) -> (yes: bool)
        ensures
            yes == (224 <= self.a <= 239),
    {
        self.a >= 224 && self.a <= 239
    }
}

/// Two addresses with the same value are the same address.
pub proof fn lemma_value_injective(x: Ipv4, y: Ipv4)
    requires
        x.value() == y.value(),
    ensures
        x == y,
{
}

/// An IPv4 address together with a TCP port.
#[derive(Clone, Copy, Debug, PartialEq, Eq, Structural)]
pub struct SocketV4 {
    pub ip: Ipv4,
    pub port: u16,
}

impl SocketV4 {
    /// The socket read as one number: the address above the port.
    pub open spec fn value(self) -> nat {
        self.ip.value() * 65536 + self.port as nat
    }

    pub fn new(ip: Ipv4, port: u16) -> (socket: SocketV4)
        ensures
            socket == (SocketV4 { ip, port }),
    {
        SocketV4 { ip, port }
    }

    /// The number by which sockets are ordered and found again.
    pub fn key(self) -> (key: u64)
        ensures
            key == self.value(),
    {
        self.ip.key() * 65536 + self.port as u64
    }

    /// The socket that has the given key. A key is taken modulo 2^48, so
    /// that every number is the key of a socket.
    pub fn from_key(key: u64) -> (socket: SocketV4)
        ensures
            socket.value() == key % 0x1_0000_0000_0000,
    {
        let low: u64 = key % 0x1_0000_0000_0000;
        SocketV4 { ip: Ipv4::from_key(low / 65536), port: (low % 65536) as u16 }
    }
}

/// Two sockets with the same value are the same socket.
pub proof fn lemma_socket_value_injective(x: SocketV4, y: SocketV4)
    requires
        x.value() == y.value(),
    ensures
        x == y,
{
    lemma_value_injective(x.ip, y.ip);
}

/// A 48-bit hardware address.
#[derive(Clone, Copy, Debug, PartialEq, Eq)]
pub struct Mac {
    pub octets: [u8; 6],
}

impl Mac {
    pub fn new(a: u8, b: u8, c: u8, d: u8, e: u8, f: u8) -> (mac: Mac)
        ensures
            mac.octets@ == seq![a, b, c, d, e, f],
    {
        let mac = Mac { octets: [a, b, c, d, e, f] };
        assert(mac.octets@ =~= seq![a, b, c, d, e, f]);
        mac
    }
}

/// Whether the addresses ascend by their value.
pub open spec fn ascending_ips(s: Seq<Ipv4>) -> bool {
    forall|i: int, j: int| 0 <= i < j < s.len() ==> s[i].value() < s[j].value()
}

/// Addresses that ascend by value are all different.
pub proof fn lemma_ascending_ips_differ(s: Seq<Ipv4>)
    requires
        ascending_ips(s),
    ensures
        s.no_duplicates(),
{
    assert forall|i: int, j: int| 0 <= i < s.len() && 0 <= j < s.len() && i != j implies s[i]
        != s[j] by {
        if i < j {
            assert(s[i].value() < s[j].value());
        } else {
            assert(s[j].value() < s[i].value());
        }
    }
}

/// Whether the sockets ascend by their value.
pub open spec fn ascending_sockets(s: Seq<SocketV4>) -> bool {
    forall|i: int, j: int| 0 <= i < j < s.len() ==> s[i].value() < s[j].value()
}

/// Sockets that ascend by value are all different.
pub proof fn lemma_ascending_sockets_differ(s: Seq<SocketV4>)
    requires
        ascending_sockets(s),
    ensures
        s.no_duplicates(),
{
    assert forall|i: int, j: int| 0 <= i < s.len() && 0 <= j < s.len() && i != j implies s[i]
        != s[j] by {
        if i < j {
            assert(s[i].value() < s[j].value());
        } else {
            assert(s[j].value() < s[i].value());
        }
    }
}

/// The addresses that have the given keys, in the same order.
pub fn addresses_of_keys(keys: &Vec<u64>) -> (list: Vec<Ipv4>)
    ensures
        list@.len() == keys@.len(),
        forall|i: int|
            0 <= i < list@.len() ==> (#[trigger] list@[i]).value() == keys@[i] % 0x1_0000_0000,
{
    let mut list: Vec<Ipv4> = Vec::new();
    let mut i: usize = 0;
    while i < keys.len()
        invariant
            i <= keys@.len(),
            list@.len() == i,
            forall|j: int| 0 <= j < i ==> (#[trigger] list@[j]).value() == keys@[j] % 0x1_0000_0000,
        decreases keys@.len() - i,
    {
        list.push(Ipv4::from_key(keys[i]));
        i += 1;
    }
    list
}

/// The sockets that have the given keys, in the same order.
pub fn sockets_of_keys(keys: &Vec<u64>) -> (list: Vec<SocketV4>)
    ensures
        list@.len() == keys@.len(),
        forall|i: int|
            0 <= i < list@.len() ==> (#[trigger] list@[i]).value() == keys@[i]
                % 0x1_0000_0000_0000,
{
    let mut list: Vec<SocketV4> = Vec::new();
    let mut i: usize = 0;
    while i < keys.len()
        invariant
            i <= keys@.len(),
            list@.len() == i,
            forall|j: int|
                0 <= j < i ==> (#[trigger] list@[j]).value() == keys@[j] % 0x1_0000_0000_0000,
        decreases keys@.len() - i,
    {
        list.push(SocketV4::from_key(keys[i]));
        i += 1;
    }
    list
}

} // verus!
