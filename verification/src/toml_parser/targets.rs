//! The addresses and ports that a profile names under `target`.

use vstd::prelude::*;
use vstd::string::*;
use crate::addr::{addresses_of_keys, ascending_ips, lemma_value_injective, Ipv4};
use crate::config::{get_ports_known, known_ports};
use crate::pending::PendingSet;
use crate::text::{address_of_text, parse_address};
use crate::toml_parser::{get, member, Item, ProfileError};

verus! {

/// The numbers from `from` to `to`, both included, in ascending order.
pub open spec fn range_values(from: u32, to: u32) -> Seq<u32> {
    if from <= to {
        Seq::new((to - from + 1) as nat, |i: int| (from + i) as u32)
    } else {
        Seq::empty()
    }
}

/// Calls `ipnet::Ipv4AddrRange::new` and collects what it yields: every
/// address from the first to the last, both included, in ascending order,
/// and nothing where the first lies above the last.
#[verifier::external_body]
fn address_range(from: u32, to: u32) -> (list: Vec<u32>)
    ensures
        list@ == range_values(from, to),
{
    ipnet::Ipv4AddrRange::new(from.into(), to.into()).map(u32::from).collect()
}

/// Whether an address of a range is scanned: neither the broadcast address
/// nor a multicast address.
pub open spec fn scanned(ip: Ipv4) -> bool {
    ip.value() != 0xffff_ffff && !(224 <= ip.a <= 239)
}

/// The addresses from `from` to `to` that are scanned.
pub open spec fn range_set(from: Ipv4, to: Ipv4) -> Set<Ipv4> {
    Set::new(|ip: Ipv4| from.value() <= ip.value() <= to.value() && scanned(ip))
}

/// The address that an element of a list of addresses names.
pub open spec fn element_address(item: Item) -> Option<Ipv4> {
    match item {
        Item::Text(text) => address_of_text(text@),
        _ => None,
    }
}

/// The addresses that the `ip` entry of a target names: one address, a list
/// of addresses, or a range with `from` and `to`.
pub open spec fn addresses_of(item: Item) -> Option<Set<Ipv4>> {
    match item {
        Item::Text(text) => match address_of_text(text@) {
            Some(ip) => Some(set![ip]),
            None => None,
        },
        Item::List(list) => if forall|i: int|
            0 <= i < list@.len() ==> element_address(#[trigger] list@[i]) is Some {
            Some(
                Set::new(
                    |ip: Ipv4|
                        exists|i: int|
                            0 <= i < list@.len() && element_address(#[trigger] list@[i]) == Some(
                                ip,
                            ),
                ),
            )
        } else {
            None
        },
        Item::Table(_) => match element_address_at(item, "from"@) {
            Some(from) => match element_address_at(item, "to"@) {
                Some(to) => Some(range_set(from, to)),
                None => None,
            },
            None => None,
        },
        _ => None,
    }
}

/// The address that a table names under a key.
pub open spec fn element_address_at(item: Item, key: Seq<char>) -> Option<Ipv4> {
    match member(item, key) {
        Some(value) => element_address(value),
        None => None,
    }
}

/// The port that a number names: the number itself where it lies between 0
/// and 65535, and none where it does not.
pub open spec fn port_of(number: i64) -> Option<u16> {
    if 0 <= number <= 65535 {
        Some(number as u16)
    } else {
        None
    }
}

/// The port that an element of a list of ports names.
pub open spec fn element_port(item: Item) -> Option<u16> {
    match item {
        Item::Integer(number) => port_of(number),
        _ => None,
    }
}

/// The port that a table names under a key.
pub open spec fn element_port_at(item: Item, key: Seq<char>) -> Option<u16> {
    match member(item, key) {
        Some(value) => element_port(value),
        None => None,
    }
}

/// The ports that the `ports` entry of a target names: one port, a list of
/// ports, a range with `from` and `to`, the word `all` for every port, or
/// the word `known` for the ports that have a service name. A number that
/// is no port, alone, in a list or as a bound of a range, names nothing.
pub open spec fn ports_of(item: Item) -> Option<Set<u16>> {
    match item {
        Item::Integer(number) => match port_of(number) {
            Some(port) => Some(set![port]),
            None => None,
        },
        Item::List(list) => if forall|i: int|
            0 <= i < list@.len() ==> element_port(#[trigger] list@[i]) is Some {
            Some(
                Set::new(
                    |port: u16|
                        exists|i: int|
                            0 <= i < list@.len() && element_port(#[trigger] list@[i]) == Some(port),
                ),
            )
        } else {
            None
        },
        Item::Table(_) => match element_port_at(item, "from"@) {
            Some(from) => match element_port_at(item, "to"@) {
                Some(to) => Some(Set::new(|port: u16| from <= port <= to)),
                None => None,
            },
            None => None,
        },
        Item::Text(word) => if word@ == "all"@ {
            Some(Set::new(|port: u16| true))
        } else if word@ == "known"@ {
            Some(known_ports().to_set())
        } else {
            None
        },
        _ => None,
    }
}

/// The addresses and ports that one target names.
pub open spec fn item_targets(item: Item) -> Result<(Set<Ipv4>, Set<u16>), ProfileError> {
    match member(item, "ip"@) {
        None => Err(ProfileError::BadTarget),
        Some(ip) => match member(item, "ports"@) {
            None => Err(ProfileError::BadTarget),
            Some(ports) => match addresses_of(ip) {
                None => Err(ProfileError::BadAddress),
                Some(addresses) => match ports_of(ports) {
                    None => Err(ProfileError::BadPorts),
                    Some(numbers) => Ok((addresses, numbers)),
                },
            },
        },
    }
}

/// The addresses and ports that `more` names, added to `sets`; an error of
/// `more` is handed on.
pub open spec fn joined(
    sets: (Set<Ipv4>, Set<u16>),
    more: Result<(Set<Ipv4>, Set<u16>), ProfileError>,
) -> Result<(Set<Ipv4>, Set<u16>), ProfileError> {
    match more {
        Ok(found) => Ok((sets.0.union(found.0), sets.1.union(found.1))),
        Err(error) => Err(error),
    }
}

/// The addresses and ports that a list of targets names: those of all its
/// targets together, or the error of the first target that has one.
pub open spec fn list_targets(items: Seq<Item>) -> Result<(Set<Ipv4>, Set<u16>), ProfileError>
    decreases items.len(),
{
    if items.len() == 0 {
        Ok((Set::empty(), Set::empty()))
    } else {
        match item_targets(items[0]) {
            Err(error) => Err(error),
            Ok(first) => joined(first, list_targets(items.drop_first())),
        }
    }
}

/// The addresses and ports that a document names under `target`.
pub open spec fn targets_of(document: Item) -> Result<(Set<Ipv4>, Set<u16>), ProfileError> {
    match member(document, "target"@) {
        Some(Item::List(items)) => list_targets(items@),
        _ => Err(ProfileError::NoTargets),
    }
}

/// Whether `keys` holds the keys of exactly the addresses of `set`.
pub open spec fn holds_ips(keys: PendingSet, set: Set<Ipv4>) -> bool {
    &&& forall|k: u64| keys@.contains(k) ==> k < 0x1_0000_0000
    &&& forall|ip: Ipv4|
        #![trigger set.contains(ip)]
        keys@.contains(ip.value() as u64) <==> set.contains(ip)
}

/// Whether `keys` holds exactly the ports of `set`.
pub open spec fn holds_ports(keys: PendingSet, set: Set<u16>) -> bool {
    &&& forall|k: u64| keys@.contains(k) ==> k < 0x1_0000
    &&& forall|port: u16|
        #![trigger set.contains(port)]
        keys@.contains(port as u64) <==> set.contains(port)
}

/// Adds one address.
fn insert_address(keys: &mut PendingSet, ip: Ipv4, Ghost(set): Ghost<Set<Ipv4>>)
    requires
        holds_ips(*old(keys), set),
    ensures
        holds_ips(*final(keys), set.insert(ip)),
{
    keys.insert(ip.key());
    proof {
        assert forall|other: Ipv4|
            keys@.contains(other.value() as u64) <==> set.insert(ip).contains(other) by {
            if other.value() == ip.value() {
                lemma_value_injective(other, ip);
            }
        }
    }
}

/// Adds one port.
fn insert_port(keys: &mut PendingSet, port: u16, Ghost(set): Ghost<Set<u16>>)
    requires
        holds_ports(*old(keys), set),
    ensures
        holds_ports(*final(keys), set.insert(port)),
{
    keys.insert(port as u64);
}

/// The port that a number names.
fn to_port(number: i64) -> (port: Option<u16>)
    ensures
        port == port_of(number),
{
    if 0 <= number && number <= 65535 {
        Some(number as u16)
    } else {
        None
    }
}

/// Adds the scanned addresses from `from` to `to`.
fn insert_range(keys: &mut PendingSet, from: Ipv4, to: Ipv4, Ghost(set): Ghost<Set<Ipv4>>)
    requires
        holds_ips(*old(keys), set),
    ensures
        holds_ips(*final(keys), set.union(range_set(from, to))),
{
    let first = from.to_bits();
    let list = address_range(first, to.to_bits());
    let ghost mut found: Set<Ipv4> = set;
    let mut i: usize = 0;
    while i < list.len()
        invariant
            i <= list@.len(),
            list@ == range_values(first, to.value() as u32),
            first == from.value(),
            holds_ips(*keys, found),
            forall|ip: Ipv4|
                #![trigger found.contains(ip)]
                found.contains(ip) <==> set.contains(ip) || (first <= ip.value() < first + i
                    && scanned(ip)),
        decreases list@.len() - i,
    {
        let ip = Ipv4::from_bits(list[i]);
        let ghost before = found;
        if !ip.is_broadcast() && !ip.is_multicast() {
            insert_address(keys, ip, Ghost(found));
            proof {
                found = found.insert(ip);
            }
        }
        proof {
            assert(list@[i as int] == first + i);
            assert(ip.value() == first + i);
            assert(found == if scanned(ip) {
                before.insert(ip)
            } else {
                before
            });
            assert forall|other: Ipv4|
                found.contains(other) <==> set.contains(other) || (first <= other.value() < first
                    + i + 1 && scanned(other)) by {
                assert(before.contains(other) <==> set.contains(other) || (first <= other.value()
                    < first + i && scanned(other)));
                if other.value() == first + i {
                    lemma_value_injective(other, ip);
                }
            }
        }
        i += 1;
    }
    proof {
        assert(list@.len() == if first <= to.value() {
            to.value() - first + 1
        } else {
            0
        });
        assert forall|ip: Ipv4| found.contains(ip) <==> set.union(range_set(from, to)).contains(
            ip,
        ) by {
            assert(found.contains(ip) <==> set.contains(ip) || (first <= ip.value() < first + i
                && scanned(ip)));
        }
        assert(found =~= set.union(range_set(from, to)));
    }
}

/// Adds the ports from `from` to `to`.
fn insert_port_range(keys: &mut PendingSet, from: u16, to: u16, Ghost(set): Ghost<Set<u16>>)
    requires
        holds_ports(*old(keys), set),
    ensures
        holds_ports(*final(keys), set.union(Set::new(|port: u16| from <= port <= to))),
{
    if from > to {
        assert(set =~= set.union(Set::new(|port: u16| from <= port <= to)));
        return ;
    }
    let ghost mut found: Set<u16> = set;
    let mut next: u32 = from as u32;
    while next <= to as u32
        invariant
            from <= next <= to + 1,
            holds_ports(*keys, found),
            forall|port: u16|
                #![trigger found.contains(port)]
                found.contains(port) <==> set.contains(port) || from <= port < next,
        decreases to + 1 - next,
    {
        insert_port(keys, next as u16, Ghost(found));
        proof {
            found = found.insert(next as u16);
        }
        next += 1;
    }
    proof {
        assert(found =~= set.union(Set::new(|port: u16| from <= port <= to)));
    }
}

/// Reads the address that an element names.
fn read_element_address(item: &Item) -> (ip: Option<Ipv4>)
    ensures
        ip == element_address(*item),
{
    match item {
        Item::Text(text) => parse_address(text.as_str()),
        _ => None,
    }
}

/// Reads the address that a table names under a key.
fn read_address_at(item: &Item, key: &str) -> (ip: Option<Ipv4>)
    ensures
        ip == element_address_at(*item, key@),
{
    match get(item, key) {
        Some(value) => read_element_address(value),
        None => None,
    }
}

/// Reads the port that an element names.
fn read_element_port(item: &Item) -> (port: Option<u16>)
    ensures
        port == element_port(*item),
{
    match item {
        Item::Integer(number) => to_port(*number),
        _ => None,
    }
}

/// Reads the port that a table names under a key.
fn read_port_at(item: &Item, key: &str) -> (port: Option<u16>)
    ensures
        port == element_port_at(*item, key@),
{
    match get(item, key) {
        Some(value) => read_element_port(value),
        None => None,
    }
}

/// Adds the addresses that the `ip` entry of a target names, and says
/// whether it names any.
fn read_addresses(item: &Item, keys: &mut PendingSet, Ghost(set): Ghost<Set<Ipv4>>) -> (ok: bool)
    requires
        holds_ips(*old(keys), set),
    ensures
        ok == addresses_of(*item) is Some,
        ok ==> holds_ips(*final(keys), set.union(addresses_of(*item).unwrap())),
{
    match item {
        Item::Text(text) => match parse_address(text.as_str()) {
            Some(ip) => {
                insert_address(keys, ip, Ghost(set));
                assert(set.insert(ip) =~= set.union(set![ip]));
                true
            },
            None => false,
        },
        Item::List(list) => {
            let ghost mut found: Set<Ipv4> = set;
            let mut i: usize = 0;
            while i < list.len()
                invariant
                    i <= list@.len(),
                    *item == Item::List(*list),
                    holds_ips(*keys, found),
                    forall|j: int| 0 <= j < i ==> element_address(#[trigger] list@[j]) is Some,
                    forall|ip: Ipv4|
                        #![trigger found.contains(ip)]
                        found.contains(ip) <==> set.contains(ip) || exists|j: int|
                            0 <= j < i && element_address(#[trigger] list@[j]) == Some(ip),
                decreases list@.len() - i,
            {
                let ghost before = found;
                match read_element_address(&list[i]) {
                    Some(ip) => {
                        insert_address(keys, ip, Ghost(found));
                        proof {
                            found = found.insert(ip);
                            assert forall|other: Ipv4|
                                #![trigger found.contains(other)]
                                found.contains(other) <==> set.contains(other) || exists|j: int|
                                    0 <= j < i + 1 && element_address(#[trigger] list@[j]) == Some(
                                        other,
                                    ) by {
                                assert(before.contains(other) <==> set.contains(other) || exists|
                                    j: int,
                                |
                                    0 <= j < i && element_address(#[trigger] list@[j]) == Some(
                                        other,
                                    ));
                                if other == ip {
                                    assert(element_address(list@[i as int]) == Some(other));
                                }
                                if exists|j: int|
                                    0 <= j < i + 1 && element_address(#[trigger] list@[j]) == Some(
                                        other,
                                    ) {
                                    let j = choose|j: int|
                                        0 <= j < i + 1 && element_address(#[trigger] list@[j])
                                            == Some(other);
                                    if j < i {
                                        assert(0 <= j < i && element_address(list@[j]) == Some(
                                            other,
                                        ));
                                    }
                                }
                            }
                        }
                    },
                    None => {
                        assert(element_address(list@[i as int]) is None);
                        return false;
                    },
                }
                i += 1;
            }
            proof {
                assert(found =~= set.union(addresses_of(*item).unwrap()));
            }
            true
        },
        Item::Table(_) => {
            let from = match read_address_at(item, "from") {
                Some(ip) => ip,
                None => {
                    return false;
                },
            };
            let to = match read_address_at(item, "to") {
                Some(ip) => ip,
                None => {
                    return false;
                },
            };
            insert_range(keys, from, to, Ghost(set));
            true
        },
        _ => false,
    }
}

/// Adds the ports that the `ports` entry of a target names, and says
/// whether it names any.
fn read_ports(item: &Item, keys: &mut PendingSet, Ghost(set): Ghost<Set<u16>>) -> (ok: bool)
    requires
        holds_ports(*old(keys), set),
    ensures
        ok == ports_of(*item) is Some,
        ok ==> holds_ports(*final(keys), set.union(ports_of(*item).unwrap())),
{
    match item {
        Item::Integer(number) => match to_port(*number) {
            Some(port) => {
                insert_port(keys, port, Ghost(set));
                assert(set.insert(port) =~= set.union(set![port]));
                true
            },
            None => false,
        },
        Item::List(list) => {
            let ghost mut found: Set<u16> = set;
            let mut i: usize = 0;
            while i < list.len()
                invariant
                    i <= list@.len(),
                    *item == Item::List(*list),
                    holds_ports(*keys, found),
                    forall|j: int| 0 <= j < i ==> element_port(#[trigger] list@[j]) is Some,
                    forall|port: u16|
                        #![trigger found.contains(port)]
                        found.contains(port) <==> set.contains(port) || exists|j: int|
                            0 <= j < i && element_port(#[trigger] list@[j]) == Some(port),
                decreases list@.len() - i,
            {
                let ghost before = found;
                match read_element_port(&list[i]) {
                    Some(port) => {
                        insert_port(keys, port, Ghost(found));
                        proof {
                            found = found.insert(port);
                            assert forall|other: u16|
                                #![trigger found.contains(other)]
                                found.contains(other) <==> set.contains(other) || exists|j: int|
                                    0 <= j < i + 1 && element_port(#[trigger] list@[j]) == Some(
                                        other,
                                    ) by {
                                assert(before.contains(other) <==> set.contains(other) || exists|
                                    j: int,
                                |
                                    0 <= j < i && element_port(#[trigger] list@[j]) == Some(other));
                                if other == port {
                                    assert(element_port(list@[i as int]) == Some(other));
                                }
                                if exists|j: int|
                                    0 <= j < i + 1 && element_port(#[trigger] list@[j]) == Some(
                                        other,
                                    ) {
                                    let j = choose|j: int|
                                        0 <= j < i + 1 && element_port(#[trigger] list@[j])
                                            == Some(other);
                                    if j < i {
                                        assert(0 <= j < i && element_port(list@[j]) == Some(other));
                                    }
                                }
                            }
                        }
                    },
                    None => {
                        assert(element_port(list@[i as int]) is None);
                        return false;
                    },
                }
                i += 1;
            }
            proof {
                assert(found =~= set.union(ports_of(*item).unwrap()));
            }
            true
        },
        Item::Table(_) => {
            let from = match read_port_at(item, "from") {
                Some(port) => port,
                None => {
                    return false;
                },
            };
            let to = match read_port_at(item, "to") {
                Some(port) => port,
                None => {
                    return false;
                },
            };
            insert_port_range(keys, from, to, Ghost(set));
            true
        },
        Item::Text(word) => {
            if *word == String::from_str("all") {
                insert_port_range(keys, 0, 65535, Ghost(set));
                assert(Set::new(|port: u16| 0 <= port <= 65535) =~= Set::new(|port: u16| true));
                true
            } else if *word == String::from_str("known") {
                let known = get_ports_known();
                let ghost mut found: Set<u16> = set;
                let mut i: usize = 0;
                while i < known.len()
                    invariant
                        i <= known@.len(),
                        holds_ports(*keys, found),
                        forall|port: u16|
                            #![trigger found.contains(port)]
                            found.contains(port) <==> set.contains(port) || exists|j: int|
                                0 <= j < i && #[trigger] known@[j] == port,
                    decreases known@.len() - i,
                {
                    let ghost before = found;
                    insert_port(keys, known[i], Ghost(found));
                    proof {
                        found = found.insert(known@[i as int]);
                        assert forall|other: u16|
                            #![trigger found.contains(other)]
                            found.contains(other) <==> set.contains(other) || exists|j: int|
                                0 <= j < i + 1 && #[trigger] known@[j] == other by {
                            assert(before.contains(other) <==> set.contains(other) || exists|j: int|
                                0 <= j < i && #[trigger] known@[j] == other);
                            if exists|j: int| 0 <= j < i + 1 && #[trigger] known@[j] == other {
                                let j = choose|j: int|
                                    0 <= j < i + 1 && #[trigger] known@[j] == other;
                                if j < i {
                                    assert(0 <= j < i && known@[j] == other);
                                }
                            }
                        }
                    }
                    i += 1;
                }
                proof {
                    assert(found =~= set.union(known_ports().to_set()));
                }
                true
            } else {
                false
            }
        },
        _ => false,
    }
}

/// Adds the addresses and ports that one target names.
fn read_target(
    item: &Item,
    ips: &mut PendingSet,
    ports: &mut PendingSet,
    Ghost(sets): Ghost<(Set<Ipv4>, Set<u16>)>,
) -> (done: Result<(), ProfileError>)
    requires
        holds_ips(*old(ips), sets.0),
        holds_ports(*old(ports), sets.1),
    ensures
        match done {
            Ok(_) => item_targets(*item) is Ok && holds_ips(
                *final(ips),
                sets.0.union(item_targets(*item).unwrap().0),
            ) && holds_ports(*final(ports), sets.1.union(item_targets(*item).unwrap().1)),
            Err(error) => item_targets(*item) == Err::<(Set<Ipv4>, Set<u16>), ProfileError>(error),
        },
{
    let ip = match get(item, "ip") {
        Some(ip) => ip,
        None => {
            return Err(ProfileError::BadTarget);
        },
    };
    let numbers = match get(item, "ports") {
        Some(numbers) => numbers,
        None => {
            return Err(ProfileError::BadTarget);
        },
    };
    if !read_addresses(ip, ips, Ghost(sets.0)) {
        return Err(ProfileError::BadAddress);
    }
    if !read_ports(numbers, ports, Ghost(sets.1)) {
        return Err(ProfileError::BadPorts);
    }
    Ok(())
}

/// Whether the ports ascend.
pub open spec fn ascending_ports(s: Seq<u16>) -> bool {
    forall|i: int, j: int| 0 <= i < j < s.len() ==> s[i] < s[j]
}

/// Whether the two lists hold the given addresses and ports, each once and
/// in ascending order.
pub open spec fn lists(ips: Seq<Ipv4>, ports: Seq<u16>, sets: (Set<Ipv4>, Set<u16>)) -> bool {
    &&& ascending_ips(ips)
    &&& ips.to_set() == sets.0
    &&& ascending_ports(ports)
    &&& ports.to_set() == sets.1
}

/// Hands out the addresses of a set of address keys in ascending order.
fn sorted_addresses(keys: PendingSet, Ghost(set): Ghost<Set<Ipv4>>) -> (list: Vec<Ipv4>)
    requires
        holds_ips(keys, set),
    ensures
        ascending_ips(list@),
        list@.to_set() == set,
{
    let sorted = keys.into_keys();
    proof {
        assert forall|i: int| 0 <= i < sorted@.len() implies sorted@[i] < 0x1_0000_0000 by {
            assert(keys@.contains(sorted@[i]));
        }
    }
    let list = addresses_of_keys(&sorted);
    proof {
        assert forall|i: int, j: int| 0 <= i < j < list@.len() implies list@[i].value()
            < list@[j].value() by {
            assert(sorted@[i] < sorted@[j]);
        }
        assert forall|ip: Ipv4| list@.to_set().contains(ip) <==> set.contains(ip) by {
            if list@.contains(ip) {
                let j = choose|j: int| 0 <= j < list@.len() && list@[j] == ip;
                assert(sorted@[j] == ip.value());
                assert(keys@.contains(ip.value() as u64));
            }
            if set.contains(ip) {
                assert(keys@.contains(ip.value() as u64));
                let j = choose|j: int| 0 <= j < sorted@.len() && sorted@[j] == ip.value() as u64;
                lemma_value_injective(list@[j], ip);
                assert(list@[j] == ip);
            }
        }
        assert(list@.to_set() =~= set);
    }
    list
}

/// Hands out the ports of a set of port keys in ascending order.
fn sorted_ports(keys: PendingSet, Ghost(set): Ghost<Set<u16>>) -> (list: Vec<u16>)
    requires
        holds_ports(keys, set),
    ensures
        ascending_ports(list@),
        list@.to_set() == set,
{
    let sorted = keys.into_keys();
    let mut list: Vec<u16> = Vec::new();
    let mut i: usize = 0;
    while i < sorted.len()
        invariant
            i <= sorted@.len(),
            sorted@.to_set() == keys@,
            holds_ports(keys, set),
            list@.len() == i,
            forall|j: int| 0 <= j < i ==> #[trigger] list@[j] == sorted@[j],
        decreases sorted@.len() - i,
    {
        assert(sorted@.to_set().contains(sorted@[i as int]));
        list.push(sorted[i] as u16);
        i += 1;
    }
    proof {
        assert forall|i: int, j: int| 0 <= i < j < list@.len() implies list@[i] < list@[j] by {
            assert(sorted@[i] < sorted@[j]);
        }
        assert forall|port: u16| list@.to_set().contains(port) <==> set.contains(port) by {
            if list@.contains(port) {
                let j = choose|j: int| 0 <= j < list@.len() && list@[j] == port;
                assert(sorted@[j] == port);
                assert(sorted@.to_set().contains(port as u64));
            }
            if set.contains(port) {
                assert(keys@.contains(port as u64));
                assert(sorted@.contains(port as u64));
                let j = choose|j: int| 0 <= j < sorted@.len() && sorted@[j] == port as u64;
                assert(list@[j] == port);
            }
        }
        assert(list@.to_set() =~= set);
    }
    list
}

/// Reads the addresses and ports to scan from a document: those of all
/// entries of `target` together, each once and in ascending order. Fails
/// where `target` is missing or no array, and with the error of the first
/// entry that has one.
pub fn parse_targets(document: &Item) -> (targets: Result<(Vec<Ipv4>, Vec<u16>), ProfileError>)
    ensures
        match targets {
            Ok((ips, ports)) => targets_of(*document) is Ok && lists(
                ips@,
                ports@,
                targets_of(*document).unwrap(),
            ),
            Err(error) => targets_of(*document) == Err::<(Set<Ipv4>, Set<u16>), ProfileError>(
                error,
            ),
        },
{
    let items = match get(document, "target") {
        Some(Item::List(items)) => items,
        _ => {
            return Err(ProfileError::NoTargets);
        },
    };
    let mut ips = PendingSet::new();
    let mut ports = PendingSet::new();
    let ghost mut sets: (Set<Ipv4>, Set<u16>) = (Set::empty(), Set::empty());
    let ghost all = list_targets(items@);
    let mut i: usize = 0;
    proof {
        assert(items@.subrange(0, items@.len() as int) =~= items@);
        match all {
            Ok(found) => {
                assert(sets.0.union(found.0) =~= found.0);
                assert(sets.1.union(found.1) =~= found.1);
            },
            Err(_) => {},
        }
    }
    while i < items.len()
        invariant
            i <= items@.len(),
            targets_of(*document) == all,
            holds_ips(ips, sets.0),
            holds_ports(ports, sets.1),
            all == joined(sets, list_targets(items@.subrange(i as int, items@.len() as int))),
        decreases items@.len() - i,
    {
        let ghost rest = items@.subrange(i as int, items@.len() as int);
        let ghost later = items@.subrange(i + 1, items@.len() as int);
        proof {
            assert(rest[0] == items@[i as int]);
            assert(rest.drop_first() =~= later);
        }
        match read_target(&items[i], &mut ips, &mut ports, Ghost(sets)) {
            Ok(_) => {
                proof {
                    let first = item_targets(items@[i as int]).unwrap();
                    let wider = (sets.0.union(first.0), sets.1.union(first.1));
                    match list_targets(later) {
                        Ok(more) => {
                            assert(sets.0.union(first.0.union(more.0)) =~= wider.0.union(more.0));
                            assert(sets.1.union(first.1.union(more.1)) =~= wider.1.union(more.1));
                        },
                        Err(_) => {},
                    }
                    sets = wider;
                }
            },
            Err(error) => {
                return Err(error);
            },
        }
        i += 1;
    }
    proof {
        assert(sets.0.union(Set::<Ipv4>::empty()) =~= sets.0);
        assert(sets.1.union(Set::<u16>::empty()) =~= sets.1);
        assert(all == Ok::<(Set<Ipv4>, Set<u16>), ProfileError>(sets));
    }
    let ip_vec = sorted_addresses(ips, Ghost(sets.0));
    let ports_vec = sorted_ports(ports, Ghost(sets.1));
    Ok((ip_vec, ports_vec))
}

} // verus!
