//! The report of a scan: the classified sockets grouped by address, each
//! port with the name of its service, written out as a TOML document.

use std::collections::BTreeMap;
use vstd::prelude::*;
use vstd::std_specs::btree::increasing_seq;
use vstd::std_specs::cmp::OrdSpec;
use vstd::std_specs::iter::IteratorSpec;
use vstd::string::*;
use crate::addr::{lemma_value_injective, Ipv4, SocketV4};
use crate::config::{get_port_name, port_name};

verus! {

/// The ports of one address, by what the scan found of them, each with the
/// name of its service.
pub struct TargetStates {
    pub open: Vec<(u16, &'static str)>,
    pub closed: Vec<(u16, &'static str)>,
    pub filtered: Vec<(u16, &'static str)>,
}

impl TargetStates {
    /// No port in any state.
    pub fn new() -> (states: TargetStates)
        ensures
            states.open@ == Seq::<(u16, &'static str)>::empty(),
            states.closed@ == Seq::<(u16, &'static str)>::empty(),
            states.filtered@ == Seq::<(u16, &'static str)>::empty(),
    {
        TargetStates { open: Vec::new(), closed: Vec::new(), filtered: Vec::new() }
    }
}

/// One of the three states that a scan finds a port in.
#[derive(Clone, Copy, Debug, PartialEq, Eq, Structural)]
pub enum State {
    Open,
    Closed,
    Filtered,
}

/// The ports that `states` lists under `state`.
pub open spec fn listed(states: TargetStates, state: State) -> Seq<(u16, &'static str)> {
    match state {
        State::Open => states.open@,
        State::Closed => states.closed@,
        State::Filtered => states.filtered@,
    }
}

/// The name under which a port is reported: its service name, or `unKnown`
/// where the table has none.
pub open spec fn shown_name(port: u16) -> &'static str {
    match port_name(port) {
        Some(name) => name,
        None => "unKnown",
    }
}

/// The name under which a port is reported.
pub fn name_of(port: u16) -> (name: &'static str)
    ensures
        name == shown_name(port),
{
    match get_port_name(port) {
        Some(name) => name,
        None => "unKnown",
    }
}

/// The ports of the sockets of `list` that have the address `ip`, in the
/// order of the list, each with its name.
pub open spec fn ports_at(list: Seq<SocketV4>, ip: Ipv4) -> Seq<(u16, &'static str)>
    decreases list.len(),
{
    if list.len() == 0 {
        Seq::empty()
    } else {
        let rest = ports_at(list.drop_last(), ip);
        if list.last().ip == ip {
            rest.push((list.last().port, shown_name(list.last().port)))
        } else {
            rest
        }
    }
}

/// Whether one of the sockets of `list` has the address `ip`.
pub open spec fn mentions(list: Seq<SocketV4>, ip: Ipv4) -> bool {
    exists|i: int| 0 <= i < list.len() && (#[trigger] list[i]).ip == ip
}

/// The key under which the tree holds the ports of an address.
pub open spec fn key_of(ip: Ipv4) -> u64 {
    ip.value() as u64
}

/// The list of the three that holds the sockets found in `state`.
pub open spec fn list_of(
    lists: (Seq<SocketV4>, Seq<SocketV4>, Seq<SocketV4>),
    state: State,
) -> Seq<SocketV4> {
    match state {
        State::Open => lists.0,
        State::Closed => lists.1,
        State::Filtered => lists.2,
    }
}

/// The three lists with one more socket found in `state`.
pub open spec fn grown(
    lists: (Seq<SocketV4>, Seq<SocketV4>, Seq<SocketV4>),
    state: State,
    socket: SocketV4,
) -> (Seq<SocketV4>, Seq<SocketV4>, Seq<SocketV4>) {
    match state {
        State::Open => (lists.0.push(socket), lists.1, lists.2),
        State::Closed => (lists.0, lists.1.push(socket), lists.2),
        State::Filtered => (lists.0, lists.1, lists.2.push(socket)),
    }
}

/// Whether `tree` groups the three lists by address: it has an entry under
/// the key of each address that a list mentions and under no other key, and
/// the entry of an address holds the ports of that address from each list,
/// in the order of the list.
pub open spec fn groups_lists(
    tree: Map<u64, TargetStates>,
    lists: (Seq<SocketV4>, Seq<SocketV4>, Seq<SocketV4>),
) -> bool {
    &&& forall|key: u64| #[trigger] tree.contains_key(key) ==> key < 0x1_0000_0000
    &&& forall|ip: Ipv4| #[trigger]
        tree.contains_key(key_of(ip)) <==> mentions(lists.0, ip) || mentions(lists.1, ip)
            || mentions(lists.2, ip)
    &&& forall|ip: Ipv4, state: State|
        tree.contains_key(key_of(ip)) ==> #[trigger] listed(tree[key_of(ip)], state) == ports_at(
            list_of(lists, state),
            ip,
        )
}

/// Whether `tree` groups the open, the closed and the filtered sockets by
/// address.
pub open spec fn groups(
    tree: Map<u64, TargetStates>,
    open_ports: Seq<SocketV4>,
    closed_ports: Seq<SocketV4>,
    filtered_ports: Seq<SocketV4>,
) -> bool {
    groups_lists(tree, (open_ports, closed_ports, filtered_ports))
}

/// An address that a list does not mention has no port in it.
pub proof fn lemma_unmentioned_has_no_ports(list: Seq<SocketV4>, ip: Ipv4)
    requires
        !mentions(list, ip),
    ensures
        ports_at(list, ip) == Seq::<(u16, &'static str)>::empty(),
    decreases list.len(),
{
    if list.len() > 0 {
        let rest = list.drop_last();
        assert(list[list.len() - 1].ip != ip);
        assert forall|i: int| 0 <= i < rest.len() implies (#[trigger] rest[i]).ip != ip by {
            assert(list[i].ip != ip);
        }
        lemma_unmentioned_has_no_ports(rest, ip);
    }
}

/// One more socket at the end of a list adds its port to the ports of its
/// address and to those of no other.
pub proof fn lemma_one_more(list: Seq<SocketV4>, socket: SocketV4, ip: Ipv4)
    ensures
        mentions(list.push(socket), ip) <==> mentions(list, ip) || socket.ip == ip,
        ports_at(list.push(socket), ip) == if socket.ip == ip {
            ports_at(list, ip).push((socket.port, shown_name(socket.port)))
        } else {
            ports_at(list, ip)
        },
{
    let longer = list.push(socket);
    assert(longer.drop_last() =~= list);
    assert(longer.last() == socket);
    if mentions(list, ip) {
        let i = choose|i: int| 0 <= i < list.len() && (#[trigger] list[i]).ip == ip;
        assert(longer[i].ip == ip);
    }
    if socket.ip == ip {
        assert(longer[list.len() as int].ip == ip);
    }
    if mentions(longer, ip) {
        let i = choose|i: int| 0 <= i < longer.len() && (#[trigger] longer[i]).ip == ip;
        if i < list.len() {
            assert(list[i].ip == ip);
        }
    }
}

/// Enters one socket found in `state` at the entry of its address.
fn record(
    tree: &mut BTreeMap<u64, TargetStates>,
    socket: SocketV4,
    state: State,
    Ghost(lists): Ghost<(Seq<SocketV4>, Seq<SocketV4>, Seq<SocketV4>)>,
)
    requires
        groups_lists(old(tree)@, lists),
    ensures
        groups_lists(final(tree)@, grown(lists, state, socket)),
{
    let ghost before = tree@;
    let ghost more = grown(lists, state, socket);
    let key = socket.ip.key();
    let item = (socket.port, name_of(socket.port));
    let mut states = match tree.remove(&key) {
        Some(states) => states,
        None => TargetStates::new(),
    };
    let ghost found = states;
    match state {
        State::Open => {
            states.open.push(item);
        },
        State::Closed => {
            states.closed.push(item);
        },
        State::Filtered => {
            states.filtered.push(item);
        },
    }
    let ghost entered = states;
    tree.insert(key, states);
    proof {
        assert(tree@ =~= before.insert(key, entered));
        assert(key == key_of(socket.ip));
        assert forall|ip: Ipv4, other: State|
            mentions(list_of(more, other), ip) == (mentions(list_of(lists, other), ip) || (other
                == state && socket.ip == ip)) && ports_at(list_of(more, other), ip) == if other
                == state && socket.ip == ip {
                ports_at(list_of(lists, other), ip).push(item)
            } else {
                ports_at(list_of(lists, other), ip)
            } by {
            lemma_one_more(list_of(lists, other), socket, ip);
        }
        assert forall|other: State| #[trigger]
            listed(found, other) == ports_at(list_of(lists, other), socket.ip) by {
            if before.contains_key(key) {
                assert(found == before[key_of(socket.ip)]);
            } else {
                assert(!before.contains_key(key_of(socket.ip)));
                lemma_unmentioned_has_no_ports(lists.0, socket.ip);
                lemma_unmentioned_has_no_ports(lists.1, socket.ip);
                lemma_unmentioned_has_no_ports(lists.2, socket.ip);
            }
        }
        assert forall|ip: Ipv4| #[trigger]
            tree@.contains_key(key_of(ip)) <==> mentions(more.0, ip) || mentions(more.1, ip)
                || mentions(more.2, ip) by {
            if key_of(ip) == key {
                lemma_value_injective(ip, socket.ip);
            }
            assert(before.contains_key(key_of(ip)) <==> mentions(lists.0, ip) || mentions(
                lists.1,
                ip,
            ) || mentions(lists.2, ip));
            assert(mentions(more.0, ip) == mentions(list_of(more, State::Open), ip));
            assert(mentions(more.1, ip) == mentions(list_of(more, State::Closed), ip));
            assert(mentions(more.2, ip) == mentions(list_of(more, State::Filtered), ip));
        }
        assert forall|ip: Ipv4, other: State| tree@.contains_key(key_of(ip)) implies #[trigger]
            listed(tree@[key_of(ip)], other) == ports_at(list_of(more, other), ip) by {
            if key_of(ip) == key {
                lemma_value_injective(ip, socket.ip);
                assert(listed(found, other) == ports_at(list_of(lists, other), socket.ip));
            } else {
                assert(listed(before[key_of(ip)], other) == ports_at(list_of(lists, other), ip));
            }
        }
    }
}

/// Enters the sockets of `list`, found in `state`, one after the other.
fn record_all(
    tree: &mut BTreeMap<u64, TargetStates>,
    list: &Vec<SocketV4>,
    state: State,
    Ghost(lists): Ghost<(Seq<SocketV4>, Seq<SocketV4>, Seq<SocketV4>)>,
)
    requires
        groups_lists(old(tree)@, lists),
        list_of(lists, state).len() == 0,
    ensures
        groups_lists(
            final(tree)@,
            match state {
                State::Open => (list@, lists.1, lists.2),
                State::Closed => (lists.0, list@, lists.2),
                State::Filtered => (lists.0, lists.1, list@),
            },
        ),
{
    let ghost mut so_far = lists;
    let mut i: usize = 0;
    while i < list.len()
        invariant
            i <= list@.len(),
            groups_lists(tree@, so_far),
            list_of(so_far, state) =~= list@.subrange(0, i as int),
            forall|other: State| other != state ==> list_of(so_far, other) == list_of(lists, other),
        decreases list@.len() - i,
    {
        record(tree, list[i], state, Ghost(so_far));
        proof {
            assert(list@.subrange(0, i + 1) =~= list@.subrange(0, i as int).push(list@[i as int]));
            so_far = grown(so_far, state, list@[i as int]);
        }
        i += 1;
    }
    proof {
        assert(list@.subrange(0, i as int) =~= list@);
        let all = match state {
            State::Open => (list@, lists.1, lists.2),
            State::Closed => (lists.0, list@, lists.2),
            State::Filtered => (lists.0, lists.1, list@),
        };
        assert(list_of(so_far, State::Open) == list_of(all, State::Open));
        assert(list_of(so_far, State::Closed) == list_of(all, State::Closed));
        assert(list_of(so_far, State::Filtered) == list_of(all, State::Filtered));
        assert(so_far == all);
    }
}

/// Groups the classified sockets by address: one entry for each address,
/// under the key of the address, with the open, closed and filtered ports of
/// that address, each port with the name of its service.
pub fn get_info_tree(
    open_ports: &Vec<SocketV4>,
    closed_ports: &Vec<SocketV4>,
    filtered_ports: &Vec<SocketV4>,
) -> (tree: BTreeMap<u64, TargetStates>)
    ensures
        groups(tree@, open_ports@, closed_ports@, filtered_ports@),
{
    let mut tree: BTreeMap<u64, TargetStates> = BTreeMap::new();
    let ghost none = Seq::<SocketV4>::empty();
    record_all(&mut tree, open_ports, State::Open, Ghost((none, none, none)));
    record_all(&mut tree, closed_ports, State::Closed, Ghost((open_ports@, none, none)));
    record_all(
        &mut tree,
        filtered_ports,
        State::Filtered,
        Ghost((open_ports@, closed_ports@, none)),
    );
    tree
}

/// The character of a decimal digit.
pub open spec fn digit_text(digit: nat) -> Seq<char> {
    if digit == 0 {
        "0"@
    } else if digit == 1 {
        "1"@
    } else if digit == 2 {
        "2"@
    } else if digit == 3 {
        "3"@
    } else if digit == 4 {
        "4"@
    } else if digit == 5 {
        "5"@
    } else if digit == 6 {
        "6"@
    } else if digit == 7 {
        "7"@
    } else if digit == 8 {
        "8"@
    } else {
        "9"@
    }
}

/// A number written in decimal, without leading zeros.
pub open spec fn decimal_text(n: nat) -> Seq<char>
    decreases n,
{
    if n < 10 {
        digit_text(n)
    } else {
        decimal_text(n / 10) + digit_text(n % 10)
    }
}

/// An address written as four decimal numbers with dots between them.
pub open spec fn ip_text(ip: Ipv4) -> Seq<char> {
    decimal_text(ip.a as nat) + "."@ + decimal_text(ip.b as nat) + "."@ + decimal_text(
        ip.c as nat,
    ) + "."@ + decimal_text(ip.d as nat)
}

/// The line of one port in a list of the report.
pub open spec fn port_line(item: (u16, &'static str)) -> Seq<char> {
    "    { port = "@ + decimal_text(item.0 as nat) + ", name = \""@ + item.1@ + "\" },\n"@
}

/// The lines of the ports of a list, in order.
pub open spec fn port_lines(items: Seq<(u16, &'static str)>) -> Seq<char>
    decreases items.len(),
{
    if items.len() == 0 {
        Seq::empty()
    } else {
        port_lines(items.drop_last()) + port_line(items.last())
    }
}

/// A list of ports under its key, or nothing where the list is not shown.
pub open spec fn section_text(key: Seq<char>, items: Seq<(u16, &'static str)>, shown: bool) -> Seq<
    char,
> {
    if shown {
        key + " = [\n"@ + port_lines(items) + "]\n"@
    } else {
        Seq::empty()
    }
}

/// The table of one address: the address, then the lists that are shown.
pub open spec fn target_text(
    entry: (Ipv4, TargetStates),
    show_open: bool,
    show_closed: bool,
    show_filtered: bool,
) -> Seq<char> {
    "[[target]]\nip = \""@ + ip_text(entry.0) + "\"\n\n"@ + section_text(
        "open"@,
        entry.1.open@,
        show_open,
    ) + "\n"@ + section_text("closed"@, entry.1.closed@, show_closed) + section_text(
        "filtered"@,
        entry.1.filtered@,
        show_filtered,
    ) + "\n"@
}

/// The tables of all addresses, in order.
pub open spec fn targets_text(
    tree: Seq<(Ipv4, TargetStates)>,
    show_open: bool,
    show_closed: bool,
    show_filtered: bool,
) -> Seq<char>
    decreases tree.len(),
{
    if tree.len() == 0 {
        Seq::empty()
    } else {
        targets_text(tree.drop_last(), show_open, show_closed, show_filtered) + target_text(
            tree.last(),
            show_open,
            show_closed,
            show_filtered,
        )
    }
}

/// The head of the report: how many sockets were scanned and how many were
/// found in each state.
pub open spec fn summary_text(open: nat, closed: nat, filtered: nat) -> Seq<char> {
    "[summary]\ntotal = "@ + decimal_text(open + closed + filtered) + "\nopen = "@ + decimal_text(
        open,
    ) + "\nclosed = "@ + decimal_text(closed) + "\nfiltered = "@ + decimal_text(filtered)
        + "\n\n"@
}

/// The text of a decimal digit.
fn digit(d: u8) -> (text: &'static str)
    requires
        d < 10,
    ensures
        text@ == digit_text(d as nat),
{
    match d {
        0 => "0",
        1 => "1",
        2 => "2",
        3 => "3",
        4 => "4",
        5 => "5",
        6 => "6",
        7 => "7",
        8 => "8",
        _ => "9",
    }
}

/// Writes a number in decimal.
pub fn decimal(n: u128) -> (text: String)
    ensures
        text@ == decimal_text(n as nat),
    decreases n,
{
    if n < 10 {
        String::from_str(digit(n as u8))
    } else {
        let mut text = decimal(n / 10);
        text.append(digit((n % 10) as u8));
        text
    }
}

/// Writes an address as four decimal numbers with dots between them.
pub fn ip_string(ip: Ipv4) -> (text: String)
    ensures
        text@ == ip_text(ip),
{
    let mut text = decimal(ip.a as u128);
    text.append(".");
    text.append(decimal(ip.b as u128).as_str());
    text.append(".");
    text.append(decimal(ip.c as u128).as_str());
    text.append(".");
    text.append(decimal(ip.d as u128).as_str());
    text
}

/// Writes the line of one port.
fn port_line_of(item: (u16, &'static str)) -> (text: String)
    ensures
        text@ == port_line(item),
{
    let mut text = String::from_str("    { port = ");
    text.append(decimal(item.0 as u128).as_str());
    text.append(", name = \"");
    text.append(item.1);
    text.append("\" },\n");
    text
}

/// Writes a list of ports under its key, or nothing where the list is not
/// shown.
fn section_of(key: &str, items: &Vec<(u16, &'static str)>, shown: bool) -> (text: String)
    ensures
        text@ == section_text(key@, items@, shown),
{
    if !shown {
        return String::new();
    }
    let mut text = String::from_str(key);
    text.append(" = [\n");
    let ghost head = text@;
    let mut lines = String::new();
    let mut i: usize = 0;
    while i < items.len()
        invariant
            i <= items@.len(),
            lines@ == port_lines(items@.subrange(0, i as int)),
        decreases items@.len() - i,
    {
        lines.append(port_line_of(items[i]).as_str());
        proof {
            let next = items@.subrange(0, i + 1);
            assert(next.drop_last() =~= items@.subrange(0, i as int));
            assert(next.last() == items@[i as int]);
        }
        i += 1;
    }
    assert(items@.subrange(0, i as int) =~= items@);
    text.append(lines.as_str());
    text.append("]\n");
    text
}

/// Writes the head of the report.
fn summary_of(open: usize, closed: usize, filtered: usize) -> (text: String)
    ensures
        text@ == summary_text(open as nat, closed as nat, filtered as nat),
{
    let total: u128 = open as u128 + closed as u128 + filtered as u128;
    let mut text = String::from_str("[summary]\ntotal = ");
    text.append(decimal(total).as_str());
    text.append("\nopen = ");
    text.append(decimal(open as u128).as_str());
    text.append("\nclosed = ");
    text.append(decimal(closed as u128).as_str());
    text.append("\nfiltered = ");
    text.append(decimal(filtered as u128).as_str());
    text.append("\n\n");
    text
}

/// Writes the table of one address.
fn target_of(
    ip: Ipv4,
    states: &TargetStates,
    show_open: bool,
    show_closed: bool,
    show_filtered: bool,
) -> (text: String)
    ensures
        text@ == target_text((ip, *states), show_open, show_closed, show_filtered),
{
    let mut text = String::from_str("[[target]]\nip = \"");
    text.append(ip_string(ip).as_str());
    text.append("\"\n\n");
    text.append(section_of("open", &states.open, show_open).as_str());
    text.append("\n");
    text.append(section_of("closed", &states.closed, show_closed).as_str());
    text.append(section_of("filtered", &states.filtered, show_filtered).as_str());
    text.append("\n");
    text
}

/// Whether `entries` are the entries of `tree`, each once, in ascending
/// order of their addresses.
pub open spec fn in_order(entries: Seq<(Ipv4, TargetStates)>, tree: Map<u64, TargetStates>) -> bool {
    &&& forall|i: int, j: int|
        0 <= i < j < entries.len() ==> entries[i].0.value() < entries[j].0.value()
    &&& forall|i: int|
        0 <= i < entries.len() ==> tree.contains_key(key_of((#[trigger] entries[i]).0))
            && tree[key_of(entries[i].0)] == entries[i].1
    &&& forall|key: u64| #[trigger]
        tree.contains_key(key) ==> exists|i: int|
            0 <= i < entries.len() && key_of((#[trigger] entries[i]).0) == key
}

/// Two lists of entries that agree on their first `n` addresses agree on
/// the next one too, where both are the entries of one tree in order.
proof fn lemma_same_addresses(
    a: Seq<(Ipv4, TargetStates)>,
    b: Seq<(Ipv4, TargetStates)>,
    tree: Map<u64, TargetStates>,
    n: int,
)
    requires
        in_order(a, tree),
        in_order(b, tree),
        0 <= n <= a.len(),
        n <= b.len(),
    ensures
        forall|i: int| 0 <= i < n ==> (#[trigger] a[i]).0 == b[i].0,
    decreases n,
{
    if n > 0 {
        lemma_same_addresses(a, b, tree, n - 1);
        let i = n - 1;
        assert(tree.contains_key(key_of(a[i].0)));
        let k = choose|k: int| 0 <= k < b.len() && key_of((#[trigger] b[k]).0) == key_of(a[i].0);
        lemma_value_injective(b[k].0, a[i].0);
        if k < i {
            assert(a[k].0 == b[k].0);
            assert(a[k].0.value() < a[i].0.value());
        }
        assert(tree.contains_key(key_of(b[i].0)));
        let m = choose|m: int| 0 <= m < a.len() && key_of((#[trigger] a[m]).0) == key_of(b[i].0);
        lemma_value_injective(a[m].0, b[i].0);
        if m < i {
            assert(a[m].0 == b[m].0);
            assert(b[m].0.value() < b[i].0.value());
        }
        if k > i {
            assert(b[i].0.value() < b[k].0.value());
        }
        if m > i {
            assert(a[i].0.value() < a[m].0.value());
        }
        lemma_value_injective(a[i].0, b[i].0);
    }
}

/// A tree has its entries in ascending order of their addresses in one way
/// only.
pub proof fn lemma_one_order(
    a: Seq<(Ipv4, TargetStates)>,
    b: Seq<(Ipv4, TargetStates)>,
    tree: Map<u64, TargetStates>,
)
    requires
        in_order(a, tree),
        in_order(b, tree),
    ensures
        a == b,
{
    if a.len() < b.len() {
        lemma_same_addresses(a, b, tree, a.len() as int);
        let extra = b[a.len() as int];
        assert(tree.contains_key(key_of(extra.0)));
        let m = choose|m: int| 0 <= m < a.len() && key_of((#[trigger] a[m]).0) == key_of(extra.0);
        lemma_value_injective(a[m].0, extra.0);
        assert(a[m].0 == b[m].0);
        assert(b[m].0.value() < extra.0.value());
    } else if b.len() < a.len() {
        lemma_same_addresses(a, b, tree, b.len() as int);
        let extra = a[b.len() as int];
        assert(tree.contains_key(key_of(extra.0)));
        let k = choose|k: int| 0 <= k < b.len() && key_of((#[trigger] b[k]).0) == key_of(extra.0);
        lemma_value_injective(b[k].0, extra.0);
        assert(a[k].0 == b[k].0);
        assert(a[k].0.value() < extra.0.value());
    } else {
        lemma_same_addresses(a, b, tree, a.len() as int);
        assert forall|i: int| 0 <= i < a.len() implies a[i] == b[i] by {
            assert(a[i].0 == b[i].0);
            assert(tree[key_of(a[i].0)] == a[i].1);
            assert(tree[key_of(b[i].0)] == b[i].1);
        }
        assert(a =~= b);
    }
}

/// The entries of `tree`, each once, in ascending order of their addresses.
pub open spec fn entries_of(tree: Map<u64, TargetStates>) -> Seq<(Ipv4, TargetStates)> {
    choose|entries: Seq<(Ipv4, TargetStates)>| in_order(entries, tree)
}

/// Writes the report of a scan: a summary of the counts, then one table for
/// each address in ascending order, with those of its three lists of ports
/// that are to be shown. The grouping that the report was written from is
/// returned with it.
pub fn display(
    open_ports: &Vec<SocketV4>,
    closed_ports: &Vec<SocketV4>,
    filtered_ports: &Vec<SocketV4>,
    show_open: bool,
    show_closed: bool,
    show_filtered: bool,
) -> (report: (String, BTreeMap<u64, TargetStates>))
    ensures
        groups(report.1@, open_ports@, closed_ports@, filtered_ports@),
        in_order(entries_of(report.1@), report.1@),
        report.0@ == summary_text(
            open_ports@.len(),
            closed_ports@.len(),
            filtered_ports@.len(),
        ) + targets_text(entries_of(report.1@), show_open, show_closed, show_filtered),
{
    let tree = get_info_tree(open_ports, closed_ports, filtered_ports);
    let mut tables = String::new();
    let ghost mut entries: Seq<(Ipv4, TargetStates)> = Seq::empty();
    let walk = tree.iter();
    let ghost all = walk.remaining();
    proof {
        assert forall|i: int| 0 <= i < all.len() implies *(#[trigger] all[i]).0
            < 0x1_0000_0000 by {
            assert(tree@.contains_key(*all[i].0));
        }
    }
    for entry in it: walk
        invariant
            it.seq() == all,
            entries.len() == it.index(),
            forall|i: int| 0 <= i < all.len() ==> *(#[trigger] all[i]).0 < 0x1_0000_0000,
            forall|i: int|
                0 <= i < entries.len() ==> key_of((#[trigger] entries[i]).0) == *all[i].0
                    && entries[i].1 == *all[i].1,
            tables@ == targets_text(entries, show_open, show_closed, show_filtered),
    {
        let ip = Ipv4::from_key(*entry.0);
        let ghost before = entries;
        tables.append(target_of(ip, entry.1, show_open, show_closed, show_filtered).as_str());
        proof {
            entries = entries.push((ip, *entry.1));
            assert(entries.drop_last() =~= before);
            assert(entries.last() == (ip, *entry.1));
        }
    }
    let mut out = summary_of(open_ports.len(), closed_ports.len(), filtered_ports.len());
    out.append(tables.as_str());
    proof {
        let keys = all.map_values(|kv: (&u64, &TargetStates)| *kv.0);
        assert(increasing_seq(keys));
        assert(vstd::laws_cmp::obeys_cmp::<u64>());
        assert forall|i: int, j: int| 0 <= i < j < entries.len() implies entries[i].0.value()
            < entries[j].0.value() by {
            assert(OrdSpec::cmp_spec(&keys[i], &keys[j]) is Less);
        }
        assert forall|key: u64| #[trigger] tree@.contains_key(key) implies exists|i: int|
            0 <= i < entries.len() && key_of((#[trigger] entries[i]).0) == key by {
            assert(all.contains((&key, &tree@[key])));
            let i = choose|i: int| 0 <= i < all.len() && all[i] == (&key, &tree@[key]);
            assert(key_of(entries[i].0) == key);
        }
        assert(in_order(entries, tree@));
        lemma_one_order(entries, entries_of(tree@), tree@);
    }
    (out, tree)
}

} // verus!
