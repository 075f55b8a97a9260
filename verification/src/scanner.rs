//! TCP half-open port scanning: which of the target sockets accept a
//! connection, which refuse it, and which stay silent.

pub mod packet;

use vstd::prelude::*;
use crate::addr::{
    ascending_sockets, lemma_ascending_sockets_differ, lemma_socket_value_injective,
    sockets_of_keys, Ipv4, Mac, SocketV4,
};
use crate::checksum::{word, word_of};
use crate::entropy::random_between;
use crate::error::ScanError;
use crate::config::{FIRST_SOURCE_PORT, PROTOCOL_TCP, TCP_FRAME_LEN};
use crate::frame::{datagram_of, holds_ipv4, payload_of, read_ipv4, views, Datagram};
use crate::pending::{ascending, lemma_push_fresh, PendingSet};
use crate::scanner::packet::{build, tcp_frame, FLAG_ACK, FLAG_RST, FLAG_SYN};

verus! {

/// What a receiver reads from a TCP segment that came for the local address.
#[derive(Clone, Copy, Debug, PartialEq, Eq, Structural)]
pub struct TcpReply {
    /// The socket that sent the segment.
    pub source: SocketV4,
    /// The local port that the segment is for.
    pub local_port: u16,
    /// The flag bits of the segment.
    pub flags: u8,
}

/// What a reply says of the socket that sent it.
#[derive(Clone, Copy, Debug, PartialEq, Eq, Structural)]
pub enum Verdict {
    /// The socket accepted the connection.
    Open,
    /// The socket refused it.
    Closed,
}

/// The TCP segment for `local_ip` that the frame carries, or `None` where
/// the frame is anything else: not a whole IPv4 packet, not TCP, for another
/// address, or shorter than the 20 bytes of a TCP header.
pub open spec fn tcp_reply_of(frame: Seq<u8>, local_ip: Ipv4) -> Option<TcpReply> {
    match datagram_of(frame) {
        Some(d) => if d.protocol == PROTOCOL_TCP && d.destination == local_ip && payload_of(
            frame,
        ).len() >= 20 {
            let segment = payload_of(frame);
            Some(
                TcpReply {
                    source: SocketV4 {
                        ip: d.source,
                        port: word(segment[0], segment[1]) as u16,
                    },
                    local_port: word(segment[2], segment[3]) as u16,
                    flags: segment[13],
                },
            )
        } else {
            None
        },
        None => None,
    }
}

/// Reads an incoming frame as a TCP segment for `local_ip`.
pub fn tcp_reply_from(frame: &[u8], local_ip: Ipv4) -> (reply: Option<TcpReply>)
    ensures
        reply == tcp_reply_of(frame@, local_ip),
{
    match read_ipv4(frame) {
        Some(d) => {
            if d.protocol == PROTOCOL_TCP && d.destination == local_ip && d.end - d.start >= 20 {
                Some(
                    TcpReply {
                        source: SocketV4 {
                            ip: d.source,
                            port: word_of(frame[d.start], frame[d.start + 1]),
                        },
                        local_port: word_of(frame[d.start + 2], frame[d.start + 3]),
                        flags: frame[d.start + 13],
                    },
                )
            } else {
                None
            }
        },
        None => None,
    }
}

/// A TCP frame is read, at the address it was built for, as a segment from
/// the socket it was built from, for the port it was built for, with the
/// flags it was built with.
pub proof fn lemma_frame_reads_back(
    src_mac: Mac,
    src_socket: SocketV4,
    dest_socket: SocketV4,
    gateway_mac: Mac,
    flags: u8,
    identification: u16,
)
    ensures
        datagram_of(
            tcp_frame(src_mac, src_socket, dest_socket, gateway_mac, flags, identification),
        ) == Some(
            Datagram {
                protocol: PROTOCOL_TCP,
                source: src_socket.ip,
                destination: dest_socket.ip,
                start: 34,
                end: 66,
            },
        ),
        tcp_reply_of(
            tcp_frame(src_mac, src_socket, dest_socket, gateway_mac, flags, identification),
            dest_socket.ip,
        ) == Some(TcpReply { source: src_socket, local_port: dest_socket.port, flags }),
{
}

/// The field that a probe fills at random has no part in matching: a frame
/// is read the same whatever stands in the identification of its IPv4 header
/// (offsets 18 and 19) or in the header checksum (24 and 25).
pub proof fn lemma_matching_ignores_identification(
    frame: Seq<u8>,
    local_ip: Ipv4,
    at: int,
    value: u8,
)
    requires
        0 <= at < frame.len(),
        at == 18 || at == 19 || at == 24 || at == 25,
    ensures
        tcp_reply_of(frame.update(at, value), local_ip) == tcp_reply_of(frame, local_ip),
{
    let changed = frame.update(at, value);
    assert(holds_ipv4(changed) == holds_ipv4(frame));
    if holds_ipv4(frame) {
        assert(payload_of(changed) =~= payload_of(frame));
    }
}

/// Whether SYN and ACK are both set.
pub open spec fn ack_syn(tcp_flags: u8) -> bool {
    (tcp_flags & FLAG_SYN != 0) && (tcp_flags & FLAG_ACK != 0)
}

/// Whether RST is set.
pub open spec fn rst(tcp_flags: u8) -> bool {
    tcp_flags & FLAG_RST != 0
}

/// SYN together with ACK means open; otherwise RST means closed; any other
/// combination decides nothing.
pub open spec fn verdict_of(tcp_flags: u8) -> Option<Verdict> {
    if ack_syn(tcp_flags) {
        Some(Verdict::Open)
    } else if rst(tcp_flags) {
        Some(Verdict::Closed)
    } else {
        None
    }
}

pub fn is_ack_syn(tcp_flags: u8) -> (yes: bool)
    ensures
        yes == ack_syn(tcp_flags),
{
    (tcp_flags & FLAG_SYN != 0) && (tcp_flags & FLAG_ACK != 0)
}

pub fn is_rst(tcp_flags: u8) -> (yes: bool)
    ensures
        yes == rst(tcp_flags),
{
    tcp_flags & FLAG_RST != 0
}

/// What the flags of a reply decide.
pub fn judge(tcp_flags: u8) -> (verdict: Option<Verdict>)
    ensures
        verdict == verdict_of(tcp_flags),
{
    if is_ack_syn(tcp_flags) {
        Some(Verdict::Open)
    } else if is_rst(tcp_flags) {
        Some(Verdict::Closed)
    } else {
        None
    }
}

/// What a frame decides of the socket `target`: the verdict of a TCP segment
/// for `local_ip` that `target` sent.
pub open spec fn decisive(frame: Seq<u8>, local_ip: Ipv4, target: SocketV4) -> Option<Verdict> {
    match tcp_reply_of(frame, local_ip) {
        Some(reply) => if reply.source == target {
            verdict_of(reply.flags)
        } else {
            None
        },
        None => None,
    }
}

/// The reply that classifies a pending target: a TCP segment for `local_ip`
/// whose sender is pending and whose flags decide.
pub open spec fn judged(frame: Seq<u8>, local_ip: Ipv4, pending: Set<SocketV4>) -> Option<
    (TcpReply, Verdict),
> {
    match tcp_reply_of(frame, local_ip) {
        Some(reply) => if pending.contains(reply.source) {
            match verdict_of(reply.flags) {
                Some(verdict) => Some((reply, verdict)),
                None => None,
            }
        } else {
            None
        },
        None => None,
    }
}

/// Whether `frame` is a reset from the local port `local_port` to `target`,
/// whatever its IPv4 identification.
pub open spec fn is_reset_for(
    frame: Seq<u8>,
    local_mac: Mac,
    local_ip: Ipv4,
    gateway_mac: Mac,
    local_port: u16,
    target: SocketV4,
) -> bool {
    exists|identification: u16|
        frame == tcp_frame(
            local_mac,
            SocketV4 { ip: local_ip, port: local_port },
            target,
            gateway_mac,
            FLAG_RST,
            identification,
        )
}

/// The sockets to scan: every address paired with every port, address by
/// address and, for each address, port by port.
pub fn get_socket_addr(dest_ips: &Vec<Ipv4>, dest_ports: &Vec<u16>) -> (pairs: Vec<SocketV4>)
    ensures
        pairs@.len() == dest_ips@.len() * dest_ports@.len(),
        forall|i: int, j: int|
            0 <= i < dest_ips@.len() && 0 <= j < dest_ports@.len() ==> pairs@[i
                * dest_ports@.len() + j] == (SocketV4 {
                ip: #[trigger] dest_ips@[i],
                port: #[trigger] dest_ports@[j],
            }),
{
    let ghost width = dest_ports@.len() as int;
    let mut pairs: Vec<SocketV4> = Vec::new();
    let mut i: usize = 0;
    while i < dest_ips.len()
        invariant
            i <= dest_ips@.len(),
            width == dest_ports@.len(),
            pairs@.len() == i * width,
            forall|a: int, b: int|
                0 <= a < i && 0 <= b < width ==> pairs@[a * width + b] == (SocketV4 {
                    ip: #[trigger] dest_ips@[a],
                    port: #[trigger] dest_ports@[b],
                }),
        decreases dest_ips@.len() - i,
    {
        let mut j: usize = 0;
        while j < dest_ports.len()
            invariant
                i < dest_ips@.len(),
                j <= dest_ports@.len(),
                width == dest_ports@.len(),
                pairs@.len() == i * width + j,
                forall|a: int, b: int|
                    0 <= a < i && 0 <= b < width ==> pairs@[a * width + b] == (SocketV4 {
                        ip: #[trigger] dest_ips@[a],
                        port: #[trigger] dest_ports@[b],
                    }),
                forall|b: int|
                    0 <= b < j ==> pairs@[i * width + b] == (SocketV4 {
                        ip: dest_ips@[i as int],
                        port: #[trigger] dest_ports@[b],
                    }),
            decreases dest_ports@.len() - j,
        {
            let ghost before = pairs@;
            pairs.push(SocketV4 { ip: dest_ips[i], port: dest_ports[j] });
            proof {
                assert forall|a: int, b: int| 0 <= a < i && 0 <= b < width implies pairs@[a * width
                    + b] == (SocketV4 {
                    ip: #[trigger] dest_ips@[a],
                    port: #[trigger] dest_ports@[b],
                }) by {
                    assert(a * width + b < i * width) by (nonlinear_arith)
                        requires
                            0 <= a < i,
                            0 <= b < width,
                    ;
                    assert(0 <= a * width + b) by (nonlinear_arith)
                        requires
                            0 <= a,
                            0 <= b,
                            0 <= width,
                    ;
                    assert(pairs@[a * width + b] == before[a * width + b]);
                }
                assert(0 <= i * width) by (nonlinear_arith)
                    requires
                        0 <= i,
                        0 <= width,
                ;
                assert forall|b: int| 0 <= b < j + 1 implies pairs@[i * width + b] == (SocketV4 {
                    ip: dest_ips@[i as int],
                    port: #[trigger] dest_ports@[b],
                }) by {
                    if b < j {
                        assert(pairs@[i * width + b] == before[i * width + b]);
                    }
                }
            }
            j += 1;
        }
        proof {
            assert((i + 1) * width == i * width + width) by (nonlinear_arith);
        }
        i += 1;
    }
    pairs
}

/// Whether `frame` is a SYN probe for `target` from some local port of the
/// range that probes are sent from, whatever its IPv4 identification.
pub open spec fn is_probe_for(
    frame: Seq<u8>,
    local_mac: Mac,
    local_ip: Ipv4,
    gateway_mac: Mac,
    target: SocketV4,
) -> bool {
    exists|local_port: u16, identification: u16|
        FIRST_SOURCE_PORT <= local_port && frame == tcp_frame(
            local_mac,
            SocketV4 { ip: local_ip, port: local_port },
            target,
            gateway_mac,
            FLAG_SYN,
            identification,
        )
}

/// Builds the SYN probe for one target. The local port is drawn at random
/// from 20000 to 65535.
pub fn syn_probe(local_mac: Mac, local_ip: Ipv4, gateway_mac: Mac, target: SocketV4) -> (frame: [
    u8;
    TCP_FRAME_LEN
])
    ensures
        is_probe_for(frame@, local_mac, local_ip, gateway_mac, target),
{
    let local_port = random_between(FIRST_SOURCE_PORT, 65535);
    build(local_mac, SocketV4 { ip: local_ip, port: local_port }, target, gateway_mac, FLAG_SYN)
}

/// The set of the given sockets, as the keys by which they are found again.
pub fn get_btree(target_sockets: &Vec<SocketV4>) -> (set: PendingSet)
    ensures
        forall|socket: SocketV4|
            set@.contains(socket.value() as u64) <==> target_sockets@.contains(socket),
        forall|key: u64| set@.contains(key) ==> key < 0x1_0000_0000_0000,
{
    let mut pending = PendingSet::new();
    let mut i: usize = 0;
    while i < target_sockets.len()
        invariant
            i <= target_sockets@.len(),
            forall|k: u64| pending@.contains(k) ==> k < 0x1_0000_0000_0000,
            forall|socket: SocketV4|
                pending@.contains(socket.value() as u64) <==> exists|j: int|
                    0 <= j < i && target_sockets@[j] == socket,
        decreases target_sockets@.len() - i,
    {
        let ghost before = pending@;
        let target = target_sockets[i];
        pending.insert(target.key());
        proof {
            assert forall|socket: SocketV4|
                pending@.contains(socket.value() as u64) <==> exists|j: int|
                    0 <= j < i + 1 && target_sockets@[j] == socket by {
                if socket.value() == target.value() {
                    lemma_socket_value_injective(socket, target);
                    assert(target_sockets@[i as int] == socket);
                }
                if before.contains(socket.value() as u64) {
                    let j = choose|j: int| 0 <= j < i && target_sockets@[j] == socket;
                    assert(0 <= j < i + 1 && target_sockets@[j] == socket);
                }
                if exists|j: int| 0 <= j < i + 1 && target_sockets@[j] == socket {
                    let j = choose|j: int| 0 <= j < i + 1 && target_sockets@[j] == socket;
                    if j < i {
                        assert(before.contains(socket.value() as u64));
                    }
                }
            }
        }
        i += 1;
    }
    proof {
        assert forall|socket: SocketV4|
            pending@.contains(socket.value() as u64) <==> target_sockets@.contains(socket) by {
            if target_sockets@.contains(socket) {
                let j = choose|j: int|
                    0 <= j < target_sockets@.len() && target_sockets@[j] == socket;
                assert(0 <= j < i && target_sockets@[j] == socket);
            }
        }
    }
    pending
}

/// The classified sockets of a scan.
pub struct Ports {
    /// The sockets that accepted, in the order of their answers.
    pub open: Vec<SocketV4>,
    /// The sockets that refused, in the order of their answers.
    pub closed: Vec<SocketV4>,
    /// The sockets that gave no deciding answer, in ascending order.
    pub filtered: Vec<SocketV4>,
}

impl Ports {
    /// Every one of `targets` is in exactly one of the three lists, once,
    /// and nothing else is in them.
    pub open spec fn partitions(&self, targets: Set<SocketV4>) -> bool {
        &&& self.open@.no_duplicates()
        &&& self.closed@.no_duplicates()
        &&& self.filtered@.no_duplicates()
        &&& forall|socket: SocketV4|
            !(self.open@.contains(socket) && self.closed@.contains(socket))
        &&& forall|socket: SocketV4|
            !(self.open@.contains(socket) && self.filtered@.contains(socket))
        &&& forall|socket: SocketV4|
            !(self.closed@.contains(socket) && self.filtered@.contains(socket))
        &&& forall|socket: SocketV4|
            #![trigger targets.contains(socket)]
            targets.contains(socket) <==> self.open@.contains(socket) || self.closed@.contains(
                socket,
            ) || self.filtered@.contains(socket)
    }
}

/// The receiving side of a scan: the sockets that still wait for an answer
/// and those that have been classified.
pub struct Receiver {
    local_mac: Mac,
    local_ip: Ipv4,
    gateway_mac: Mac,
    pending: PendingSet,
    open: Vec<SocketV4>,
    closed: Vec<SocketV4>,
}

impl Receiver {
    /// The hardware address that resets are sent from.
    pub closed spec fn local_mac(&self) -> Mac {
        self.local_mac
    }

    /// The address that replies must be for.
    pub closed spec fn local_ip(&self) -> Ipv4 {
        self.local_ip
    }

    /// The hardware address that resets are sent to.
    pub closed spec fn gateway_mac(&self) -> Mac {
        self.gateway_mac
    }

    /// The sockets that have not been classified yet.
    pub closed spec fn pending(&self) -> Set<SocketV4> {
        Set::new(|socket: SocketV4| self.pending@.contains(socket.value() as u64))
    }

    /// The sockets found open, in the order of their answers.
    pub closed spec fn open(&self) -> Seq<SocketV4> {
        self.open@
    }

    /// The sockets found closed, in the order of their answers.
    pub closed spec fn closed(&self) -> Seq<SocketV4> {
        self.closed@
    }

    /// What holds of the stored keys: each is the key of a socket.
    pub closed spec fn stored(&self) -> bool {
        forall|key: u64| self.pending@.contains(key) ==> key < 0x1_0000_0000_0000
    }

    /// No socket is classified twice, and none that is classified is still
    /// pending.
    pub open spec fn wf(&self) -> bool {
        &&& self.stored()
        &&& self.open().no_duplicates()
        &&& self.closed().no_duplicates()
        &&& forall|socket: SocketV4|
            self.open().contains(socket) ==> !self.closed().contains(socket)
                && !self.pending().contains(socket)
        &&& forall|socket: SocketV4|
            self.closed().contains(socket) ==> !self.pending().contains(socket)
    }

    /// All sockets of the scan, classified or not.
    pub open spec fn targets(&self) -> Set<SocketV4> {
        self.pending().union(self.open().to_set()).union(self.closed().to_set())
    }

    /// Starts a scan in which every target is pending.
    pub fn new(
        local_mac: Mac,
        local_ip: Ipv4,
        gateway_mac: Mac,
        targets: &Vec<SocketV4>,
    ) -> (receiver: Receiver)
        ensures
            receiver.wf(),
            receiver.local_mac() == local_mac,
            receiver.local_ip() == local_ip,
            receiver.gateway_mac() == gateway_mac,
            receiver.pending() == targets@.to_set(),
            receiver.open() == Seq::<SocketV4>::empty(),
            receiver.closed() == Seq::<SocketV4>::empty(),
    {
        let pending = get_btree(targets);
        let receiver = Receiver {
            local_mac,
            local_ip,
            gateway_mac,
            pending,
            open: Vec::new(),
            closed: Vec::new(),
        };
        assert(receiver.pending() =~= targets@.to_set());
        receiver
    }

    /// Takes in one received frame. A deciding TCP reply to the local address
    /// from a pending socket classifies that socket: SYN with ACK as open,
    /// and then the reset to send back is returned; otherwise RST as closed.
    /// Every other frame changes nothing.
    pub fn receive(&mut self, frame: &[u8]) -> (reset: Option<[u8; TCP_FRAME_LEN]>)
        requires
            old(self).wf(),
        ensures
            final(self).wf(),
            final(self).local_mac() == old(self).local_mac(),
            final(self).local_ip() == old(self).local_ip(),
            final(self).gateway_mac() == old(self).gateway_mac(),
            final(self).targets() == old(self).targets(),
            final(self).pending().subset_of(old(self).pending()),
            final(self).pending() == match judged(
                frame@,
                old(self).local_ip(),
                old(self).pending(),
            ) {
                Some((reply, _)) => old(self).pending().remove(reply.source),
                None => old(self).pending(),
            },
            final(self).open() == match judged(frame@, old(self).local_ip(), old(self).pending()) {
                Some((reply, Verdict::Open)) => old(self).open().push(reply.source),
                _ => old(self).open(),
            },
            final(self).closed() == match judged(
                frame@,
                old(self).local_ip(),
                old(self).pending(),
            ) {
                Some((reply, Verdict::Closed)) => old(self).closed().push(reply.source),
                _ => old(self).closed(),
            },
            match judged(frame@, old(self).local_ip(), old(self).pending()) {
                Some((reply, Verdict::Open)) => reset is Some && is_reset_for(
                    reset->0@,
                    old(self).local_mac(),
                    old(self).local_ip(),
                    old(self).gateway_mac(),
                    reply.local_port,
                    reply.source,
                ),
                _ => reset is None,
            },
    {
        let reply = match tcp_reply_from(frame, self.local_ip) {
            Some(reply) => reply,
            None => {
                return None;
            },
        };
        let key = reply.source.key();
        if !self.pending.contains(key) {
            return None;
        }
        let verdict = match judge(reply.flags) {
            Some(verdict) => verdict,
            None => {
                return None;
            },
        };
        let ghost before = *self;
        self.pending.remove(key);
        proof {
            assert(before.pending().contains(reply.source));
            assert forall|k: u64| self.pending@.contains(k) implies k < 0x1_0000_0000_0000 by {
                assert(before.pending@.contains(k));
            }
            assert forall|socket: SocketV4|
                self.pending().contains(socket) <==> before.pending().remove(
                    reply.source,
                ).contains(socket) by {
                if socket.value() == reply.source.value() {
                    lemma_socket_value_injective(socket, reply.source);
                }
            }
            assert(self.pending() =~= before.pending().remove(reply.source));
            assert(!before.open().contains(reply.source));
            assert(!before.closed().contains(reply.source));
        }
        match verdict {
            Verdict::Open => {
                self.open.push(reply.source);
                proof {
                    lemma_push_fresh(before.open(), reply.source);
                    assert(self.targets() =~= before.targets());
                }
                let reset = build(
                    self.local_mac,
                    SocketV4 { ip: self.local_ip, port: reply.local_port },
                    reply.source,
                    self.gateway_mac,
                    FLAG_RST,
                );
                Some(reset)
            },
            Verdict::Closed => {
                self.closed.push(reply.source);
                proof {
                    lemma_push_fresh(before.closed(), reply.source);
                    assert(self.targets() =~= before.targets());
                }
                None
            },
        }
    }

    /// Takes in what a read of the link gave: a frame, which is handled as
    /// `receive` handles it, or nothing where the read failed, which is
    /// fatal and changes nothing.
    pub fn take(&mut self, read: Option<&[u8]>) -> (reset: Result<
        Option<[u8; TCP_FRAME_LEN]>,
        ScanError,
    >)
        requires
            old(self).wf(),
        ensures
            final(self).wf(),
            final(self).local_mac() == old(self).local_mac(),
            final(self).local_ip() == old(self).local_ip(),
            final(self).gateway_mac() == old(self).gateway_mac(),
            final(self).targets() == old(self).targets(),
            match read {
                Some(frame) => {
                    let hit = judged(frame@, old(self).local_ip(), old(self).pending());
                    &&& reset is Ok
                    &&& final(self).pending() == match hit {
                        Some((reply, _)) => old(self).pending().remove(reply.source),
                        None => old(self).pending(),
                    }
                    &&& final(self).open() == match hit {
                        Some((reply, Verdict::Open)) => old(self).open().push(reply.source),
                        _ => old(self).open(),
                    }
                    &&& final(self).closed() == match hit {
                        Some((reply, Verdict::Closed)) => old(self).closed().push(reply.source),
                        _ => old(self).closed(),
                    }
                    &&& match hit {
                        Some((reply, Verdict::Open)) => reset.unwrap() is Some && is_reset_for(
                            reset.unwrap()->0@,
                            old(self).local_mac(),
                            old(self).local_ip(),
                            old(self).gateway_mac(),
                            reply.local_port,
                            reply.source,
                        ),
                        _ => reset.unwrap() is None,
                    }
                },
                None => {
                    &&& reset == Err::<Option<[u8; TCP_FRAME_LEN]>, ScanError>(ScanError::Receive)
                    &&& final(self).pending() == old(self).pending()
                    &&& final(self).open() == old(self).open()
                    &&& final(self).closed() == old(self).closed()
                },
            },
    {
        match read {
            Some(frame) => Ok(self.receive(frame)),
            None => Err(ScanError::Receive),
        }
    }

    /// Ends the scan: every socket that is still pending is filtered.
    pub fn finish(self) -> (ports: Ports)
        requires
            self.wf(),
        ensures
            ports.open@ == self.open(),
            ports.closed@ == self.closed(),
            ports.filtered@.to_set() == self.pending(),
            ascending_sockets(ports.filtered@),
            ports.partitions(self.targets()),
    {
        let Receiver { local_mac: _, local_ip: _, gateway_mac: _, pending, open, closed } = self;
        let keys = pending.into_keys();
        let filtered = sockets_of_keys(&keys);
        proof {
            assert forall|j: int| 0 <= j < keys@.len() implies keys@[j] < 0x1_0000_0000_0000 by {
                assert(keys@.to_set().contains(keys@[j]));
            }
            assert forall|socket: SocketV4|
                filtered@.to_set().contains(socket) <==> self.pending().contains(socket) by {
                if filtered@.contains(socket) {
                    let j = choose|j: int| 0 <= j < filtered@.len() && filtered@[j] == socket;
                    assert(keys@[j] == socket.value());
                    assert(keys@.to_set().contains(socket.value() as u64));
                }
                if keys@.to_set().contains(socket.value() as u64) {
                    let j = choose|j: int|
                        0 <= j < keys@.len() && keys@[j] == socket.value() as u64;
                    lemma_socket_value_injective(filtered@[j], socket);
                    assert(filtered@[j] == socket);
                }
            }
            assert(filtered@.to_set() =~= self.pending());
            assert forall|i: int, j: int| 0 <= i < j < filtered@.len() implies filtered@[i].value()
                < filtered@[j].value() by {
                assert(keys@[i] < keys@[j]);
            }
            lemma_ascending_sockets_differ(filtered@);
            assert forall|socket: SocketV4|
                self.targets().contains(socket) <==> open@.contains(socket) || closed@.contains(
                    socket,
                ) || filtered@.contains(socket) by {
                assert(filtered@.to_set().contains(socket) <==> filtered@.contains(socket));
                assert(open@.to_set().contains(socket) <==> open@.contains(socket));
                assert(closed@.to_set().contains(socket) <==> closed@.contains(socket));
            }
            assert forall|socket: SocketV4|
                !(open@.contains(socket) && filtered@.contains(socket)) by {
                assert(filtered@.to_set().contains(socket) <==> filtered@.contains(socket));
            }
            assert forall|socket: SocketV4|
                !(closed@.contains(socket) && filtered@.contains(socket)) by {
                assert(filtered@.to_set().contains(socket) <==> filtered@.contains(socket));
            }
        }
        Ports { open, closed, filtered }
    }
}

/// What the replies have decided so far.
pub struct Tally {
    /// The sockets found open, in the order of their answers.
    pub open: Seq<SocketV4>,
    /// The sockets found closed, in the order of their answers.
    pub closed: Seq<SocketV4>,
    /// For each open socket, the local port that its answer was for.
    pub reset_ports: Seq<u16>,
}

/// The tally after the given frames have been received in order: each frame
/// is judged against the targets that no earlier frame has classified.
pub open spec fn tally_after(targets: Set<SocketV4>, local_ip: Ipv4, frames: Seq<Seq<u8>>) -> Tally
    decreases frames.len(),
{
    if frames.len() == 0 {
        Tally { open: Seq::empty(), closed: Seq::empty(), reset_ports: Seq::empty() }
    } else {
        let before = tally_after(targets, local_ip, frames.drop_last());
        let pending = targets.difference(before.open.to_set()).difference(before.closed.to_set());
        match judged(frames.last(), local_ip, pending) {
            Some((reply, Verdict::Open)) => Tally {
                open: before.open.push(reply.source),
                closed: before.closed,
                reset_ports: before.reset_ports.push(reply.local_port),
            },
            Some((reply, Verdict::Closed)) => Tally {
                open: before.open,
                closed: before.closed.push(reply.source),
                reset_ports: before.reset_ports,
            },
            None => before,
        }
    }
}

/// What the first deciding reply of `target` among `frames` says, or `None`
/// where none of the frames decides anything of it.
pub open spec fn first_decisive(frames: Seq<Seq<u8>>, local_ip: Ipv4, target: SocketV4) -> Option<
    Verdict,
>
    decreases frames.len(),
{
    if frames.len() == 0 {
        None
    } else {
        match first_decisive(frames.drop_last(), local_ip, target) {
            Some(verdict) => Some(verdict),
            None => decisive(frames.last(), local_ip, target),
        }
    }
}

/// No socket is listed twice in the tally, and each open socket has its
/// reset port.
pub proof fn lemma_tally_lists_once(targets: Set<SocketV4>, local_ip: Ipv4, frames: Seq<Seq<u8>>)
    ensures
        tally_after(targets, local_ip, frames).open.no_duplicates(),
        tally_after(targets, local_ip, frames).closed.no_duplicates(),
        tally_after(targets, local_ip, frames).reset_ports.len() == tally_after(
            targets,
            local_ip,
            frames,
        ).open.len(),
    decreases frames.len(),
{
    if frames.len() > 0 {
        let before = tally_after(targets, local_ip, frames.drop_last());
        lemma_tally_lists_once(targets, local_ip, frames.drop_last());
        let pending = targets.difference(before.open.to_set()).difference(before.closed.to_set());
        match judged(frames.last(), local_ip, pending) {
            Some((reply, Verdict::Open)) => {
                assert(!before.open.to_set().contains(reply.source));
                lemma_push_fresh(before.open, reply.source);
            },
            Some((reply, Verdict::Closed)) => {
                assert(!before.closed.to_set().contains(reply.source));
                lemma_push_fresh(before.closed, reply.source);
            },
            None => {},
        }
    }
}

/// A target is classified by its first deciding reply: it is listed as open
/// exactly if that reply accepts, as closed exactly if it refuses, and in
/// neither list if there is none.
pub proof fn lemma_tally_by_first_decisive(
    targets: Set<SocketV4>,
    local_ip: Ipv4,
    frames: Seq<Seq<u8>>,
    target: SocketV4,
)
    ensures
        tally_after(targets, local_ip, frames).open.contains(target) <==> targets.contains(target)
            && first_decisive(frames, local_ip, target) == Some(Verdict::Open),
        tally_after(targets, local_ip, frames).closed.contains(target) <==> targets.contains(
            target,
        ) && first_decisive(frames, local_ip, target) == Some(Verdict::Closed),
    decreases frames.len(),
{
    let after = tally_after(targets, local_ip, frames);
    if frames.len() == 0 {
        assert(after.open =~= Seq::<SocketV4>::empty());
        assert(after.closed =~= Seq::<SocketV4>::empty());
        return ;
    }
    let earlier = frames.drop_last();
    let before = tally_after(targets, local_ip, earlier);
    lemma_tally_by_first_decisive(targets, local_ip, earlier, target);
    lemma_tally_lists_once(targets, local_ip, earlier);
    let pending = targets.difference(before.open.to_set()).difference(before.closed.to_set());
    assert(pending.contains(target) <==> targets.contains(target) && !before.open.contains(target)
        && !before.closed.contains(target));
    match judged(frames.last(), local_ip, pending) {
        Some((reply, verdict)) => {
            assert(pending.contains(reply.source));
            assert(!before.open.contains(reply.source));
            assert(!before.closed.contains(reply.source));
            match verdict {
                Verdict::Open => {
                    assert(after.open == before.open.push(reply.source));
                    assert(after.closed == before.closed);
                    lemma_push_fresh(before.open, reply.source);
                },
                Verdict::Closed => {
                    assert(after.open == before.open);
                    assert(after.closed == before.closed.push(reply.source));
                    lemma_push_fresh(before.closed, reply.source);
                },
            }
            if target == reply.source {
                assert(first_decisive(earlier, local_ip, target) is None);
                assert(decisive(frames.last(), local_ip, target) == Some(verdict));
            } else {
                assert(decisive(frames.last(), local_ip, target) is None);
            }
        },
        None => {
            assert(after == before);
            if targets.contains(target) && first_decisive(earlier, local_ip, target) is None {
                assert(pending.contains(target));
                assert(decisive(frames.last(), local_ip, target) is None);
            }
        },
    }
}

/// A reply from a socket that is already classified changes nothing: the
/// socket stays where it is and is not listed again.
pub proof fn lemma_repeated_reply_ignored(
    targets: Set<SocketV4>,
    local_ip: Ipv4,
    frames: Seq<Seq<u8>>,
    frame: Seq<u8>,
)
    requires
        tcp_reply_of(frame, local_ip) is Some,
        tally_after(targets, local_ip, frames).open.contains(
            tcp_reply_of(frame, local_ip)->0.source,
        ) || tally_after(targets, local_ip, frames).closed.contains(
            tcp_reply_of(frame, local_ip)->0.source,
        ),
    ensures
        tally_after(targets, local_ip, frames.push(frame)) == tally_after(
            targets,
            local_ip,
            frames,
        ),
{
    assert(frames.push(frame).drop_last() =~= frames);
}

/// Classifies the target sockets of a scan from the frames that were
/// received while it ran, in the order of their arrival, and builds the
/// resets that the open sockets are owed. A socket is open or closed as its
/// first deciding reply says, and filtered where no reply decides; every
/// target is in exactly one of the three lists, once. The resets stand in
/// the order of the open sockets, each from the local port that the socket
/// answered to.
pub fn scan(
    local_mac: Mac,
    local_ip: Ipv4,
    gateway_mac: Mac,
    targets: &Vec<SocketV4>,
    frames: &Vec<Vec<u8>>,
) -> (found: (Ports, Vec<[u8; TCP_FRAME_LEN]>))
    ensures
        found.0.open@ == tally_after(targets@.to_set(), local_ip, views(frames@)).open,
        found.0.closed@ == tally_after(targets@.to_set(), local_ip, views(frames@)).closed,
        found.0.partitions(targets@.to_set()),
        ascending_sockets(found.0.filtered@),
        forall|target: SocketV4|
            #![trigger found.0.open@.contains(target)]
            found.0.open@.contains(target) <==> targets@.contains(target) && first_decisive(
                views(frames@),
                local_ip,
                target,
            ) == Some(Verdict::Open),
        forall|target: SocketV4|
            #![trigger found.0.closed@.contains(target)]
            found.0.closed@.contains(target) <==> targets@.contains(target) && first_decisive(
                views(frames@),
                local_ip,
                target,
            ) == Some(Verdict::Closed),
        forall|target: SocketV4|
            #![trigger found.0.filtered@.contains(target)]
            found.0.filtered@.contains(target) <==> targets@.contains(target) && first_decisive(
                views(frames@),
                local_ip,
                target,
            ) is None,
        found.1@.len() == found.0.open@.len(),
        forall|i: int|
            0 <= i < found.1@.len() ==> is_reset_for(
                (#[trigger] found.1@[i])@,
                local_mac,
                local_ip,
                gateway_mac,
                tally_after(targets@.to_set(), local_ip, views(frames@)).reset_ports[i],
                found.0.open@[i],
            ),
{
    let mut receiver = Receiver::new(local_mac, local_ip, gateway_mac, targets);
    let mut resets: Vec<[u8; TCP_FRAME_LEN]> = Vec::new();
    let ghost all = targets@.to_set();
    let mut i: usize = 0;
    while i < frames.len()
        invariant
            i <= frames@.len(),
            all == targets@.to_set(),
            receiver.wf(),
            receiver.local_mac() == local_mac,
            receiver.local_ip() == local_ip,
            receiver.gateway_mac() == gateway_mac,
            receiver.targets() == all,
            receiver.open() == tally_after(
                all,
                local_ip,
                views(frames@.subrange(0, i as int)),
            ).open,
            receiver.closed() == tally_after(
                all,
                local_ip,
                views(frames@.subrange(0, i as int)),
            ).closed,
            resets@.len() == receiver.open().len(),
            tally_after(all, local_ip, views(frames@.subrange(0, i as int))).reset_ports.len()
                == resets@.len(),
            forall|j: int|
                0 <= j < resets@.len() ==> is_reset_for(
                    (#[trigger] resets@[j])@,
                    local_mac,
                    local_ip,
                    gateway_mac,
                    tally_after(all, local_ip, views(frames@.subrange(0, i as int))).reset_ports[j],
                    receiver.open()[j],
                ),
        decreases frames@.len() - i,
    {
        proof {
            let seen = views(frames@.subrange(0, i as int));
            let next = views(frames@.subrange(0, i + 1));
            assert(next.drop_last() =~= seen);
            assert(next.last() == frames@[i as int]@);
            assert(receiver.pending() =~= all.difference(receiver.open().to_set()).difference(
                receiver.closed().to_set(),
            ));
        }
        match receiver.receive(frames[i].as_slice()) {
            Some(reset) => {
                resets.push(reset);
            },
            None => {},
        }
        i += 1;
    }
    proof {
        assert(frames@.subrange(0, i as int) =~= frames@);
        lemma_tally_lists_once(all, local_ip, views(frames@));
        assert(receiver.pending() =~= all.difference(receiver.open().to_set()).difference(
            receiver.closed().to_set(),
        ));
    }
    let ports = receiver.finish();
    proof {
        let seen = views(frames@);
        assert forall|target: SocketV4|
            ports.open@.contains(target) <==> targets@.contains(target) && first_decisive(
                seen,
                local_ip,
                target,
            ) == Some(Verdict::Open) by {
            lemma_tally_by_first_decisive(all, local_ip, seen, target);
            assert(all.contains(target) <==> targets@.contains(target));
        }
        assert forall|target: SocketV4|
            ports.closed@.contains(target) <==> targets@.contains(target) && first_decisive(
                seen,
                local_ip,
                target,
            ) == Some(Verdict::Closed) by {
            lemma_tally_by_first_decisive(all, local_ip, seen, target);
            assert(all.contains(target) <==> targets@.contains(target));
        }
        assert forall|target: SocketV4|
            ports.filtered@.contains(target) <==> targets@.contains(target) && first_decisive(
                seen,
                local_ip,
                target,
            ) is None by {
            lemma_tally_by_first_decisive(all, local_ip, seen, target);
            assert(all.contains(target) <==> targets@.contains(target));
            assert(ports.filtered@.to_set().contains(target) <==> ports.filtered@.contains(target));
            assert(ports.open@.to_set().contains(target) <==> ports.open@.contains(target));
            assert(ports.closed@.to_set().contains(target) <==> ports.closed@.contains(target));
        }
    }
    (ports, resets)
}

} // verus!
