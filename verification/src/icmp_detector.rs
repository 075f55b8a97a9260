//! Host discovery by ICMP echo: which of the targets answer an echo request.

pub mod packet;

use vstd::prelude::*;
use crate::addr::{
    addresses_of_keys, ascending_ips, lemma_ascending_ips_differ, lemma_value_injective, Ipv4, Mac,
};
use crate::config::{ECHO_REPLY, PROTOCOL_ICMP};
use crate::error::ScanError;
use crate::frame::{datagram_of, header_len, holds_ipv4, payload_of, read_ipv4, views, Datagram};
use crate::icmp_detector::packet::echo_frame;
use crate::pending::{ascending, PendingSet};

verus! {

/// The sender of an echo reply addressed to `local_ip`, or `None` where the
/// frame is anything else: not a whole IPv4 packet, not ICMP, for another
/// address, shorter than the four bytes of an ICMP header, or of another
/// message type.
pub open spec fn echo_reply_source(frame: Seq<u8>, local_ip: Ipv4) -> Option<Ipv4> {
    match datagram_of(frame) {
        Some(d) => if d.protocol == PROTOCOL_ICMP && d.destination == local_ip && payload_of(
            frame,
        ).len() >= 4 && payload_of(frame)[0] == ECHO_REPLY {
            Some(d.source)
        } else {
            None
        },
        None => None,
    }
}

/// Reads an incoming frame as an echo reply to `local_ip`.
pub fn echo_reply_from(frame: &[u8], local_ip: Ipv4) -> (source: Option<Ipv4>)
    ensures
        source == echo_reply_source(frame@, local_ip),
{
    match read_ipv4(frame) {
        Some(d) => {
            if d.protocol == PROTOCOL_ICMP && d.destination == local_ip && d.end - d.start >= 4
                && frame[d.start] == ECHO_REPLY {
                Some(d.source)
            } else {
                None
            }
        },
        None => None,
    }
}

/// An echo-request frame is read as an ICMP packet between the addresses it
/// was built for, and it is no echo reply, whoever reads it.
pub proof fn lemma_probe_reads_back(
    src_mac: Mac,
    src_ip: Ipv4,
    dest_ip: Ipv4,
    gateway_mac: Mac,
    identification: u16,
    identifier: u16,
    local_ip: Ipv4,
)
    ensures
        datagram_of(
            echo_frame(src_mac, src_ip, dest_ip, gateway_mac, identification, identifier),
        ) == Some(
            Datagram {
                protocol: PROTOCOL_ICMP,
                source: src_ip,
                destination: dest_ip,
                start: 34,
                end: 42,
            },
        ),
        echo_reply_source(
            echo_frame(src_mac, src_ip, dest_ip, gateway_mac, identification, identifier),
            local_ip,
        ) is None,
{
}

/// The fields that a probe fills at random have no part in matching: a
/// frame is read the same whatever stands in the identification of its IPv4
/// header (offsets 18 and 19), in the header checksum (24 and 25), or behind
/// the type of the ICMP message, where the echo identifier is.
pub proof fn lemma_matching_ignores_identifiers(
    frame: Seq<u8>,
    local_ip: Ipv4,
    at: int,
    value: u8,
)
    requires
        0 <= at < frame.len(),
        at == 18 || at == 19 || at == 24 || at == 25 || (holds_ipv4(frame) && at > 14
            + header_len(frame)),
    ensures
        echo_reply_source(frame.update(at, value), local_ip) == echo_reply_source(frame, local_ip),
{
    let changed = frame.update(at, value);
    assert(holds_ipv4(changed) == holds_ipv4(frame));
    if holds_ipv4(frame) {
        assert(payload_of(changed).len() == payload_of(frame).len());
        if payload_of(frame).len() >= 4 {
            assert(payload_of(changed)[0] == payload_of(frame)[0]);
        }
    }
}

/// The target that a frame answers: the sender of an echo reply to
/// `local_ip`, where that sender is still pending.
pub open spec fn answered(frame: Seq<u8>, local_ip: Ipv4, pending: Set<Ipv4>) -> Option<Ipv4> {
    match echo_reply_source(frame, local_ip) {
        Some(ip) => if pending.contains(ip) {
            Some(ip)
        } else {
            None
        },
        None => None,
    }
}

/// The targets that answered, in the order of their first echo reply among
/// `frames`.
pub open spec fn reachable_after(targets: Set<Ipv4>, local_ip: Ipv4, frames: Seq<Seq<u8>>) -> Seq<
    Ipv4,
>
    decreases frames.len(),
{
    if frames.len() == 0 {
        Seq::empty()
    } else {
        let before = reachable_after(targets, local_ip, frames.drop_last());
        match answered(frames.last(), local_ip, targets.difference(before.to_set())) {
            Some(ip) => before.push(ip),
            None => before,
        }
    }
}

/// Whether one of `frames` is an echo reply from `ip` to `local_ip`.
pub open spec fn replied(frames: Seq<Seq<u8>>, local_ip: Ipv4, ip: Ipv4) -> bool {
    exists|i: int|
        0 <= i < frames.len() && echo_reply_source(#[trigger] frames[i], local_ip) == Some(ip)
}

/// The outcome of a discovery sweep.
pub struct Discovery {
    /// The targets that answered, in the order of their first answer.
    pub reachable: Vec<Ipv4>,
    /// The targets that did not, in ascending order.
    pub unreachable: Vec<Ipv4>,
}

impl Discovery {
    /// Every one of `targets` is in exactly one of the two lists, once, and
    /// nothing else is in them.
    pub open spec fn partitions(&self, targets: Set<Ipv4>) -> bool {
        &&& self.reachable@.no_duplicates()
        &&& self.unreachable@.no_duplicates()
        &&& forall|ip: Ipv4| !(self.reachable@.contains(ip) && self.unreachable@.contains(ip))
        &&& forall|ip: Ipv4|
            #![trigger targets.contains(ip)]
            targets.contains(ip) <==> self.reachable@.contains(ip) || self.unreachable@.contains(
                ip,
            )
    }
}

/// The receiving side of a discovery sweep: the targets that still wait for
/// an answer and those that have answered.
pub struct Detector {
    local_ip: Ipv4,
    pending: PendingSet,
    reachable: Vec<Ipv4>,
}

impl Detector {
    /// The address that replies must be for.
    pub closed spec fn local_ip(&self) -> Ipv4 {
        self.local_ip
    }

    /// The targets that have not answered yet.
    pub closed spec fn pending(&self) -> Set<Ipv4> {
        Set::new(|ip: Ipv4| self.pending@.contains(ip.value() as u64))
    }

    /// The targets that have answered, in the order of their first answer.
    pub closed spec fn reachable(&self) -> Seq<Ipv4> {
        self.reachable@
    }

    /// What holds of the stored keys: each is the key of an address.
    pub closed spec fn stored(&self) -> bool {
        forall|key: u64| self.pending@.contains(key) ==> key < 0x1_0000_0000
    }

    /// No target has answered twice, and none that answered is still pending.
    pub open spec fn wf(&self) -> bool {
        &&& self.stored()
        &&& self.reachable().no_duplicates()
        &&& forall|ip: Ipv4| self.reachable().contains(ip) ==> !self.pending().contains(ip)
    }

    /// All targets of the sweep, answered or not.
    pub open spec fn targets(&self) -> Set<Ipv4> {
        self.pending().union(self.reachable().to_set())
    }

    /// Starts a sweep in which every target is pending.
    pub fn new(local_ip: Ipv4, targets: &Vec<Ipv4>) -> (detector: Detector)
        ensures
            detector.wf(),
            detector.local_ip() == local_ip,
            detector.pending() == targets@.to_set(),
            detector.reachable() == Seq::<Ipv4>::empty(),
    {
        let mut pending = PendingSet::new();
        let mut i: usize = 0;
        while i < targets.len()
            invariant
                i <= targets@.len(),
                forall|k: u64| pending@.contains(k) ==> k < 0x1_0000_0000,
                forall|ip: Ipv4|
                    pending@.contains(ip.value() as u64) <==> exists|j: int|
                        0 <= j < i && targets@[j] == ip,
            decreases targets@.len() - i,
        {
            let ghost before = pending@;
            let target = targets[i];
            pending.insert(target.key());
            proof {
                assert forall|ip: Ipv4|
                    pending@.contains(ip.value() as u64) <==> exists|j: int|
                        0 <= j < i + 1 && targets@[j] == ip by {
                    if ip.value() == target.value() {
                        lemma_value_injective(ip, target);
                        assert(targets@[i as int] == ip);
                    }
                    if before.contains(ip.value() as u64) {
                        let j = choose|j: int| 0 <= j < i && targets@[j] == ip;
                        assert(0 <= j < i + 1 && targets@[j] == ip);
                    }
                    if exists|j: int| 0 <= j < i + 1 && targets@[j] == ip {
                        let j = choose|j: int| 0 <= j < i + 1 && targets@[j] == ip;
                        if j < i {
                            assert(before.contains(ip.value() as u64));
                        }
                    }
                }
            }
            i += 1;
        }
        let detector = Detector { local_ip, pending, reachable: Vec::new() };
        proof {
            assert forall|ip: Ipv4| detector.pending().contains(ip) <==> targets@.to_set().contains(
                ip,
            ) by {
                if targets@.contains(ip) {
                    let j = choose|j: int| 0 <= j < targets@.len() && targets@[j] == ip;
                    assert(0 <= j < i && targets@[j] == ip);
                }
            }
            assert(detector.pending() =~= targets@.to_set());
        }
        detector
    }

    /// Takes in one received frame. An echo reply to the local address from
    /// a pending target moves that target to the reachable ones and is
    /// reported; every other frame changes nothing.
    pub fn receive(&mut self, frame: &[u8]) -> (hit: Option<Ipv4>)
        requires
            old(self).wf(),
        ensures
            final(self).wf(),
            final(self).local_ip() == old(self).local_ip(),
            final(self).targets() == old(self).targets(),
            final(self).pending().subset_of(old(self).pending()),
            hit == answered(frame@, old(self).local_ip(), old(self).pending()),
            final(self).pending() == match hit {
                Some(ip) => old(self).pending().remove(ip),
                None => old(self).pending(),
            },
            final(self).reachable() == match hit {
                Some(ip) => old(self).reachable().push(ip),
                None => old(self).reachable(),
            },
    {
        let source = match echo_reply_from(frame, self.local_ip) {
            Some(source) => source,
            None => {
                return None;
            },
        };
        let key = source.key();
        if !self.pending.contains(key) {
            return None;
        }
        let ghost before = *self;
        self.pending.remove(key);
        self.reachable.push(source);
        proof {
            assert forall|k: u64| self.pending@.contains(k) implies k < 0x1_0000_0000 by {
                assert(before.pending@.contains(k));
            }
            assert forall|ip: Ipv4| self.pending().contains(ip) <==> before.pending().remove(
                source,
            ).contains(ip) by {
                if ip.value() == source.value() {
                    lemma_value_injective(ip, source);
                }
            }
            assert(self.pending() =~= before.pending().remove(source));
            assert(self.reachable() == before.reachable().push(source));
            assert forall|i: int, j: int|
                0 <= i < self.reachable().len() && 0 <= j < self.reachable().len() && i
                    != j implies self.reachable()[i] != self.reachable()[j] by {
                assert(before.pending().contains(source));
                if i == before.reachable().len() {
                    assert(before.reachable()[j] == self.reachable()[j]);
                    assert(before.reachable().contains(before.reachable()[j]));
                } else if j == before.reachable().len() {
                    assert(before.reachable()[i] == self.reachable()[i]);
                    assert(before.reachable().contains(before.reachable()[i]));
                } else {
                    assert(before.reachable()[i] == self.reachable()[i]);
                    assert(before.reachable()[j] == self.reachable()[j]);
                }
            }
            assert forall|ip: Ipv4| self.reachable().contains(ip) implies !self.pending().contains(
                ip,
            ) by {
                let i = choose|i: int| 0 <= i < self.reachable().len() && self.reachable()[i] == ip;
                if i < before.reachable().len() {
                    assert(before.reachable()[i] == ip);
                    assert(before.reachable().contains(ip));
                }
            }
            assert forall|ip: Ipv4| self.targets().contains(ip) <==> before.targets().contains(
                ip,
            ) by {
                if before.reachable().contains(ip) {
                    let i = choose|i: int|
                        0 <= i < before.reachable().len() && before.reachable()[i] == ip;
                    assert(self.reachable()[i] == ip);
                }
                if ip == source {
                    assert(self.reachable()[before.reachable().len() as int] == ip);
                }
                if self.reachable().contains(ip) {
                    let i = choose|i: int|
                        0 <= i < self.reachable().len() && self.reachable()[i] == ip;
                    if i < before.reachable().len() {
                        assert(before.reachable()[i] == ip);
                    }
                }
            }
            assert(self.targets() =~= before.targets());
        }
        Some(source)
    }

    /// Takes in what a read of the link gave: a frame, which is handled as
    /// `receive` handles it, or nothing where the read failed, which is
    /// fatal and changes nothing.
    pub fn take(&mut self, read: Option<&[u8]>) -> (hit: Result<Option<Ipv4>, ScanError>)
        requires
            old(self).wf(),
        ensures
            final(self).wf(),
            final(self).local_ip() == old(self).local_ip(),
            final(self).targets() == old(self).targets(),
            match read {
                Some(frame) => {
                    let answer = answered(frame@, old(self).local_ip(), old(self).pending());
                    &&& hit == Ok::<Option<Ipv4>, ScanError>(answer)
                    &&& final(self).pending() == match answer {
                        Some(ip) => old(self).pending().remove(ip),
                        None => old(self).pending(),
                    }
                    &&& final(self).reachable() == match answer {
                        Some(ip) => old(self).reachable().push(ip),
                        None => old(self).reachable(),
                    }
                },
                None => {
                    &&& hit == Err::<Option<Ipv4>, ScanError>(ScanError::Receive)
                    &&& final(self).pending() == old(self).pending()
                    &&& final(self).reachable() == old(self).reachable()
                },
            },
    {
        match read {
            Some(frame) => Ok(self.receive(frame)),
            None => Err(ScanError::Receive),
        }
    }

    /// Ends the sweep: every target that is still pending is unreachable.
    pub fn finish(self) -> (found: Discovery)
        requires
            self.wf(),
        ensures
            found.reachable@ == self.reachable(),
            found.unreachable@.to_set() == self.pending(),
            ascending_ips(found.unreachable@),
            found.partitions(self.targets()),
    {
        let Detector { local_ip: _, pending, reachable } = self;
        let keys = pending.into_keys();
        let unreachable = addresses_of_keys(&keys);
        proof {
            assert forall|j: int| 0 <= j < keys@.len() implies keys@[j] < 0x1_0000_0000 by {
                assert(keys@.to_set().contains(keys@[j]));
            }
            assert forall|ip: Ipv4| unreachable@.to_set().contains(ip) <==> self.pending().contains(
                ip,
            ) by {
                if unreachable@.contains(ip) {
                    let j = choose|j: int| 0 <= j < unreachable@.len() && unreachable@[j] == ip;
                    assert(keys@[j] == ip.value());
                    assert(keys@.to_set().contains(ip.value() as u64));
                }
                if keys@.to_set().contains(ip.value() as u64) {
                    let j = choose|j: int| 0 <= j < keys@.len() && keys@[j] == ip.value() as u64;
                    lemma_value_injective(unreachable@[j], ip);
                    assert(unreachable@[j] == ip);
                }
            }
            assert(unreachable@.to_set() =~= self.pending());
            assert forall|i: int, j: int|
                0 <= i < j < unreachable@.len() implies unreachable@[i].value()
                < unreachable@[j].value() by {
                assert(keys@[i] < keys@[j]);
            }
            lemma_ascending_ips_differ(unreachable@);
            assert forall|ip: Ipv4|
                self.targets().contains(ip) <==> reachable@.contains(ip) || unreachable@.contains(
                    ip,
                ) by {
                assert(unreachable@.to_set().contains(ip) <==> unreachable@.contains(ip));
                assert(reachable@.to_set().contains(ip) <==> reachable@.contains(ip));
            }
            assert forall|ip: Ipv4| !(reachable@.contains(ip) && unreachable@.contains(ip)) by {
                assert(unreachable@.to_set().contains(ip) <==> unreachable@.contains(ip));
            }
        }
        Discovery { reachable, unreachable }
    }
}

/// The answered targets are targets, none is listed twice, and a target is
/// among them exactly if one of the frames is its echo reply.
pub proof fn lemma_reachable_exactly_the_repliers(
    targets: Set<Ipv4>,
    local_ip: Ipv4,
    frames: Seq<Seq<u8>>,
)
    ensures
        reachable_after(targets, local_ip, frames).no_duplicates(),
        forall|ip: Ipv4|
            #![trigger reachable_after(targets, local_ip, frames).contains(ip)]
            reachable_after(targets, local_ip, frames).contains(ip) <==> targets.contains(ip)
                && replied(frames, local_ip, ip),
    decreases frames.len(),
{
    let after = reachable_after(targets, local_ip, frames);
    if frames.len() == 0 {
        return ;
    }
    let earlier = frames.drop_last();
    let before = reachable_after(targets, local_ip, earlier);
    lemma_reachable_exactly_the_repliers(targets, local_ip, earlier);
    let hit = answered(frames.last(), local_ip, targets.difference(before.to_set()));
    assert forall|ip: Ipv4| replied(frames, local_ip, ip) <==> replied(earlier, local_ip, ip)
        || echo_reply_source(frames.last(), local_ip) == Some(ip) by {
        if replied(earlier, local_ip, ip) {
            let i = choose|i: int|
                0 <= i < earlier.len() && echo_reply_source(#[trigger] earlier[i], local_ip)
                    == Some(ip);
            assert(frames[i] == earlier[i]);
        }
        if echo_reply_source(frames.last(), local_ip) == Some(ip) {
            assert(frames[frames.len() - 1] == frames.last());
        }
        if replied(frames, local_ip, ip) {
            let i = choose|i: int|
                0 <= i < frames.len() && echo_reply_source(#[trigger] frames[i], local_ip)
                    == Some(ip);
            if i < earlier.len() {
                assert(frames[i] == earlier[i]);
            }
        }
    }
    match hit {
        Some(new) => {
            assert(after == before.push(new));
            assert(!before.contains(new));
            assert forall|ip: Ipv4| after.contains(ip) <==> before.contains(ip) || ip == new by {
                if before.contains(ip) {
                    let i = choose|i: int| 0 <= i < before.len() && before[i] == ip;
                    assert(after[i] == ip);
                }
                if ip == new {
                    assert(after[before.len() as int] == ip);
                }
            }
            assert forall|i: int, j: int|
                0 <= i < after.len() && 0 <= j < after.len() && i != j implies after[i]
                != after[j] by {
                if i < before.len() {
                    assert(before.contains(before[i]));
                }
                if j < before.len() {
                    assert(before.contains(before[j]));
                }
            }
        },
        None => {
            assert(after == before);
        },
    }
}

/// A reply from a target that has already answered changes nothing: the
/// target is not listed again.
pub proof fn lemma_repeated_reply_ignored(
    targets: Set<Ipv4>,
    local_ip: Ipv4,
    frames: Seq<Seq<u8>>,
    frame: Seq<u8>,
)
    requires
        echo_reply_source(frame, local_ip) is Some,
        reachable_after(targets, local_ip, frames).contains(
            echo_reply_source(frame, local_ip)->0,
        ),
    ensures
        reachable_after(targets, local_ip, frames.push(frame)) == reachable_after(
            targets,
            local_ip,
            frames,
        ),
{
    assert(frames.push(frame).drop_last() =~= frames);
}

/// Classifies the targets of a sweep from the frames that were received
/// while it ran, in the order of their arrival. A target is reachable if one
/// of the frames is its echo reply to `local_ip`, and unreachable otherwise;
/// every target is in exactly one of the two lists, once.
pub fn detect(local_ip: Ipv4, targets: &Vec<Ipv4>, frames: &Vec<Vec<u8>>) -> (found: Discovery)
    ensures
        found.reachable@ == reachable_after(targets@.to_set(), local_ip, views(frames@)),
        found.partitions(targets@.to_set()),
        ascending_ips(found.unreachable@),
        forall|ip: Ipv4|
            #![trigger found.reachable@.contains(ip)]
            found.reachable@.contains(ip) <==> targets@.contains(ip) && replied(
                views(frames@),
                local_ip,
                ip,
            ),
        forall|ip: Ipv4|
            #![trigger found.unreachable@.contains(ip)]
            found.unreachable@.contains(ip) <==> targets@.contains(ip) && !replied(
                views(frames@),
                local_ip,
                ip,
            ),
{
    let mut detector = Detector::new(local_ip, targets);
    let mut i: usize = 0;
    while i < frames.len()
        invariant
            i <= frames@.len(),
            detector.wf(),
            detector.local_ip() == local_ip,
            detector.targets() == targets@.to_set(),
            detector.reachable() == reachable_after(
                targets@.to_set(),
                local_ip,
                views(frames@.subrange(0, i as int)),
            ),
        decreases frames@.len() - i,
    {
        proof {
            let seen = views(frames@.subrange(0, i as int));
            let next = views(frames@.subrange(0, i + 1));
            assert(next.drop_last() =~= seen);
            assert(next.last() == frames@[i as int]@);
            assert(detector.pending() =~= targets@.to_set().difference(
                detector.reachable().to_set(),
            ));
        }
        detector.receive(frames[i].as_slice());
        i += 1;
    }
    proof {
        assert(frames@.subrange(0, i as int) =~= frames@);
        lemma_reachable_exactly_the_repliers(targets@.to_set(), local_ip, views(frames@));
        assert(detector.pending() =~= targets@.to_set().difference(
            detector.reachable().to_set(),
        ));
    }
    let found = detector.finish();
    proof {
        let all = targets@.to_set();
        let seen = views(frames@);
        assert forall|ip: Ipv4|
            found.reachable@.contains(ip) <==> targets@.contains(ip) && replied(
                seen,
                local_ip,
                ip,
            ) by {
            assert(all.contains(ip) <==> targets@.contains(ip));
        }
        assert forall|ip: Ipv4|
            found.unreachable@.contains(ip) <==> targets@.contains(ip) && !replied(
                seen,
                local_ip,
                ip,
            ) by {
            assert(all.contains(ip) <==> targets@.contains(ip));
            assert(found.unreachable@.to_set().contains(ip) <==> found.unreachable@.contains(ip));
            assert(found.reachable@.to_set().contains(ip) <==> found.reachable@.contains(ip));
        }
    }
    found
}

} // verus!
