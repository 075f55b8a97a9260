//! Choosing the network interface that a scan runs on.

use vstd::prelude::*;
use crate::addr::{Ipv4, Mac};
use crate::error::ScanError;

verus! {

/// What a scan needs to know of a network interface.
#[derive(Clone, Copy, Debug)]
pub struct Interface {
    /// The first address of the interface, where that is an IPv4 address.
    pub ip: Option<Ipv4>,
    /// The hardware address, where the interface has one.
    pub mac: Option<Mac>,
}

/// Whether the interface is bound to `local_ip`.
pub open spec fn bound_to(interface: Interface, local_ip: Ipv4) -> bool {
    interface.ip == Some(local_ip)
}

/// Whether position `at` holds the first interface that is bound to
/// `local_ip`.
pub open spec fn first_bound_at(interfaces: Seq<Interface>, local_ip: Ipv4, at: int) -> bool {
    &&& 0 <= at < interfaces.len()
    &&& bound_to(interfaces[at], local_ip)
    &&& forall|i: int| 0 <= i < at ==> !bound_to(interfaces[i], local_ip)
}

/// Picks the first interface that is bound to `local_ip` and returns its
/// position and hardware address. Fails where no interface is bound to that
/// address, or where the first that is has no hardware address.
pub fn find_interface(interfaces: &Vec<Interface>, local_ip: Ipv4) -> (found: Result<
    (usize, Mac),
    ScanError,
>)
    ensures
        found is Ok <==> exists|at: int|
            first_bound_at(interfaces@, local_ip, at) && interfaces@[at].mac is Some,
        match found {
            Ok((at, mac)) => first_bound_at(interfaces@, local_ip, at as int)
                && interfaces@[at as int].mac == Some(mac),
            Err(error) => error == ScanError::InterfaceNotFound,
        },
{
    let mut i: usize = 0;
    while i < interfaces.len()
        invariant
            i <= interfaces@.len(),
            forall|j: int| 0 <= j < i ==> !bound_to(interfaces@[j], local_ip),
        decreases interfaces@.len() - i,
    {
        let bound = match interfaces[i].ip {
            Some(ip) => ip == local_ip,
            None => false,
        };
        if bound {
            assert(first_bound_at(interfaces@, local_ip, i as int));
            assert forall|at: int| first_bound_at(interfaces@, local_ip, at) implies at == i by {
                if at < i {
                    assert(!bound_to(interfaces@[at], local_ip));
                } else if at > i {
                    assert(!bound_to(interfaces@[i as int], local_ip));
                }
            }
            return match interfaces[i].mac {
                Some(mac) => Ok((i, mac)),
                None => Err(ScanError::InterfaceNotFound),
            };
        }
        i += 1;
    }
    Err(ScanError::InterfaceNotFound)
}

} // verus!
