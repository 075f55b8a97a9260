//! Protocol constants shared by the frame builders and the receivers.

use vstd::prelude::*;

verus! {

/// Length of an Ethernet II header: two hardware addresses and the type.
pub const ETHERNET_HEADER_LEN: usize = 14;

/// Length of an IPv4 header without options.
pub const IPV4_HEADER_LEN: usize = 20;

/// Length of an ICMP echo request without payload.
pub const ICMP_ECHO_REQUEST_LEN: usize = 8;

/// Length of a TCP header with the twelve option bytes of a probe.
pub const TCP_SEGMENT_LEN: usize = 32;

/// Length of a whole echo-request frame.
pub const ECHO_FRAME_LEN: usize = 42;

/// Length of a whole TCP probe frame.
pub const TCP_FRAME_LEN: usize = 66;

/// IPv4 protocol number of ICMP.
pub const PROTOCOL_ICMP: u8 = 1;

/// ICMP message type of an echo reply.
pub const ECHO_REPLY: u8 = 0;

/// IPv4 protocol number of TCP.
pub const PROTOCOL_TCP: u8 = 6;

/// The pause after each probe, in microseconds.
pub const PACING_DELAY: u64 = 1;

/// The time that late replies are waited for after the last probe, in
/// microseconds.
pub const GRACE_PERIOD: u64 = 100_000;

/// The lowest local port that a probe is sent from.
pub const FIRST_SOURCE_PORT: u16 = 20000;

/// Time to live of every probe.
pub const PROBE_TTL: u8 = 128;

/// Receive window that a probe advertises.
pub const PROBE_WINDOW: u16 = 64240;

/// Maximum segment size that a probe advertises.
pub const PROBE_MSS: u16 = 1460;

/// Window scale shift that a probe advertises.
pub const PROBE_WINDOW_SCALE: u8 = 8;

/// The service that is commonly found at a TCP port, for the ports that
/// this table knows.
pub open spec fn port_name(port: u16) -> Option<&'static str> {
    match port {
        20 => Some("ftp-data"),
        21 => Some("ftp"),
        22 => Some("ssh"),
        23 => Some("telnet"),
        25 => Some("smtp"),
        53 => Some("domain"),
        80 => Some("http"),
        110 => Some("pop3"),
        111 => Some("rpcbind"),
        135 => Some("msrpc"),
        139 => Some("netbios-ssn"),
        143 => Some("imap"),
        443 => Some("https"),
        445 => Some("microsoft-ds"),
        993 => Some("imaps"),
        995 => Some("pop3s"),
        1433 => Some("ms-sql-s"),
        1521 => Some("oracle"),
        3306 => Some("mysql"),
        3389 => Some("ms-wbt-server"),
        5432 => Some("postgresql"),
        5900 => Some("vnc"),
        6379 => Some("redis"),
        8080 => Some("http-proxy"),
        8443 => Some("https-alt"),
        27017 => Some("mongodb"),
        _ => None,
    }
}

/// The ports that have a name in the table, in ascending order.
pub open spec fn known_ports() -> Seq<u16> {
    seq![
        20u16, 21u16, 22u16, 23u16, 25u16, 53u16, 80u16, 110u16, 111u16, 135u16, 139u16,
        143u16, 443u16, 445u16, 993u16, 995u16, 1433u16, 1521u16, 3306u16, 3389u16, 5432u16,
        5900u16, 6379u16, 8080u16, 8443u16, 27017u16,
    ]
}

/// The known ports ascend, and they are exactly the ports that have a name.
pub proof fn lemma_known_ports_are_the_named()
    ensures
        forall|i: int, j: int|
            0 <= i < j < known_ports().len() ==> known_ports()[i] < known_ports()[j],
        forall|port: u16| known_ports().contains(port) <==> port_name(port) is Some,
{
    let known = known_ports();
    assert forall|port: u16| port_name(port) is Some implies known.contains(port) by {
        assert(exists|at: int| 0 <= at < known.len() && known[at] == port);
    }
}

/// Looks a port up in the table of service names.
pub fn get_port_name(port: u16) -> (name: Option<&'static str>)
    ensures
        name == port_name(port),
{
    match port {
        20 => Some("ftp-data"),
        21 => Some("ftp"),
        22 => Some("ssh"),
        23 => Some("telnet"),
        25 => Some("smtp"),
        53 => Some("domain"),
        80 => Some("http"),
        110 => Some("pop3"),
        111 => Some("rpcbind"),
        135 => Some("msrpc"),
        139 => Some("netbios-ssn"),
        143 => Some("imap"),
        443 => Some("https"),
        445 => Some("microsoft-ds"),
        993 => Some("imaps"),
        995 => Some("pop3s"),
        1433 => Some("ms-sql-s"),
        1521 => Some("oracle"),
        3306 => Some("mysql"),
        3389 => Some("ms-wbt-server"),
        5432 => Some("postgresql"),
        5900 => Some("vnc"),
        6379 => Some("redis"),
        8080 => Some("http-proxy"),
        8443 => Some("https-alt"),
        27017 => Some("mongodb"),
        _ => None,
    }
}

/// The ports that the word "known" stands for in a profile.
pub fn get_ports_known() -> (ports: Vec<u16>)
    ensures
        ports@ == known_ports(),
{
    let ports: Vec<u16> = vec![
        20, 21, 22, 23, 25, 53, 80, 110, 111, 135, 139, 143, 443, 445, 993, 995, 1433, 1521,
        3306, 3389, 5432, 5900, 6379, 8080, 8443, 27017,
    ];
    assert(ports@ =~= known_ports());
    ports
}

} // verus!
