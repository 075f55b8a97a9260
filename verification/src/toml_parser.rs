//! The profile of a run: the interface to scan from, the gateway, what the
//! report shows, and the addresses and ports to scan, read from a TOML
//! document.

pub mod targets;

use vstd::prelude::*;
use vstd::string::*;
use crate::addr::{Ipv4, Mac};
use crate::text::{address_of_text, mac_of_text, parse_address, parse_mac};
use crate::toml_parser::targets::{lists, targets_of};

pub use crate::toml_parser::targets::parse_targets;

verus! {

/// A value of a TOML document.
pub enum Item {
    /// A string.
    Text(String),
    /// An integer.
    Integer(i64),
    /// A boolean.
    Flag(bool),
    /// An array.
    List(Vec<Item>),
    /// A table: its keys with their values.
    Table(Vec<(String, Item)>),
    /// A value of a kind that a profile has no use for.
    Other,
}

#[verifier::external_type_specification]
#[verifier::external_body]
pub struct ExTomlValue(toml::Value);

/// What a `toml::Value` holds.
pub uninterp spec fn item_of(value: toml::Value) -> Item;

/// The table that a text stands for as a TOML document, or `None` where the
/// text is no TOML document.
pub uninterp spec fn toml_document(text: Seq<char>) -> Option<Item>;

/// Tells the variants of a `toml::Value` apart and hands each on as an
/// `Item`: strings, integers and booleans with their value, arrays with their
/// elements in order, tables with their entries in the order in which the
/// table yields them, floats and dates as `Other`.
#[verifier::external_body]
fn convert(value: &toml::Value) -> (item: Item)
    ensures
        item == item_of(*value),
{
    match value {
        toml::Value::String(text) => Item::Text(text.clone()),
        toml::Value::Integer(number) => Item::Integer(*number),
        toml::Value::Boolean(flag) => Item::Flag(*flag),
        toml::Value::Array(list) => Item::List(list.iter().map(convert).collect()),
        toml::Value::Table(table) => Item::Table(
            table.iter().map(|(key, value)| (key.clone(), convert(value))).collect(),
        ),
        _ => Item::Other,
    }
}

/// Calls toml's `FromStr for Table`, which reads a whole document, and hands
/// the table on as a `toml::Value`. Whether it succeeds and what the table
/// holds depends on the text alone.
#[verifier::external_body]
fn parse_toml(text: &str) -> (value: Option<toml::Value>)
    ensures
        match value {
            Some(table) => toml_document(text@) == Some(item_of(table)),
            None => toml_document(text@) is None,
        },
{
    match text.parse::<toml::Table>() {
        Ok(table) => Some(toml::Value::Table(table)),
        Err(_) => None,
    }
}

/// Reads a text as a TOML document.
pub fn read_document(text: &str) -> (document: Option<Item>)
    ensures
        document == toml_document(text@),
{
    match parse_toml(text) {
        Some(value) => Some(convert(&value)),
        None => None,
    }
}

/// Why a text is not a profile.
#[derive(Clone, Copy, Debug, PartialEq, Eq, Structural)]
pub enum ProfileError {
    /// The text is no TOML document.
    Syntax,
    /// The document has no `profile` entry.
    NoProfile,
    /// The profile has no string at `interface.ip`.
    NoInterface,
    /// The profile has no string at `gateway.mac`.
    NoGateway,
    /// An entry of `show` is not a boolean.
    ShowRule,
    /// The interface address is no IPv4 address.
    BadInterface,
    /// The gateway address is no hardware address.
    BadGateway,
    /// The document has no array `target`.
    NoTargets,
    /// A target lacks `ip` or `ports`.
    BadTarget,
    /// The `ip` of a target names no addresses.
    BadAddress,
    /// The `ports` of a target name no ports.
    BadPorts,
}

/// Which of the three lists of ports the report shows.
#[derive(Clone, Copy, Debug, PartialEq, Eq, Structural)]
pub struct ShowRule {
    pub open: bool,
    pub closed: bool,
    pub filtered: bool,
}

impl Default for ShowRule {
    /// Open ports are shown, closed and filtered ones are not.
    fn default() -> (rule: ShowRule)
        ensures
            rule == (ShowRule { open: true, closed: false, filtered: false }),
    {
        ShowRule { open: true, closed: false, filtered: false }
    }
}

/// What a run is started with.
pub struct Profile {
    /// The local address of the interface to scan from.
    pub interface_ip: Ipv4,
    /// The hardware address of the gateway.
    pub gateway_mac: Mac,
    /// The addresses to scan, ascending, each once.
    pub ip_vec: Vec<Ipv4>,
    /// The ports to scan, ascending, each once.
    pub ports_vec: Vec<u16>,
    /// Whether the report shows open ports.
    pub show_open: bool,
    /// Whether the report shows closed ports.
    pub show_closed: bool,
    /// Whether the report shows filtered ports.
    pub show_filtered: bool,
}

impl Profile {
    pub fn new(
        interface_ip: Ipv4,
        gateway_mac: Mac,
        ip_vec: Vec<Ipv4>,
        ports_vec: Vec<u16>,
        show_open: bool,
        show_closed: bool,
        show_filtered: bool,
    ) -> (profile: Profile)
        ensures
            profile.interface_ip == interface_ip,
            profile.gateway_mac == gateway_mac,
            profile.ip_vec == ip_vec,
            profile.ports_vec == ports_vec,
            profile.show_open == show_open,
            profile.show_closed == show_closed,
            profile.show_filtered == show_filtered,
    {
        Profile {
            interface_ip,
            gateway_mac,
            ip_vec,
            ports_vec,
            show_open,
            show_closed,
            show_filtered,
        }
    }
}

/// The value of the first entry with the given key.
pub open spec fn entry(entries: Seq<(String, Item)>, key: Seq<char>) -> Option<Item>
    decreases entries.len(),
{
    if entries.len() == 0 {
        None
    } else if entries[0].0@ == key {
        Some(entries[0].1)
    } else {
        entry(entries.drop_first(), key)
    }
}

/// The value that a table holds under a key. A value that is no table holds
/// nothing.
pub open spec fn member(item: Item, key: Seq<char>) -> Option<Item> {
    match item {
        Item::Table(entries) => entry(entries@, key),
        _ => None,
    }
}

/// The string that stands where a table within a table holds it.
pub open spec fn nested_text(item: Item, outer: Seq<char>, inner: Seq<char>) -> Option<Seq<char>> {
    match member(item, outer) {
        Some(table) => match member(table, inner) {
            Some(Item::Text(text)) => Some(text@),
            _ => None,
        },
        None => None,
    }
}

/// Looks a key up in a table.
pub fn get<'a>(item: &'a Item, key: &str) -> (found: Option<&'a Item>)
    ensures
        match found {
            Some(value) => member(*item, key@) == Some(*value),
            None => member(*item, key@) is None,
        },
{
    let entries = match item {
        Item::Table(entries) => entries,
        _ => {
            return None;
        },
    };
    let wanted = String::from_str(key);
    let mut i: usize = 0;
    assert(entries@.subrange(0, entries@.len() as int) =~= entries@);
    while i < entries.len()
        invariant
            i <= entries@.len(),
            wanted@ == key@,
            member(*item, key@) == entry(entries@, key@),
            entry(entries@, key@) == entry(
                entries@.subrange(i as int, entries@.len() as int),
                key@,
            ),
        decreases entries@.len() - i,
    {
        let ghost rest = entries@.subrange(i as int, entries@.len() as int);
        assert(rest[0] == entries@[i as int]);
        assert(rest.drop_first() =~= entries@.subrange(i + 1, entries@.len() as int));
        if entries[i].0 == wanted {
            return Some(&entries[i].1);
        }
        i += 1;
    }
    None
}

/// Reads the string at `outer.inner`.
fn get_nested_text<'a>(item: &'a Item, outer: &str, inner: &str) -> (found: Option<&'a String>)
    ensures
        match found {
            Some(text) => nested_text(*item, outer@, inner@) == Some(text@),
            None => nested_text(*item, outer@, inner@) is None,
        },
{
    match get(item, outer) {
        Some(table) => match get(table, inner) {
            Some(Item::Text(text)) => Some(text),
            _ => None,
        },
        None => None,
    }
}

/// What a table of show rules says of one list: `false` where it says
/// nothing, and an error where it says something that is no boolean.
pub open spec fn show_flag(show: Item, key: Seq<char>) -> Result<bool, ProfileError> {
    match member(show, key) {
        None => Ok(false),
        Some(Item::Flag(flag)) => Ok(flag),
        Some(_) => Err(ProfileError::ShowRule),
    }
}

/// The show rules of a profile: the default where it has no `show` entry,
/// and else what that entry says of each list.
pub open spec fn show_rule_of(profile: Item) -> Result<ShowRule, ProfileError> {
    match member(profile, "show"@) {
        None => Ok(ShowRule { open: true, closed: false, filtered: false }),
        Some(show) => match show_flag(show, "open"@) {
            Err(error) => Err(error),
            Ok(open) => match show_flag(show, "closed"@) {
                Err(error) => Err(error),
                Ok(closed) => match show_flag(show, "filtered"@) {
                    Err(error) => Err(error),
                    Ok(filtered) => Ok(ShowRule { open, closed, filtered }),
                },
            },
        },
    }
}

/// The interface address, the gateway address and the show rules of a
/// document.
pub open spec fn settings_of(document: Item) -> Result<(Ipv4, Mac, ShowRule), ProfileError> {
    match member(document, "profile"@) {
        None => Err(ProfileError::NoProfile),
        Some(profile) => match nested_text(profile, "interface"@, "ip"@) {
            None => Err(ProfileError::NoInterface),
            Some(ip_text) => match nested_text(profile, "gateway"@, "mac"@) {
                None => Err(ProfileError::NoGateway),
                Some(mac_text) => match show_rule_of(profile) {
                    Err(error) => Err(error),
                    Ok(rule) => match address_of_text(ip_text) {
                        None => Err(ProfileError::BadInterface),
                        Some(ip) => match mac_of_text(mac_text) {
                            None => Err(ProfileError::BadGateway),
                            Some(mac) => Ok((ip, mac, rule)),
                        },
                    },
                },
            },
        },
    }
}

/// Reads one show rule.
fn read_show_flag(show: &Item, key: &str) -> (flag: Result<bool, ProfileError>)
    ensures
        flag == show_flag(*show, key@),
{
    match get(show, key) {
        None => Ok(false),
        Some(Item::Flag(flag)) => Ok(*flag),
        Some(_) => Err(ProfileError::ShowRule),
    }
}

/// Reads the show rules of a profile.
fn read_show_rule(profile: &Item) -> (rule: Result<ShowRule, ProfileError>)
    ensures
        rule == show_rule_of(*profile),
{
    let show = match get(profile, "show") {
        Some(show) => show,
        None => {
            return Ok(ShowRule::default());
        },
    };
    let open = match read_show_flag(show, "open") {
        Ok(flag) => flag,
        Err(error) => {
            return Err(error);
        },
    };
    let closed = match read_show_flag(show, "closed") {
        Ok(flag) => flag,
        Err(error) => {
            return Err(error);
        },
    };
    let filtered = match read_show_flag(show, "filtered") {
        Ok(flag) => flag,
        Err(error) => {
            return Err(error);
        },
    };
    Ok(ShowRule { open, closed, filtered })
}

/// Reads the interface address, the gateway address and the show rules of a
/// document.
pub fn parse_profile(document: &Item) -> (settings: Result<(Ipv4, Mac, ShowRule), ProfileError>)
    ensures
        settings == settings_of(*document),
{
    let profile = match get(document, "profile") {
        Some(profile) => profile,
        None => {
            return Err(ProfileError::NoProfile);
        },
    };
    let ip_text = match get_nested_text(profile, "interface", "ip") {
        Some(text) => text,
        None => {
            return Err(ProfileError::NoInterface);
        },
    };
    let mac_text = match get_nested_text(profile, "gateway", "mac") {
        Some(text) => text,
        None => {
            return Err(ProfileError::NoGateway);
        },
    };
    let rule = match read_show_rule(profile) {
        Ok(rule) => rule,
        Err(error) => {
            return Err(error);
        },
    };
    let ip = match parse_address(ip_text.as_str()) {
        Some(ip) => ip,
        None => {
            return Err(ProfileError::BadInterface);
        },
    };
    let mac = match parse_mac(mac_text.as_str()) {
        Some(mac) => mac,
        None => {
            return Err(ProfileError::BadGateway);
        },
    };
    Ok((ip, mac, rule))
}

/// The profile that a document holds: its settings and its targets. An
/// error of the settings comes before one of the targets.
pub open spec fn profile_of(document: Item) -> Result<
    ((Ipv4, Mac, ShowRule), (Set<Ipv4>, Set<u16>)),
    ProfileError,
> {
    match settings_of(document) {
        Err(error) => Err(error),
        Ok(settings) => match targets_of(document) {
            Err(error) => Err(error),
            Ok(targets) => Ok((settings, targets)),
        },
    }
}

/// Whether `profile` holds the given settings and targets.
pub open spec fn holds(
    profile: Profile,
    found: ((Ipv4, Mac, ShowRule), (Set<Ipv4>, Set<u16>)),
) -> bool {
    &&& profile.interface_ip == found.0.0
    &&& profile.gateway_mac == found.0.1
    &&& profile.show_open == found.0.2.open
    &&& profile.show_closed == found.0.2.closed
    &&& profile.show_filtered == found.0.2.filtered
    &&& lists(profile.ip_vec@, profile.ports_vec@, found.1)
}

/// Reads the profile that a document holds.
pub fn parse_document(document: &Item) -> (profile: Result<Profile, ProfileError>)
    ensures
        match profile {
            Ok(profile) => profile_of(*document) is Ok && holds(
                profile,
                profile_of(*document).unwrap(),
            ),
            Err(error) => profile_of(*document) == Err::<
                ((Ipv4, Mac, ShowRule), (Set<Ipv4>, Set<u16>)),
                ProfileError,
            >(error),
        },
{
    let (interface_ip, gateway_mac, show_rules) = match parse_profile(document) {
        Ok(settings) => settings,
        Err(error) => {
            return Err(error);
        },
    };
    let (ip_vec, ports_vec) = match parse_targets(document) {
        Ok(targets) => targets,
        Err(error) => {
            return Err(error);
        },
    };
    Ok(
        Profile::new(
            interface_ip,
            gateway_mac,
            ip_vec,
            ports_vec,
            show_rules.open,
            show_rules.closed,
            show_rules.filtered,
        ),
    )
}

/// Reads a profile from the text of a TOML document. Fails with `Syntax`
/// where the text is no TOML document, and else as the document's contents
/// say.
pub fn parse(text: &str) -> (profile: Result<Profile, ProfileError>)
    ensures
        match toml_document(text@) {
            None => profile == Err::<Profile, ProfileError>(ProfileError::Syntax),
            Some(document) => match profile {
                Ok(profile) => profile_of(document) is Ok && holds(
                    profile,
                    profile_of(document).unwrap(),
                ),
                Err(error) => profile_of(document) == Err::<
                    ((Ipv4, Mac, ShowRule), (Set<Ipv4>, Set<u16>)),
                    ProfileError,
                >(error),
            },
        },
{
    match read_document(text) {
        Some(document) => parse_document(&document),
        None => Err(ProfileError::Syntax),
    }
}

} // verus!
