use netprobe::addr::{Ipv4, SocketV4};
use netprobe::cli::get_args;
use netprobe::display::{decimal, display, get_info_tree, ip_string, name_of, TargetStates};

fn socket(d: u8, port: u16) -> SocketV4 {
    SocketV4::new(Ipv4::new(10, 0, 0, d), port)
}

#[test]
fn new_states_are_empty() {
    let states = TargetStates::new();
    assert!(states.open.is_empty());
    assert!(states.closed.is_empty());
    assert!(states.filtered.is_empty());
}

fn entries(
    tree: &std::collections::BTreeMap<u64, TargetStates>,
) -> Vec<(Ipv4, &TargetStates)> {
    tree.iter().map(|(key, states)| (Ipv4::from_key(*key), states)).collect()
}

#[test]
fn sockets_are_grouped_by_address() {
    let open = vec![socket(7, 443), socket(5, 80), socket(7, 22)];
    let closed = vec![socket(5, 81), socket(9, 1)];
    let filtered = vec![socket(7, 8080), socket(5, 12345)];
    let tree = get_info_tree(&open, &closed, &filtered);
    let tree = entries(&tree);
    assert_eq!(tree.len(), 3);
    assert_eq!(tree[0].0, Ipv4::new(10, 0, 0, 5));
    assert_eq!(tree[0].1.open, vec![(80, "http")]);
    assert_eq!(tree[0].1.closed, vec![(81, "unKnown")]);
    assert_eq!(tree[0].1.filtered, vec![(12345, "unKnown")]);
    assert_eq!(tree[1].0, Ipv4::new(10, 0, 0, 7));
    assert_eq!(tree[1].1.open, vec![(443, "https"), (22, "ssh")]);
    assert!(tree[1].1.closed.is_empty());
    assert_eq!(tree[1].1.filtered, vec![(8080, "http-proxy")]);
    assert_eq!(tree[2].0, Ipv4::new(10, 0, 0, 9));
    assert!(tree[2].1.open.is_empty());
    assert_eq!(tree[2].1.closed, vec![(1, "unKnown")]);
    assert!(tree[2].1.filtered.is_empty());
}

#[test]
fn tree_is_keyed_by_the_value_of_the_address() {
    let open = vec![socket(7, 443), socket(5, 80)];
    let tree = get_info_tree(&open, &vec![], &vec![socket(7, 1)]);
    assert_eq!(tree.len(), 2);
    assert_eq!(tree[&0x0a000005].open, vec![(80, "http")]);
    assert_eq!(tree[&0x0a000007].open, vec![(443, "https")]);
    assert_eq!(tree[&0x0a000007].filtered, vec![(1, "unKnown")]);
    assert!(!tree.contains_key(&0x0a000006));
}

#[test]
fn first_port_of_an_address_is_kept() {
    let tree = get_info_tree(&vec![socket(5, 80)], &vec![], &vec![]);
    assert_eq!(tree[&socket(5, 80).ip.key()].open, vec![(80, "http")]);
}

#[test]
fn grouping_of_nothing_is_empty() {
    assert!(get_info_tree(&vec![], &vec![], &vec![]).is_empty());
}

#[test]
fn addresses_of_the_tree_ascend_by_value() {
    let open = vec![
        SocketV4::new(Ipv4::new(10, 0, 1, 0), 1),
        SocketV4::new(Ipv4::new(10, 0, 0, 255), 2),
        SocketV4::new(Ipv4::new(9, 255, 255, 255), 3),
        SocketV4::new(Ipv4::new(200, 0, 0, 0), 4),
    ];
    let tree = get_info_tree(&open, &vec![], &vec![]);
    let order: Vec<Ipv4> = entries(&tree).iter().map(|e| e.0).collect();
    assert_eq!(
        order,
        vec![
            Ipv4::new(9, 255, 255, 255),
            Ipv4::new(10, 0, 0, 255),
            Ipv4::new(10, 0, 1, 0),
            Ipv4::new(200, 0, 0, 0)
        ]
    );
}

#[test]
fn report_text_is_exact() {
    let open = vec![socket(5, 80), socket(5, 22)];
    let closed = vec![socket(5, 81)];
    let filtered = vec![socket(6, 9)];
    let (text, tree) = display(&open, &closed, &filtered, true, false, true);
    assert_eq!(tree.len(), 2);
    let expected = "\
[summary]
total = 4
open = 2
closed = 1
filtered = 1

[[target]]
ip = \"10.0.0.5\"

open = [
    { port = 80, name = \"http\" },
    { port = 22, name = \"ssh\" },
]

filtered = [
]

[[target]]
ip = \"10.0.0.6\"

open = [
]

filtered = [
    { port = 9, name = \"unKnown\" },
]

";
    assert_eq!(text, expected);
}

#[test]
fn report_shows_only_what_is_asked_for() {
    let open = vec![socket(5, 80)];
    let closed = vec![socket(5, 81)];
    let (text, _) = display(&open, &closed, &vec![], false, true, false);
    assert_eq!(
        text,
        "[summary]\ntotal = 2\nopen = 1\nclosed = 1\nfiltered = 0\n\n[[target]]\nip = \"10.0.0.5\"\n\n\nclosed = [\n    { port = 81, name = \"unKnown\" },\n]\n\n"
    );
    let (text, _) = display(&open, &closed, &vec![], false, false, false);
    assert_eq!(
        text,
        "[summary]\ntotal = 2\nopen = 1\nclosed = 1\nfiltered = 0\n\n[[target]]\nip = \"10.0.0.5\"\n\n\n\n"
    );
    let (text, tree) = display(&vec![], &vec![], &vec![], true, true, true);
    assert_eq!(text, "[summary]\ntotal = 0\nopen = 0\nclosed = 0\nfiltered = 0\n\n");
    assert!(tree.is_empty());
}

#[test]
fn numbers_and_addresses_are_written_in_decimal() {
    assert_eq!(decimal(0), "0");
    assert_eq!(decimal(7), "7");
    assert_eq!(decimal(10), "10");
    assert_eq!(decimal(65535), "65535");
    assert_eq!(decimal(1234567890), "1234567890");
    assert_eq!(decimal(u128::MAX), u128::MAX.to_string());
    assert_eq!(ip_string(Ipv4::new(0, 0, 0, 0)), "0.0.0.0");
    assert_eq!(ip_string(Ipv4::new(192, 168, 1, 254)), "192.168.1.254");
    assert_eq!(name_of(3306), "mysql");
    assert_eq!(name_of(4), "unKnown");
}

#[test]
fn output_path_defaults() {
    assert_eq!(
        get_args("scan.toml".to_string(), None),
        ("scan.toml".to_string(), "./output.toml".to_string())
    );
    assert_eq!(
        get_args("scan.toml".to_string(), Some("out/report.toml".to_string())),
        ("scan.toml".to_string(), "out/report.toml".to_string())
    );
    assert_eq!(
        get_args(String::new(), Some(String::new())),
        (String::new(), String::new())
    );
}
