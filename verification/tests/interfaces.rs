use netif::{
    get_network_interfaces, AddressRecord, IndexResolution, IpAddr, MacAddr, NetworkInterface,
    OsReport, Platform, SockAddr,
};

fn packet(name: &str, mac: [u8; 6], flags: u32) -> AddressRecord {
    let mut data = vec![17, 0, 0, 0, 2, 0, 0, 0, 1, 0, 0, 6];
    data.extend_from_slice(&mac);
    data.extend_from_slice(&[0, 0]);
    AddressRecord { name: name.to_string(), addr: Some(SockAddr { family: 17, data }), flags }
}

fn inet(name: &str, ip: [u8; 4], flags: u32) -> AddressRecord {
    let mut data = vec![2, 0, 0, 0];
    data.extend_from_slice(&ip);
    data.extend_from_slice(&[0; 8]);
    AddressRecord { name: name.to_string(), addr: Some(SockAddr { family: 2, data }), flags }
}

fn interface(name: &str, mac: Option<MacAddr>, ips: Option<Vec<IpAddr>>, flags: u32) -> NetworkInterface {
    NetworkInterface { name: name.to_string(), index: 0, mac, ips, flags }
}

fn posix(records: Option<Vec<AddressRecord>>) -> OsReport {
    OsReport::Posix { platform: Platform::Linux, records }
}

#[test]
fn mac_address_returns_the_known_address() {
    let iface = interface("eth0", Some(MacAddr(1, 2, 3, 4, 5, 6)), None, 0);
    assert_eq!(iface.mac_address(), MacAddr(1, 2, 3, 4, 5, 6));
}

#[test]
fn is_loopback_tests_the_loopback_bit() {
    assert!(interface("lo", None, None, 0x8).is_loopback());
    assert!(interface("lo", None, None, 0x49).is_loopback());
    assert!(interface("lo", None, None, 0xffff_ffff).is_loopback());
    assert!(!interface("eth0", None, None, 0).is_loopback());
    assert!(!interface("eth0", None, None, 0x1043).is_loopback());
    assert!(!interface("eth0", None, None, 0xffff_fff7).is_loopback());
}

#[test]
fn merge_replaces_mac_appends_ips_and_ors_flags() {
    let a = IpAddr::Ipv4Addr(10, 0, 0, 1);
    let b = IpAddr::Ipv4Addr(10, 0, 0, 2);
    let c = IpAddr::Ipv6Addr(0xfe80, 0, 0, 0, 0, 0, 0, 1);
    let mut old = NetworkInterface {
        name: "eth0".to_string(),
        index: 3,
        mac: Some(MacAddr(1, 1, 1, 1, 1, 1)),
        ips: Some(vec![a, b]),
        flags: 0x41,
    };
    let new = NetworkInterface {
        name: "other".to_string(),
        index: 9,
        mac: Some(MacAddr(2, 2, 2, 2, 2, 2)),
        ips: Some(vec![c, a]),
        flags: 0x1002,
    };
    old.merge(&new);
    assert_eq!(
        old,
        NetworkInterface {
            name: "eth0".to_string(),
            index: 3,
            mac: Some(MacAddr(2, 2, 2, 2, 2, 2)),
            ips: Some(vec![a, b, c, a]),
            flags: 0x1043,
        }
    );
}

#[test]
fn merge_keeps_what_the_new_record_lacks() {
    let a = IpAddr::Ipv4Addr(10, 0, 0, 1);
    let mut old = interface("eth0", Some(MacAddr(1, 1, 1, 1, 1, 1)), Some(vec![a]), 1);
    old.merge(&interface("eth0", None, None, 0));
    assert_eq!(old, interface("eth0", Some(MacAddr(1, 1, 1, 1, 1, 1)), Some(vec![a]), 1));

    // An entry without an address list does not take one over.
    let mut old = interface("eth0", None, None, 1);
    old.merge(&interface("eth0", None, Some(vec![a]), 2));
    assert_eq!(old, interface("eth0", None, None, 3));
}

#[test]
fn merge_is_idempotent_in_flags_and_mac() {
    let mut once = interface("eth0", None, None, 0x1003);
    let record = interface("eth0", Some(MacAddr(1, 2, 3, 4, 5, 6)), None, 0x40);
    once.merge(&record);
    let mut twice = once.clone();
    twice.merge(&record);
    assert_eq!(twice.flags, once.flags);
    assert_eq!(twice.flags, 0x1043);
    assert_eq!(twice.mac, once.mac);
    assert_eq!(twice.mac, Some(MacAddr(1, 2, 3, 4, 5, 6)));

    let mut same = record.clone();
    same.merge(&record);
    assert_eq!(same.flags, record.flags);
    assert_eq!(same.mac, record.mac);
}

#[test]
fn merge_keeps_arrival_order_of_ips() {
    let ifaces = get_network_interfaces(&posix(Some(vec![
        inet("eth0", [10, 0, 0, 2], 1),
        inet("eth0", [10, 0, 0, 1], 1),
    ])));
    assert_eq!(
        ifaces,
        vec![interface(
            "eth0",
            None,
            Some(vec![IpAddr::Ipv4Addr(10, 0, 0, 2), IpAddr::Ipv4Addr(10, 0, 0, 1)]),
            1
        )]
    );
}

#[test]
fn duplicate_ips_are_kept() {
    let ifaces = get_network_interfaces(&posix(Some(vec![
        inet("eth0", [10, 0, 0, 1], 1),
        inet("eth0", [10, 0, 0, 1], 1),
    ])));
    assert_eq!(
        ifaces[0].ips,
        Some(vec![IpAddr::Ipv4Addr(10, 0, 0, 1), IpAddr::Ipv4Addr(10, 0, 0, 1)])
    );
}

#[test]
fn failed_retrieval_lists_no_interface() {
    assert_eq!(get_network_interfaces(&posix(None)), vec![]);
    assert_eq!(
        get_network_interfaces(&OsReport::Posix { platform: Platform::MacOs, records: None }),
        vec![]
    );
}

#[test]
fn empty_list_lists_no_interface() {
    assert_eq!(get_network_interfaces(&posix(Some(vec![]))), vec![]);
}

#[test]
fn records_merge_by_name_in_first_seen_order() {
    let ifaces = get_network_interfaces(&posix(Some(vec![
        inet("lo", [127, 0, 0, 1], 0x49),
        inet("eth0", [192, 168, 1, 2], 0x1043),
        packet("wlan0", [6, 5, 4, 3, 2, 1], 0x1003),
        inet("lo", [127, 0, 0, 2], 0x49),
        packet("eth0", [1, 2, 3, 4, 5, 6], 0x1043),
        inet("eth0", [192, 168, 1, 3], 0x1000_0000),
        AddressRecord { name: "tun0".to_string(), addr: None, flags: 0x10d1 },
        inet("wlan0", [172, 16, 0, 9], 0x1003),
    ])));
    assert_eq!(
        ifaces,
        vec![
            interface(
                "lo",
                None,
                Some(vec![IpAddr::Ipv4Addr(127, 0, 0, 1), IpAddr::Ipv4Addr(127, 0, 0, 2)]),
                0x49
            ),
            interface(
                "eth0",
                Some(MacAddr(1, 2, 3, 4, 5, 6)),
                Some(vec![IpAddr::Ipv4Addr(192, 168, 1, 2), IpAddr::Ipv4Addr(192, 168, 1, 3)]),
                0x1000_1043
            ),
            // The first record of wlan0 carried no IP address, so none is taken over.
            interface("wlan0", Some(MacAddr(6, 5, 4, 3, 2, 1)), None, 0x1003),
            interface("tun0", None, None, 0x10d1),
        ]
    );
}

#[test]
fn later_hardware_address_wins() {
    let ifaces = get_network_interfaces(&posix(Some(vec![
        packet("eth0", [1, 1, 1, 1, 1, 1], 0),
        packet("eth0", [2, 2, 2, 2, 2, 2], 0),
    ])));
    assert_eq!(ifaces, vec![interface("eth0", Some(MacAddr(2, 2, 2, 2, 2, 2)), None, 0)]);
}

#[test]
fn names_are_matched_exactly() {
    let ifaces = get_network_interfaces(&posix(Some(vec![
        inet("eth0", [10, 0, 0, 1], 0),
        inet("eth", [10, 0, 0, 2], 0),
        inet("eth00", [10, 0, 0, 3], 0),
        inet("Eth0", [10, 0, 0, 4], 0),
    ])));
    let names: Vec<&str> = ifaces.iter().map(|i| i.name.as_str()).collect();
    assert_eq!(names, vec!["eth0", "eth", "eth00", "Eth0"]);
}

#[test]
fn undecodable_record_still_contributes_name_and_flags() {
    let odd = AddressRecord {
        name: "eth0".to_string(),
        addr: Some(SockAddr { family: 99, data: vec![0; 16] }),
        flags: 4,
    };
    let ifaces = get_network_interfaces(&posix(Some(vec![inet("eth0", [10, 0, 0, 1], 1), odd])));
    assert_eq!(ifaces, vec![interface("eth0", None, Some(vec![IpAddr::Ipv4Addr(10, 0, 0, 1)]), 5)]);
}

#[test]
fn index_is_resolved_once_for_each_interface_after_merging() {
    let merged = get_network_interfaces(&posix(Some(vec![
        inet("eth0", [10, 0, 0, 1], 1),
        inet("lo", [127, 0, 0, 1], 8),
        inet("eth0", [10, 0, 0, 2], 2),
    ])));
    assert!(merged.iter().all(|i| i.index == 0));

    let mut asked: Vec<String> = Vec::new();
    let mut pass = IndexResolution::begin(merged);
    loop {
        let name = match pass.pending() {
            Some(name) => name.clone(),
            None => break,
        };
        let index = if name == "eth0" { 2 } else { 1 };
        asked.push(name);
        pass.resolve(index);
    }
    let ifaces = pass.finish();

    assert_eq!(asked, vec!["eth0".to_string(), "lo".to_string()]);
    assert_eq!(
        ifaces,
        vec![
            NetworkInterface {
                name: "eth0".to_string(),
                index: 2,
                mac: None,
                ips: Some(vec![IpAddr::Ipv4Addr(10, 0, 0, 1), IpAddr::Ipv4Addr(10, 0, 0, 2)]),
                flags: 3,
            },
            NetworkInterface {
                name: "lo".to_string(),
                index: 1,
                mac: None,
                ips: Some(vec![IpAddr::Ipv4Addr(127, 0, 0, 1)]),
                flags: 8,
            },
        ]
    );
}

#[test]
fn resolution_pass_over_nothing_is_done_at_once() {
    let mut pass = IndexResolution::begin(Vec::new());
    assert_eq!(pass.pending(), None);
    pass.resolve(7);
    assert_eq!(pass.pending(), None);
    assert_eq!(pass.finish(), vec![]);
}

#[test]
fn resolution_pass_ignores_an_index_that_nobody_waits_for() {
    let mut pass = IndexResolution::begin(vec![interface("eth0", None, None, 0)]);
    assert_eq!(pass.pending().map(|n| n.as_str()), Some("eth0"));
    pass.resolve(4);
    assert_eq!(pass.pending(), None);
    pass.resolve(5);
    let ifaces = pass.finish();
    assert_eq!(ifaces.len(), 1);
    assert_eq!(ifaces[0].index, 4);
}

#[test]
fn unfinished_pass_leaves_later_indices_unresolved() {
    let mut pass = IndexResolution::begin(vec![
        interface("a", None, None, 0),
        interface("b", None, None, 0),
    ]);
    pass.resolve(11);
    assert_eq!(pass.pending().map(|n| n.as_str()), Some("b"));
    let ifaces = pass.finish();
    assert_eq!(ifaces[0].index, 11);
    assert_eq!(ifaces[1].index, 0);
}
