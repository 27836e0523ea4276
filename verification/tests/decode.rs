use netif::{sockaddr_to_network_addr, IpAddr, MacAddr, Platform, SockAddr};

fn packet_record(mac: [u8; 6]) -> SockAddr {
    // family, protocol, interface index, hardware type, packet type, address length
    let mut data = vec![17, 0, 0, 0, 2, 0, 0, 0, 1, 0, 0, 6];
    data.extend_from_slice(&mac);
    data.extend_from_slice(&[0, 0]);
    SockAddr { family: 17, data }
}

fn link_record(name: &str, mac: [u8; 6]) -> SockAddr {
    let mut data = vec![0, 18, 1, 0, 6, name.len() as u8, 6, 0];
    data.extend_from_slice(name.as_bytes());
    data.extend_from_slice(&mac);
    data[0] = data.len() as u8;
    SockAddr { family: 18, data }
}

fn inet_record(ip: [u8; 4]) -> SockAddr {
    let mut data = vec![2, 0, 0x1f, 0x90];
    data.extend_from_slice(&ip);
    data.extend_from_slice(&[0; 8]);
    SockAddr { family: 2, data }
}

fn inet6_record(family: i32, ip: [u8; 16]) -> SockAddr {
    let mut data = vec![family as u8, 0, 0, 80, 0, 0, 0, 0];
    data.extend_from_slice(&ip);
    data.extend_from_slice(&[0; 4]);
    SockAddr { family, data }
}

#[test]
fn absent_record_decodes_to_nothing() {
    assert_eq!(sockaddr_to_network_addr(Platform::Linux, None), (None, None));
    assert_eq!(sockaddr_to_network_addr(Platform::FreeBsd, None), (None, None));
    assert_eq!(sockaddr_to_network_addr(Platform::MacOs, None), (None, None));
}

#[test]
fn linux_packet_record_decodes_to_hardware_address() {
    let sa = packet_record([0x00, 0x1b, 0x21, 0x3a, 0x4f, 0xfe]);
    assert_eq!(
        sockaddr_to_network_addr(Platform::Linux, Some(&sa)),
        (Some(MacAddr(0x00, 0x1b, 0x21, 0x3a, 0x4f, 0xfe)), None)
    );
}

#[test]
fn bsd_link_record_decodes_hardware_address_after_the_name() {
    let sa = link_record("en0", [1, 2, 3, 4, 5, 6]);
    assert_eq!(
        sockaddr_to_network_addr(Platform::MacOs, Some(&sa)),
        (Some(MacAddr(1, 2, 3, 4, 5, 6)), None)
    );
    let sa = link_record("bridge0", [0xaa, 0xbb, 0xcc, 0xdd, 0xee, 0xff]);
    assert_eq!(
        sockaddr_to_network_addr(Platform::FreeBsd, Some(&sa)),
        (Some(MacAddr(0xaa, 0xbb, 0xcc, 0xdd, 0xee, 0xff)), None)
    );
}

#[test]
fn each_platform_has_its_own_link_layer_layout() {
    // A Linux packet record is no link-layer record on macOS, where 17 is another family.
    let sa = packet_record([1, 2, 3, 4, 5, 6]);
    assert_eq!(sockaddr_to_network_addr(Platform::MacOs, Some(&sa)), (None, None));
    // A BSD link record is no link-layer record on Linux.
    let sa = link_record("en0", [1, 2, 3, 4, 5, 6]);
    assert_eq!(sockaddr_to_network_addr(Platform::Linux, Some(&sa)), (None, None));
}

#[test]
fn ipv4_record_decodes_to_ip() {
    let sa = inet_record([192, 168, 1, 20]);
    for platform in [Platform::Linux, Platform::FreeBsd, Platform::MacOs] {
        assert_eq!(
            sockaddr_to_network_addr(platform, Some(&sa)),
            (None, Some(IpAddr::Ipv4Addr(192, 168, 1, 20)))
        );
    }
}

#[test]
fn ipv6_record_decodes_to_ip_with_the_family_of_the_platform() {
    let ip = [0xfe, 0x80, 0, 0, 0, 0, 0, 0, 0x02, 0x1b, 0x21, 0xff, 0xfe, 0x3a, 0x4f, 0xfe];
    let expected = IpAddr::Ipv6Addr(0xfe80, 0, 0, 0, 0x021b, 0x21ff, 0xfe3a, 0x4ffe);
    assert_eq!(
        sockaddr_to_network_addr(Platform::Linux, Some(&inet6_record(10, ip))),
        (None, Some(expected))
    );
    assert_eq!(
        sockaddr_to_network_addr(Platform::FreeBsd, Some(&inet6_record(28, ip))),
        (None, Some(expected))
    );
    assert_eq!(
        sockaddr_to_network_addr(Platform::MacOs, Some(&inet6_record(30, ip))),
        (None, Some(expected))
    );
    assert_eq!(sockaddr_to_network_addr(Platform::Linux, Some(&inet6_record(30, ip))), (None, None));
    assert_eq!(sockaddr_to_network_addr(Platform::MacOs, Some(&inet6_record(10, ip))), (None, None));
}

#[test]
fn unsupported_family_decodes_to_nothing() {
    let sa = SockAddr { family: 1, data: vec![1, 0, 47, 116, 109, 112, 0, 0, 0, 0, 0, 0, 0, 0, 0, 0] };
    assert_eq!(sockaddr_to_network_addr(Platform::Linux, Some(&sa)), (None, None));
}

#[test]
fn short_records_decode_to_nothing() {
    let mut sa = inet_record([10, 0, 0, 1]);
    sa.data.truncate(15);
    assert_eq!(sockaddr_to_network_addr(Platform::Linux, Some(&sa)), (None, None));

    let mut sa = inet6_record(10, [1; 16]);
    sa.data.truncate(27);
    assert_eq!(sockaddr_to_network_addr(Platform::Linux, Some(&sa)), (None, None));

    let mut sa = packet_record([1, 2, 3, 4, 5, 6]);
    sa.data.truncate(17);
    assert_eq!(sockaddr_to_network_addr(Platform::Linux, Some(&sa)), (None, None));
    sa.data.push(6);
    assert_eq!(
        sockaddr_to_network_addr(Platform::Linux, Some(&sa)),
        (Some(MacAddr(1, 2, 3, 4, 5, 6)), None)
    );

    let mut sa = link_record("en0", [1, 2, 3, 4, 5, 6]);
    sa.data.truncate(16);
    assert_eq!(sockaddr_to_network_addr(Platform::MacOs, Some(&sa)), (None, None));
    sa.data.truncate(5);
    assert_eq!(sockaddr_to_network_addr(Platform::MacOs, Some(&sa)), (None, None));
    sa.data.clear();
    assert_eq!(sockaddr_to_network_addr(Platform::MacOs, Some(&sa)), (None, None));
    assert_eq!(sockaddr_to_network_addr(Platform::Linux, Some(&SockAddr { family: 17, data: vec![] })), (None, None));
}

#[test]
fn platform_family_tags() {
    assert_eq!(Platform::Linux.link_family_tag(), 17);
    assert_eq!(Platform::FreeBsd.link_family_tag(), 18);
    assert_eq!(Platform::MacOs.link_family_tag(), 18);
    assert_eq!(Platform::Linux.inet6_family_tag(), 10);
    assert_eq!(Platform::FreeBsd.inet6_family_tag(), 28);
    assert_eq!(Platform::MacOs.inet6_family_tag(), 30);
}
