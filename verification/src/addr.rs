//! Decoding one raw socket address of the operating system into a hardware
//! address or an IP address.

use crate::mac::MacAddr;
use vstd::prelude::*;

verus! {

/// An IP address, version 4 or 6.
#[derive(PartialEq, Eq, Clone, Copy, Debug, Structural)]
pub enum IpAddr {
    /// The four bytes of an IPv4 address, in the order in which they are written.
    Ipv4Addr(u8, u8, u8, u8),
    /// The eight 16-bit groups of an IPv6 address, in the order in which they are written.
    Ipv6Addr(u16, u16, u16, u16, u16, u16, u16, u16),
}

/// The POSIX platforms whose socket addresses can be decoded. Each has its own
/// address-family tags and its own layout of the link-layer record.
#[derive(PartialEq, Eq, Clone, Copy, Debug, Structural)]
pub enum Platform {
    /// Linux, where the link layer is the packet-socket family.
    Linux,
    /// FreeBSD, where the link layer is the link-socket family.
    FreeBsd,
    /// macOS, where the link layer is the link-socket family.
    MacOs,
}

/// The address-family tag of IPv4, the same on every platform.
pub const AF_INET: i32 = 2;

/// The address-family tag of packet sockets on Linux.
pub const AF_PACKET: i32 = 17;

/// The address-family tag of link sockets on FreeBSD and macOS.
pub const AF_LINK: i32 = 18;

/// The address-family tag of IPv6 on Linux.
pub const AF_INET6_LINUX: i32 = 10;

/// The address-family tag of IPv6 on FreeBSD.
pub const AF_INET6_FREEBSD: i32 = 28;

/// The address-family tag of IPv6 on macOS.
pub const AF_INET6_MACOS: i32 = 30;

/// Size of the IPv4 socket address structure.
pub const INET_SIZE: usize = 16;

/// Size of the IPv6 socket address structure.
pub const INET6_SIZE: usize = 28;

/// Where the four address bytes lie in an IPv4 socket address.
pub const INET_ADDR_OFFSET: usize = 4;

/// Where the sixteen address bytes lie in an IPv6 socket address.
pub const INET6_ADDR_OFFSET: usize = 8;

/// Where the hardware field lies in a Linux packet-socket address.
pub const PACKET_ADDR_OFFSET: usize = 12;

/// Where the length of the interface name lies in a BSD link-socket address.
pub const LINK_NAME_LEN_OFFSET: usize = 5;

/// Where the data field lies in a BSD link-socket address: the interface name
/// comes first in it, and the hardware address follows the name.
pub const LINK_DATA_OFFSET: usize = 8;

impl Platform {
    /// The tag of the link-layer family: packet sockets on Linux, link sockets
    /// on FreeBSD and macOS.
    pub open spec fn link_family(self) -> i32 {
        match self {
            Platform::Linux => AF_PACKET,
            Platform::FreeBsd => AF_LINK,
            Platform::MacOs => AF_LINK,
        }
    }

    /// The tag of the IPv6 family.
    pub open spec fn inet6_family(self) -> i32 {
        match self {
            Platform::Linux => AF_INET6_LINUX,
            Platform::FreeBsd => AF_INET6_FREEBSD,
            Platform::MacOs => AF_INET6_MACOS,
        }
    }

    /// Where the six bytes of the hardware address start in a link-layer record
    /// with the bytes `data`; `None` where the record is too short to say.
    pub open spec fn hardware_offset(self, data: Seq<u8>) -> Option<int> {
        match self {
            Platform::Linux => Some(PACKET_ADDR_OFFSET as int),
            _ => if data.len() > LINK_NAME_LEN_OFFSET {
                Some(LINK_DATA_OFFSET + data[LINK_NAME_LEN_OFFSET as int])
            } else {
                None
            },
        }
    }

    /// Computes `link_family`.
    pub fn link_family_tag(self) -> (tag: i32)
        ensures
            tag == self.link_family(),
    {
        match self {
            Platform::Linux => AF_PACKET,
            Platform::FreeBsd => AF_LINK,
            Platform::MacOs => AF_LINK,
        }
    }

    /// Computes `inet6_family`.
    pub fn inet6_family_tag(self) -> (tag: i32)
        ensures
            tag == self.inet6_family(),
    {
        match self {
            Platform::Linux => AF_INET6_LINUX,
            Platform::FreeBsd => AF_INET6_FREEBSD,
            Platform::MacOs => AF_INET6_MACOS,
        }
    }
}

/// One raw socket address, copied out of the operating system's memory.
#[derive(Clone, PartialEq, Eq, Debug)]
pub struct SockAddr {
    /// The address-family tag of the record.
    pub family: i32,
    /// The bytes of the record as the operating system laid them out, from the
    /// first byte of the structure on.
    pub data: Vec<u8>,
}

/// What a `SockAddr` holds.
pub struct SockAddrView {
    pub family: i32,
    pub data: Seq<u8>,
}

impl View for SockAddr {
    type V = SockAddrView;

    open spec fn view(&self) -> SockAddrView {
        SockAddrView { family: self.family, data: self.data@ }
    }
}

impl DeepView for SockAddr {
    type V = SockAddrView;

    open spec fn deep_view(&self) -> SockAddrView {
        self@
    }
}

/// The view of a record that may be absent.
pub open spec fn sockaddr_view(sa: Option<&SockAddr>) -> Option<SockAddrView> {
    match sa {
        Some(sa) => Some(sa@),
        None => None,
    }
}

/// The 16-bit group that the two bytes at `at` write, most significant byte first.
pub open spec fn group_at(data: Seq<u8>, at: int) -> u16 {
    (data[at] * 256 + data[at + 1]) as u16
}

/// The hardware address of a link-layer record: the six bytes at the
/// platform's offset, where the record holds them all.
pub open spec fn decode_link(platform: Platform, data: Seq<u8>) -> Option<MacAddr> {
    match platform.hardware_offset(data) {
        Some(at) => if at + 6 <= data.len() {
            Some(
                MacAddr(
                    data[at],
                    data[at + 1],
                    data[at + 2],
                    data[at + 3],
                    data[at + 4],
                    data[at + 5],
                ),
            )
        } else {
            None
        },
        None => None,
    }
}

/// The IP address of a record of the family `family`: of an IPv4 or IPv6 socket
/// address that is not shorter than its structure. Any other record has none.
pub open spec fn decode_ip(platform: Platform, family: i32, data: Seq<u8>) -> Option<IpAddr> {
    if family == AF_INET && data.len() >= INET_SIZE {
        let at = INET_ADDR_OFFSET as int;
        Some(IpAddr::Ipv4Addr(data[at], data[at + 1], data[at + 2], data[at + 3]))
    } else if family == platform.inet6_family() && data.len() >= INET6_SIZE {
        let at = INET6_ADDR_OFFSET as int;
        Some(
            IpAddr::Ipv6Addr(
                group_at(data, at),
                group_at(data, at + 2),
                group_at(data, at + 4),
                group_at(data, at + 6),
                group_at(data, at + 8),
                group_at(data, at + 10),
                group_at(data, at + 12),
                group_at(data, at + 14),
            ),
        )
    } else {
        None
    }
}

/// What one raw record contributes: nothing where it is absent; the hardware
/// address alone where it is tagged with the link-layer family; else the IP
/// address alone. A record that cannot be decoded contributes nothing.
pub open spec fn decode(platform: Platform, sa: Option<SockAddrView>) -> (
    Option<MacAddr>,
    Option<IpAddr>,
) {
    match sa {
        None => (None, None),
        Some(sa) => if sa.family == platform.link_family() {
            (decode_link(platform, sa.data), None)
        } else {
            (None, decode_ip(platform, sa.family, sa.data))
        },
    }
}

/// A raw record never contributes both a hardware address and an IP address.
pub proof fn lemma_decode_exclusive(platform: Platform, sa: Option<SockAddrView>)
    ensures
        decode(platform, sa).0 is None || decode(platform, sa).1 is None,
{
}

/// Reads the 16-bit group at `at`.
fn read_group(data: &Vec<u8>, at: usize) -> (g: u16)
    requires
        at + 1 < data@.len() <= usize::MAX,
    ensures
        g == group_at(data@, at as int),
{
    let hi: u16 = data[at] as u16;
    let lo: u16 = data[at + 1] as u16;
    hi * 256 + lo
}

/// Reads the hardware address of a link-layer record.
fn read_link(platform: Platform, data: &Vec<u8>) -> (mac: Option<MacAddr>)
    ensures
        mac == decode_link(platform, data@),
{
    let at: usize = match platform {
        Platform::Linux => PACKET_ADDR_OFFSET,
        _ => {
            if data.len() <= LINK_NAME_LEN_OFFSET {
                return None;
            }
            LINK_DATA_OFFSET + data[LINK_NAME_LEN_OFFSET] as usize
        },
    };
    if data.len() < 6 || at > data.len() - 6 {
        return None;
    }
    Some(MacAddr(data[at], data[at + 1], data[at + 2], data[at + 3], data[at + 4], data[at + 5]))
}

/// Reads the IP address of a record that is not of the link-layer family.
fn read_ip(platform: Platform, family: i32, data: &Vec<u8>) -> (ip: Option<IpAddr>)
    ensures
        ip == decode_ip(platform, family, data@),
{
    if family == AF_INET && data.len() >= INET_SIZE {
        let at: usize = INET_ADDR_OFFSET;
        Some(IpAddr::Ipv4Addr(data[at], data[at + 1], data[at + 2], data[at + 3]))
    } else if family == platform.inet6_family_tag() && data.len() >= INET6_SIZE {
        let at: usize = INET6_ADDR_OFFSET;
        Some(
            IpAddr::Ipv6Addr(
                read_group(data, at),
                read_group(data, at + 2),
                read_group(data, at + 4),
                read_group(data, at + 6),
                read_group(data, at + 8),
                read_group(data, at + 10),
                read_group(data, at + 12),
                read_group(data, at + 14),
            ),
        )
    } else {
        None
    }
}

/// Decodes one raw address record, which may be absent, into the hardware
/// address or the IP address that it carries.
pub fn sockaddr_to_network_addr(platform: Platform, sa: Option<&SockAddr>) -> (r: (
    Option<MacAddr>,
    Option<IpAddr>,
))
    ensures
        r == decode(platform, sockaddr_view(sa)),
{
    match sa {
        None => (None, None),
        Some(sa) => {
            if sa.family == platform.link_family_tag() {
                (read_link(platform, &sa.data), None)
            } else {
                (None, read_ip(platform, sa.family, &sa.data))
            }
        },
    }
}

} // verus!
