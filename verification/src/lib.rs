//! A uniform, platform-independent snapshot of a host's network interfaces:
//! their names, hardware addresses, IP addresses and flags.
//!
//! The library asks the operating system nothing itself. Its caller does, and
//! hands over what the system reported as plain values (`OsReport`):
//! on POSIX the raw address records, on Windows the adapter table and the
//! device names. `get_network_interfaces` decodes the records, merges those of
//! one interface and lists the interfaces. On POSIX the caller then looks up
//! the index of each interface in an `IndexResolution` pass.

pub mod addr;
pub mod grouping;
pub mod iface;
pub mod index;
pub mod listing;
pub mod mac;
pub mod posix;
pub mod text;
pub mod windows;

pub use addr::{sockaddr_to_network_addr, IpAddr, Platform, SockAddr};
pub use iface::NetworkInterface;
pub use index::IndexResolution;
pub use listing::{get_network_interfaces, OsReport};
pub use mac::MacAddr;
pub use posix::AddressRecord;
pub use windows::Adapter;
