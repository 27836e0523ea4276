//! The record of one network interface, and how two records of one interface merge.

use crate::addr::IpAddr;
use crate::mac::MacAddr;
use vstd::prelude::*;

verus! {

/// The bit of an interface's flags that marks a loopback interface.
pub const IFF_LOOPBACK: u32 = 0x8;

/// A network interface and the addresses that belong to it.
#[derive(Clone, PartialEq, Eq, Debug)]
pub struct NetworkInterface {
    /// The name of the interface, by which its records are told apart.
    pub name: String,
    /// The index that the operating system gave the interface; 0 until it is resolved.
    pub index: u32,
    /// The hardware address, where a link-layer record of the interface was seen.
    pub mac: Option<MacAddr>,
    /// The IP addresses of the interface, in the order in which they arrived.
    pub ips: Option<Vec<IpAddr>>,
    /// The flags of the interface, as the operating system defines them.
    pub flags: u32,
}

/// What a `NetworkInterface` holds.
pub struct InterfaceView {
    pub name: Seq<char>,
    pub index: u32,
    pub mac: Option<MacAddr>,
    pub ips: Option<Seq<IpAddr>>,
    pub flags: u32,
}

impl View for NetworkInterface {
    type V = InterfaceView;

    open spec fn view(&self) -> InterfaceView {
        InterfaceView {
            name: self.name@,
            index: self.index,
            mac: self.mac,
            ips: match self.ips {
                Some(ips) => Some(ips@),
                None => None,
            },
            flags: self.flags,
        }
    }
}

impl DeepView for NetworkInterface {
    type V = InterfaceView;

    open spec fn deep_view(&self) -> InterfaceView {
        self@
    }
}

/// The entry of an interface after `record`, another record of the same
/// interface, has been merged into it: a hardware address of the record
/// replaces that of the entry; where both carry IP addresses, those of the
/// record follow those of the entry; the flags of both are set. Name and index stay.
pub open spec fn merged(entry: InterfaceView, record: InterfaceView) -> InterfaceView {
    InterfaceView {
        name: entry.name,
        index: entry.index,
        mac: if record.mac is Some {
            record.mac
        } else {
            entry.mac
        },
        ips: match (entry.ips, record.ips) {
            (Some(a), Some(b)) => Some(a + b),
            _ => entry.ips,
        },
        flags: entry.flags | record.flags,
    }
}

/// Merging a record a second time, or another record with the same flags and
/// the same hardware address, changes neither the flags nor the hardware address.
pub proof fn lemma_merge_idempotent(
    entry: InterfaceView,
    first: InterfaceView,
    second: InterfaceView,
)
    requires
        first.flags == second.flags,
        first.mac == second.mac,
    ensures
        merged(merged(entry, first), second).flags == merged(entry, first).flags,
        merged(merged(entry, first), second).mac == merged(entry, first).mac,
        merged(first, second).flags == first.flags,
        merged(first, second).mac == first.mac,
{
    let a = entry.flags;
    let b = first.flags;
    assert((a | b) | b == a | b) by (bit_vector);
    assert(b | b == b) by (bit_vector);
}

/// Where both carry IP addresses, the merged entry lists those of the entry,
/// then those of the record, each in its own order and none dropped.
pub proof fn lemma_merge_keeps_order(entry: InterfaceView, record: InterfaceView)
    requires
        entry.ips is Some,
        record.ips is Some,
    ensures
        merged(entry, record).ips == Some(entry.ips.unwrap() + record.ips.unwrap()),
{
}

impl NetworkInterface {
    /// The hardware address of the interface, which must be known.
    pub fn mac_address(&self) -> (mac: MacAddr)
        requires
            self.mac is Some,
        ensures
            self.mac == Some(mac),
    {
        self.mac.unwrap()
    }

    /// Whether the loopback bit is set in the flags of the interface.
    pub fn is_loopback(&self) -> (b: bool)
        ensures
            b == (self.flags & IFF_LOOPBACK != 0),
    {
        self.flags & IFF_LOOPBACK != 0
    }

    /// Merges `record`, another record of the same interface, into this one.
    pub fn merge(&mut self, record: &NetworkInterface)
        ensures
            final(self)@ == merged(old(self)@, record@),
    {
        if record.mac.is_some() {
            self.mac = record.mac;
        }
        match (&mut self.ips, &record.ips) {
            (Some(old_ips), Some(new_ips)) => {
                let ghost before = old_ips@;
                let mut i: usize = 0;
                while i < new_ips.len()
                    invariant
                        i <= new_ips@.len(),
                        old_ips@ == before + new_ips@.take(i as int),
                    decreases new_ips@.len() - i,
                {
                    old_ips.push(new_ips[i]);
                    i += 1;
                }
                assert(new_ips@.take(i as int) == new_ips@);
            },
            _ => {},
        }
        self.flags = self.flags | record.flags;
    }
}

} // verus!
