//! The list of a machine's interfaces, from what its operating system reported.

use crate::addr::Platform;
use crate::iface::{InterfaceView, NetworkInterface};
use crate::posix::{merge_all, merge_records, names_unique, AddressRecord};
use crate::windows::{device_names, selected, select_adapters, Adapter};
use vstd::prelude::*;

verus! {

/// What the operating system reported when it was asked for its interfaces.
#[derive(Clone, PartialEq, Eq, Debug)]
pub enum OsReport {
    /// On POSIX: the list of raw address records, one for each address of each
    /// interface; `None` where the operating system failed to give the list.
    Posix { platform: Platform, records: Option<Vec<AddressRecord>> },
    /// On Windows: the adapter table, and the text that holds the names of the
    /// devices that can be captured on.
    Windows { adapters: Vec<Adapter>, names: String },
}

/// The interfaces that a report describes. On POSIX the raw records are merged
/// by name, and a list that could not be had describes no interface; the
/// indices are left to the resolution pass. On Windows the device names select
/// adapters of the table.
pub open spec fn interfaces_of(report: OsReport) -> Seq<InterfaceView> {
    match report {
        OsReport::Posix { platform, records: Some(records) } => merge_all(
            platform,
            records.deep_view(),
        ),
        OsReport::Posix { platform, records: None } => Seq::empty(),
        OsReport::Windows { adapters, names } => selected(
            adapters.deep_view(),
            device_names(names@),
        ),
    }
}

/// Lists the interfaces of the machine that gave `report`.
pub fn get_network_interfaces(report: &OsReport) -> (ifaces: Vec<NetworkInterface>)
    ensures
        ifaces.deep_view() == interfaces_of(*report),
        report is Posix ==> names_unique(ifaces.deep_view()),
        report is Posix ==> forall|i: int|
            0 <= i < ifaces@.len() ==> (#[trigger] ifaces@[i]).index == 0,
        report matches OsReport::Posix { records: None, .. } ==> ifaces@.len() == 0,
{
    match report {
        OsReport::Posix { platform, records: Some(records) } => merge_records(*platform, records),
        OsReport::Posix { platform, records: None } => {
            let ifaces: Vec<NetworkInterface> = Vec::new();
            assert(ifaces.deep_view() == Seq::<InterfaceView>::empty());
            ifaces
        },
        OsReport::Windows { adapters, names } => select_adapters(adapters, names.as_str()),
    }
}

} // verus!
