//! Enumeration on POSIX: the raw address records of all interfaces are merged
//! into one record per interface, and the index of each is resolved afterwards.

use crate::addr::{decode, sockaddr_to_network_addr, IpAddr, Platform, SockAddr, SockAddrView};
use crate::iface::{lemma_merge_idempotent, merged, InterfaceView, NetworkInterface};
use vstd::prelude::*;

verus! {

/// One raw record of the operating system's list: one address of one interface.
#[derive(Clone, PartialEq, Eq, Debug)]
pub struct AddressRecord {
    /// The name of the interface that the address belongs to.
    pub name: String,
    /// The socket address of the record, which may be absent.
    pub addr: Option<SockAddr>,
    /// The flags of the interface.
    pub flags: u32,
}

/// What an `AddressRecord` holds.
pub struct AddressRecordView {
    pub name: Seq<char>,
    pub addr: Option<SockAddrView>,
    pub flags: u32,
}

impl View for AddressRecord {
    type V = AddressRecordView;

    open spec fn view(&self) -> AddressRecordView {
        AddressRecordView {
            name: self.name@,
            addr: match self.addr {
                Some(sa) => Some(sa@),
                None => None,
            },
            flags: self.flags,
        }
    }
}

impl DeepView for AddressRecord {
    type V = AddressRecordView;

    open spec fn deep_view(&self) -> AddressRecordView {
        self@
    }
}

/// The interface record that one raw record makes alone: its name and flags,
/// the index not yet resolved, and the one address that it carries.
pub open spec fn record_interface(platform: Platform, record: AddressRecordView) -> InterfaceView {
    let (mac, ip) = decode(platform, record.addr);
    InterfaceView {
        name: record.name,
        index: 0,
        mac,
        ips: match ip {
            Some(ip) => Some(seq![ip]),
            None => None,
        },
        flags: record.flags,
    }
}

/// Some entry of `list` has the name `name`.
pub open spec fn has_name(list: Seq<InterfaceView>, name: Seq<char>) -> bool {
    exists|i: int| 0 <= i < list.len() && (#[trigger] list[i]).name == name
}

/// No two entries of `list` have the same name.
pub open spec fn names_unique(list: Seq<InterfaceView>) -> bool {
    forall|i: int, j: int|
        0 <= i < j < list.len() ==> (#[trigger] list[i]).name != (#[trigger] list[j]).name
}

/// The list after the record `ni` has arrived: `ni` is merged into the entry of
/// its name; where there is none, it becomes the last entry.
pub open spec fn absorb(list: Seq<InterfaceView>, ni: InterfaceView) -> Seq<InterfaceView> {
    if has_name(list, ni.name) {
        Seq::new(
            list.len(),
            |i: int|
                if list[i].name == ni.name {
                    merged(list[i], ni)
                } else {
                    list[i]
                },
        )
    } else {
        list.push(ni)
    }
}

/// The interfaces that a list of raw records describes: the records are
/// absorbed one after the other, in the order of the list.
pub open spec fn merge_all(platform: Platform, records: Seq<AddressRecordView>) -> Seq<
    InterfaceView,
>
    decreases records.len(),
{
    if records.len() == 0 {
        Seq::empty()
    } else {
        absorb(
            merge_all(platform, records.drop_last()),
            record_interface(platform, records.last()),
        )
    }
}

/// Absorbing a record keeps the names that are there, in their places, adds
/// the name of the record where it was missing, and keeps the names unique.
pub proof fn lemma_absorb_names(list: Seq<InterfaceView>, ni: InterfaceView)
    requires
        names_unique(list),
    ensures
        names_unique(absorb(list, ni)),
        has_name(absorb(list, ni), ni.name),
        absorb(list, ni).len() == if has_name(list, ni.name) {
            list.len()
        } else {
            list.len() + 1
        },
        forall|i: int| 0 <= i < list.len() ==> (#[trigger] absorb(list, ni)[i]).name == list[i].name,
        forall|i: int| 0 <= i < list.len() ==> (#[trigger] absorb(list, ni)[i]).index == list[i].index,
{
    let after = absorb(list, ni);
    if has_name(list, ni.name) {
        let i = choose|i: int| 0 <= i < list.len() && (#[trigger] list[i]).name == ni.name;
        assert(after[i].name == ni.name);
    } else {
        assert(after[list.len() as int].name == ni.name);
    }
}

/// In the merged list every name occurs once, every index is unresolved, and
/// the names are those of the records.
pub proof fn lemma_merge_all_names(platform: Platform, records: Seq<AddressRecordView>)
    ensures
        names_unique(merge_all(platform, records)),
        merge_all(platform, records).len() <= records.len(),
        forall|i: int|
            0 <= i < merge_all(platform, records).len() ==> (#[trigger] merge_all(
                platform,
                records,
            )[i]).index == 0,
        forall|k: int|
            0 <= k < records.len() ==> has_name(
                merge_all(platform, records),
                (#[trigger] records[k]).name,
            ),
        forall|i: int|
            0 <= i < merge_all(platform, records).len() ==> exists|k: int|
                0 <= k < records.len() && (#[trigger] records[k]).name == (#[trigger] merge_all(
                    platform,
                    records,
                )[i]).name,
    decreases records.len(),
{
    if records.len() > 0 {
        let before = merge_all(platform, records.drop_last());
        let ni = record_interface(platform, records.last());
        let after = merge_all(platform, records);
        lemma_merge_all_names(platform, records.drop_last());
        lemma_absorb_names(before, ni);
        assert forall|k: int| 0 <= k < records.len() implies has_name(
            after,
            (#[trigger] records[k]).name,
        ) by {
            if k < records.len() - 1 {
                assert(records.drop_last()[k] == records[k]);
                let i = choose|i: int|
                    0 <= i < before.len() && (#[trigger] before[i]).name == records[k].name;
                assert(after[i].name == records[k].name);
            }
        }
        assert forall|i: int| 0 <= i < after.len() implies exists|k: int|
            0 <= k < records.len() && (#[trigger] records[k]).name == (#[trigger] after[i]).name by {
            if i < before.len() {
                let k = choose|k: int|
                    0 <= k < records.drop_last().len() && (#[trigger] records.drop_last()[k]).name
                        == before[i].name;
                assert(records[k].name == after[i].name);
            } else {
                assert(records[records.len() - 1].name == after[i].name);
            }
        }
    }
}

/// A record that arrives a second time, or another record of the same name
/// with the same flags and the same hardware address, adds no entry and
/// changes neither the flags nor the hardware address of any entry.
pub proof fn lemma_absorb_again(list: Seq<InterfaceView>, first: InterfaceView, second: InterfaceView)
    requires
        first.name == second.name,
        first.flags == second.flags,
        first.mac == second.mac,
    ensures
        absorb(absorb(list, first), second).len() == absorb(list, first).len(),
        forall|i: int|
            0 <= i < absorb(list, first).len() ==> {
                &&& (#[trigger] absorb(absorb(list, first), second)[i]).name == absorb(
                    list,
                    first,
                )[i].name
                &&& absorb(absorb(list, first), second)[i].flags == absorb(list, first)[i].flags
                &&& absorb(absorb(list, first), second)[i].mac == absorb(list, first)[i].mac
            },
{
    let once = absorb(list, first);
    let twice = absorb(once, second);
    if has_name(list, first.name) {
        let i = choose|i: int| 0 <= i < list.len() && (#[trigger] list[i]).name == first.name;
        assert(once[i].name == second.name);
    } else {
        assert(once[list.len() as int].name == second.name);
    }
    assert(has_name(once, second.name));
    assert forall|i: int| 0 <= i < once.len() implies {
        &&& (#[trigger] twice[i]).name == once[i].name
        &&& twice[i].flags == once[i].flags
        &&& twice[i].mac == once[i].mac
    } by {
        if once[i].name == second.name {
            if i < list.len() && has_name(list, first.name) {
                lemma_merge_idempotent(list[i], first, second);
            } else {
                lemma_merge_idempotent(first, first, second);
            }
        }
    }
}

/// However many records name an interface, the merged list holds exactly one
/// entry of that name, so a pass over the list resolves its index once.
pub proof fn lemma_one_entry_for_each_name(
    platform: Platform,
    records: Seq<AddressRecordView>,
    k: int,
)
    requires
        0 <= k < records.len(),
    ensures
        exists|i: int|
            {
                &&& 0 <= i < merge_all(platform, records).len()
                &&& (#[trigger] merge_all(platform, records)[i]).name == records[k].name
                &&& forall|j: int|
                    0 <= j < merge_all(platform, records).len() && (#[trigger] merge_all(
                        platform,
                        records,
                    )[j]).name == records[k].name ==> j == i
            },
{
    let list = merge_all(platform, records);
    lemma_merge_all_names(platform, records);
    assert(has_name(list, records[k].name));
    let i = choose|i: int| 0 <= i < list.len() && (#[trigger] list[i]).name == records[k].name;
    assert forall|j: int| 0 <= j < list.len() && (#[trigger] list[j]).name
        == records[k].name implies j == i by {
        if j < i {
            assert(list[j].name != list[i].name);
        }
        if i < j {
            assert(list[i].name != list[j].name);
        }
    }
}

/// Two records of one interface that carry the IP addresses `a` and `b` and
/// arrive in this order merge into one entry whose addresses are `a`, then `b`.
pub proof fn lemma_merge_keeps_arrival_order(
    platform: Platform,
    first: AddressRecordView,
    second: AddressRecordView,
    a: IpAddr,
    b: IpAddr,
)
    requires
        first.name == second.name,
        decode(platform, first.addr).1 == Some(a),
        decode(platform, second.addr).1 == Some(b),
    ensures
        merge_all(platform, seq![first, second]).len() == 1,
        merge_all(platform, seq![first, second])[0].name == first.name,
        merge_all(platform, seq![first, second])[0].ips == Some(seq![a, b]),
{
    let both = seq![first, second];
    let one = seq![first];
    assert(both.drop_last() == one);
    assert(one.drop_last() == Seq::<AddressRecordView>::empty());
    assert(merge_all(platform, one.drop_last()) == Seq::<InterfaceView>::empty());
    let e1 = record_interface(platform, first);
    let e2 = record_interface(platform, second);
    assert(!has_name(Seq::<InterfaceView>::empty(), e1.name));
    let m1 = merge_all(platform, one);
    assert(m1 == seq![e1]);
    assert(m1[0].name == e2.name);
    assert(has_name(m1, e2.name));
    assert(seq![a] + seq![b] == seq![a, b]);
}

/// Merges the raw records into one record per interface, in the order in
/// which the interfaces are first seen. No index is resolved yet.
pub fn merge_records(platform: Platform, records: &Vec<AddressRecord>) -> (ifaces: Vec<
    NetworkInterface,
>)
    ensures
        ifaces.deep_view() == merge_all(platform, records.deep_view()),
        names_unique(ifaces.deep_view()),
        forall|i: int| 0 <= i < ifaces@.len() ==> (#[trigger] ifaces@[i]).index == 0,
{
    let mut ifaces: Vec<NetworkInterface> = Vec::new();
    let mut k: usize = 0;
    assert(ifaces.deep_view() == Seq::<InterfaceView>::empty());
    while k < records.len()
        invariant
            k <= records@.len(),
            ifaces.deep_view() == merge_all(platform, records.deep_view().take(k as int)),
        decreases records@.len() - k,
    {
        let record = &records[k];
        let (mac, ip) = sockaddr_to_network_addr(platform, record.addr.as_ref());
        let ni = NetworkInterface {
            name: record.name.clone(),
            index: 0,
            mac,
            ips: match ip {
                Some(ip) => Some(vec![ip]),
                None => None,
            },
            flags: record.flags,
        };
        proof {
            assert(records.deep_view().take(k + 1).drop_last() == records.deep_view().take(
                k as int,
            ));
            assert(records.deep_view().take(k + 1).last() == record@);
            assert(ni.ips is Some ==> ni.ips.unwrap()@ == seq![ip.unwrap()]);
            assert(ni@ == record_interface(platform, record@));
        }
        let ghost before = ifaces.deep_view();
        let mut found = false;
        let mut j: usize = 0;
        while j < ifaces.len()
            invariant
                j <= ifaces@.len(),
                ifaces@.len() == before.len(),
                forall|i: int|
                    0 <= i < ifaces@.len() ==> (#[trigger] ifaces@[i])@ == if i < j && before[i].name
                        == ni@.name {
                        merged(before[i], ni@)
                    } else {
                        before[i]
                    },
                found == exists|i: int| 0 <= i < j && (#[trigger] before[i]).name == ni@.name,
            decreases ifaces@.len() - j,
        {
            if ni.name == ifaces[j].name {
                ifaces[j].merge(&ni);
                found = true;
            }
            j += 1;
        }
        if !found {
            ifaces.push(ni);
        }
        proof {
            assert(found == has_name(before, ni@.name));
            assert(ifaces.deep_view() =~= absorb(before, ni@));
        }
        k += 1;
    }
    proof {
        assert(records.deep_view().take(k as int) == records.deep_view());
        lemma_merge_all_names(platform, records.deep_view());
        assert forall|i: int| 0 <= i < ifaces@.len() implies (#[trigger] ifaces@[i]).index == 0 by {
            assert(ifaces.deep_view()[i].index == 0);
        }
    }
    ifaces
}

} // verus!
