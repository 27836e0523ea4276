//! What the merged list holds, said interface by interface: its names are the
//! names of the records in the order in which each is first seen, and each
//! entry is the merge of the records of its interface, in their order.

use crate::addr::{decode, IpAddr, Platform};
use crate::iface::{merged, InterfaceView};
use crate::posix::{
    has_name, lemma_absorb_names, lemma_merge_all_names, merge_all, record_interface,
    AddressRecordView,
};
use vstd::prelude::*;

verus! {

/// The names of `names` without repetition, each where it is first seen.
pub open spec fn first_seen(names: Seq<Seq<char>>) -> Seq<Seq<char>>
    decreases names.len(),
{
    if names.len() == 0 {
        Seq::empty()
    } else if names.drop_last().contains(names.last()) {
        first_seen(names.drop_last())
    } else {
        first_seen(names.drop_last()).push(names.last())
    }
}

/// The names of the records, in the order of the list.
pub open spec fn record_names(records: Seq<AddressRecordView>) -> Seq<Seq<char>> {
    Seq::new(records.len(), |k: int| records[k].name)
}

/// The names of the interfaces, in the order of the list.
pub open spec fn interface_names(list: Seq<InterfaceView>) -> Seq<Seq<char>> {
    Seq::new(list.len(), |i: int| list[i].name)
}

/// The records of the interface `name`, in the order of the list.
pub open spec fn records_named(records: Seq<AddressRecordView>, name: Seq<char>) -> Seq<
    AddressRecordView,
>
    decreases records.len(),
{
    if records.len() == 0 {
        Seq::empty()
    } else if records.last().name == name {
        records_named(records.drop_last(), name).push(records.last())
    } else {
        records_named(records.drop_last(), name)
    }
}

/// The entry that the records of one interface merge into: the first record
/// makes the entry, and each later one is merged into it in turn.
pub open spec fn merge_group(platform: Platform, group: Seq<AddressRecordView>) -> InterfaceView
    recommends
        group.len() > 0,
    decreases group.len(),
{
    if group.len() <= 1 {
        record_interface(platform, group[0])
    } else {
        merged(
            merge_group(platform, group.drop_last()),
            record_interface(platform, group.last()),
        )
    }
}

/// The IP addresses that the records of `group` carry, in the order of the records.
pub open spec fn carried_ips(platform: Platform, group: Seq<AddressRecordView>) -> Seq<IpAddr>
    decreases group.len(),
{
    if group.len() == 0 {
        Seq::empty()
    } else {
        match decode(platform, group.last().addr).1 {
            Some(ip) => carried_ips(platform, group.drop_last()).push(ip),
            None => carried_ips(platform, group.drop_last()),
        }
    }
}

/// A name is first seen where it is seen at all.
proof fn lemma_first_seen_contains(names: Seq<Seq<char>>, name: Seq<char>)
    ensures
        first_seen(names).contains(name) <==> names.contains(name),
    decreases names.len(),
{
    if names.len() > 0 {
        let head = names.drop_last();
        let last = names.last();
        let seen = first_seen(names);
        let seen_head = first_seen(head);
        lemma_first_seen_contains(head, name);
        if names.contains(name) {
            let k = choose|k: int| 0 <= k < names.len() && names[k] == name;
            if k < head.len() {
                assert(head[k] == name);
                let i = choose|i: int| 0 <= i < seen_head.len() && seen_head[i] == name;
                assert(seen[i] == name);
            } else if head.contains(last) {
                let i = choose|i: int| 0 <= i < seen_head.len() && seen_head[i] == name;
                assert(seen[i] == name);
            } else {
                assert(seen[seen.len() - 1] == name);
            }
            assert(seen.contains(name));
        }
        if seen.contains(name) {
            let i = choose|i: int| 0 <= i < seen.len() && seen[i] == name;
            if i < seen_head.len() {
                assert(seen_head[i] == name);
                let k = choose|k: int| 0 <= k < head.len() && head[k] == name;
                assert(names[k] == name);
            } else {
                assert(names[names.len() - 1] == name);
            }
            assert(names.contains(name));
        }
    }
}

/// The merged list names the interfaces in the order in which the records
/// first name them, each once.
pub proof fn lemma_names_in_first_seen_order(platform: Platform, records: Seq<AddressRecordView>)
    ensures
        interface_names(merge_all(platform, records)) == first_seen(record_names(records)),
    decreases records.len(),
{
    if records.len() > 0 {
        let head = records.drop_last();
        let before = merge_all(platform, head);
        let ni = record_interface(platform, records.last());
        let after = merge_all(platform, records);
        lemma_names_in_first_seen_order(platform, head);
        lemma_merge_all_names(platform, head);
        lemma_absorb_names(before, ni);
        lemma_first_seen_contains(record_names(head), ni.name);
        assert(record_names(records).drop_last() == record_names(head));
        assert(record_names(records).last() == ni.name);
        if has_name(before, ni.name) {
            let i = choose|i: int| 0 <= i < before.len() && (#[trigger] before[i]).name == ni.name;
            assert(interface_names(before)[i] == ni.name);
            assert(interface_names(after) == interface_names(before));
        } else {
            if interface_names(before).contains(ni.name) {
                let i = choose|i: int|
                    0 <= i < interface_names(before).len() && interface_names(before)[i] == ni.name;
                assert(before[i].name == ni.name);
            }
            assert(interface_names(after) == interface_names(before).push(ni.name));
        }
    } else {
        assert(interface_names(merge_all(platform, records)) == Seq::<Seq<char>>::empty());
    }
}

/// The records of an interface all have its name, and there is one for each
/// record of the list that has it.
pub proof fn lemma_records_named(records: Seq<AddressRecordView>, name: Seq<char>)
    ensures
        forall|k: int|
            0 <= k < records_named(records, name).len() ==> (#[trigger] records_named(
                records,
                name,
            )[k]).name == name,
        records_named(records, name).len() <= records.len(),
        records_named(records, name).len() == 0 <==> forall|k: int|
            0 <= k < records.len() ==> (#[trigger] records[k]).name != name,
    decreases records.len(),
{
    if records.len() > 0 {
        let head = records.drop_last();
        lemma_records_named(head, name);
        if records_named(records, name).len() == 0 {
            assert forall|k: int| 0 <= k < records.len() implies (#[trigger] records[k]).name
                != name by {
                if k < head.len() {
                    assert(head[k] == records[k]);
                }
            }
        } else if records.last().name != name {
            let k = choose|k: int| 0 <= k < head.len() && (#[trigger] head[k]).name == name;
            assert(records[k].name == name);
        }
    }
}

/// Each entry of the merged list is the merge of the records of its interface.
pub proof fn lemma_entry_merges_its_records(
    platform: Platform,
    records: Seq<AddressRecordView>,
    i: int,
)
    requires
        0 <= i < merge_all(platform, records).len(),
    ensures
        records_named(records, merge_all(platform, records)[i].name).len() > 0,
        merge_all(platform, records)[i] == merge_group(
            platform,
            records_named(records, merge_all(platform, records)[i].name),
        ),
    decreases records.len(),
{
    let head = records.drop_last();
    let before = merge_all(platform, head);
    let ni = record_interface(platform, records.last());
    let after = merge_all(platform, records);
    let name = after[i].name;
    lemma_merge_all_names(platform, head);
    lemma_absorb_names(before, ni);
    if i < before.len() {
        lemma_entry_merges_its_records(platform, head, i);
        let group = records_named(head, name);
        if name == ni.name {
            assert(has_name(before, ni.name));
            assert(group.push(records.last()).drop_last() == group);
        } else {
        }
    } else {
        assert(!has_name(before, ni.name));
        lemma_records_named(head, ni.name);
        if records_named(head, ni.name).len() > 0 {
            let k = choose|k: int| 0 <= k < head.len() && (#[trigger] head[k]).name == ni.name;
            assert(has_name(before, head[k].name));
        }
        assert(records_named(records, name) == seq![records.last()]);
    }
}

/// The merge of a group has the name of its records, no index yet, and all
/// the flags of each record.
pub proof fn lemma_group_name_and_flags(platform: Platform, group: Seq<AddressRecordView>, k: int)
    requires
        0 <= k < group.len(),
    ensures
        merge_group(platform, group).name == group[0].name,
        merge_group(platform, group).index == 0,
        merge_group(platform, group).flags & group[k].flags == group[k].flags,
    decreases group.len(),
{
    if group.len() > 1 {
        let a = merge_group(platform, group.drop_last()).flags;
        let b = group.last().flags;
        lemma_group_name_and_flags(platform, group.drop_last(), 0);
        if k < group.len() - 1 {
            lemma_group_name_and_flags(platform, group.drop_last(), k);
            let c = group[k].flags;
            assert(a & c == c ==> (a | b) & c == c) by (bit_vector);
        } else {
            assert((a | b) & b == b) by (bit_vector);
        }
    } else {
        let b = group[0].flags;
        assert(b & b == b) by (bit_vector);
    }
}

/// The hardware address of a group is that of the last record which carries
/// one; where none does, the group has none.
pub proof fn lemma_group_mac(platform: Platform, group: Seq<AddressRecordView>)
    requires
        group.len() > 0,
    ensures
        forall|k: int|
            0 <= k < group.len() && decode(platform, (#[trigger] group[k]).addr).0 is Some && (
            forall|j: int| k < j < group.len() ==> decode(platform, (#[trigger] group[j]).addr).0
                is None) ==> merge_group(platform, group).mac == decode(platform, group[k].addr).0,
        (forall|j: int| 0 <= j < group.len() ==> decode(platform, (#[trigger] group[j]).addr).0
            is None) ==> merge_group(platform, group).mac is None,
    decreases group.len(),
{
    if group.len() > 1 {
        let head = group.drop_last();
        lemma_group_mac(platform, head);
        assert forall|k: int|
            0 <= k < group.len() && decode(platform, (#[trigger] group[k]).addr).0 is Some && (
            forall|j: int| k < j < group.len() ==> decode(platform, (#[trigger] group[j]).addr).0
                is None) implies merge_group(platform, group).mac == decode(
            platform,
            group[k].addr,
        ).0 by {
            if k < group.len() - 1 {
                assert(head[k] == group[k]);
                assert(decode(platform, group[group.len() - 1].addr).0 is None);
                assert forall|j: int| k < j < head.len() implies decode(
                    platform,
                    (#[trigger] head[j]).addr,
                ).0 is None by {
                    assert(head[j] == group[j]);
                }
            }
        }
        if forall|j: int|
            0 <= j < group.len() ==> decode(platform, (#[trigger] group[j]).addr).0 is None {
            assert(decode(platform, group[group.len() - 1].addr).0 is None);
            assert forall|j: int| 0 <= j < head.len() implies decode(
                platform,
                (#[trigger] head[j]).addr,
            ).0 is None by {
                assert(head[j] == group[j]);
            }
        }
    }
}

/// Where the first record of a group carries an IP address, the group lists
/// the addresses that its records carry, in the order of the records and with
/// repetitions; where the first record carries none, the group lists none.
pub proof fn lemma_group_ips(platform: Platform, group: Seq<AddressRecordView>)
    requires
        group.len() > 0,
    ensures
        merge_group(platform, group).ips == if decode(platform, group[0].addr).1 is Some {
            Some(carried_ips(platform, group))
        } else {
            None
        },
    decreases group.len(),
{
    if group.len() > 1 {
        lemma_group_ips(platform, group.drop_last());
        let ip = decode(platform, group.last().addr).1;
        if ip is Some {
            assert(carried_ips(platform, group.drop_last()) + seq![ip.unwrap()] == carried_ips(
                platform,
                group.drop_last(),
            ).push(ip.unwrap()));
        }
    } else {
        assert(group.drop_last() == Seq::<AddressRecordView>::empty());
        assert(carried_ips(platform, group.drop_last()) == Seq::<IpAddr>::empty());
        let ip = decode(platform, group[0].addr).1;
        if ip is Some {
            assert(Seq::<IpAddr>::empty().push(ip.unwrap()) == seq![ip.unwrap()]);
        }
    }
}

/// Where every record of a group carries an IP address, the addresses that
/// the group carries are those of its records, one for one.
pub proof fn lemma_carried_ips_of_all(platform: Platform, group: Seq<AddressRecordView>)
    requires
        forall|k: int| 0 <= k < group.len() ==> decode(platform, (#[trigger] group[k]).addr).1 is Some,
    ensures
        carried_ips(platform, group) == Seq::new(
            group.len(),
            |k: int| decode(platform, group[k].addr).1.unwrap(),
        ),
    decreases group.len(),
{
    if group.len() > 0 {
        let head = group.drop_last();
        assert forall|k: int| 0 <= k < head.len() implies decode(
            platform,
            (#[trigger] head[k]).addr,
        ).1 is Some by {
            assert(head[k] == group[k]);
        }
        lemma_carried_ips_of_all(platform, head);
        assert(decode(platform, group[group.len() - 1].addr).1 is Some);
        assert(carried_ips(platform, group) =~= Seq::new(
            group.len(),
            |k: int| decode(platform, group[k].addr).1.unwrap(),
        ));
    }
}

} // verus!
