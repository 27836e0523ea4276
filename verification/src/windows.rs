//! Enumeration on Windows: the adapter table gives the interfaces, and the
//! list of device names that can be captured on selects and names them.

use crate::addr::IpAddr;
use crate::iface::{InterfaceView, NetworkInterface};
use crate::mac::MacAddr;
use crate::text::{chars_of, is_suffix, split, split_ranges};
use vstd::prelude::*;

verus! {

/// One entry of the adapter table.
#[derive(Clone, PartialEq, Eq, Debug)]
pub struct Adapter {
    /// The short name of the adapter.
    pub name: String,
    /// The index of the adapter.
    pub index: u32,
    /// The hardware address field of the entry; the address is its first six bytes.
    pub address: [u8; 8],
    /// The IP addresses of the adapter, in the order of its address list.
    pub ips: Vec<IpAddr>,
}

/// What an `Adapter` holds.
pub struct AdapterView {
    pub name: Seq<char>,
    pub index: u32,
    pub address: Seq<u8>,
    pub ips: Seq<IpAddr>,
}

impl View for Adapter {
    type V = AdapterView;

    open spec fn view(&self) -> AdapterView {
        AdapterView {
            name: self.name@,
            index: self.index,
            address: self.address@,
            ips: self.ips@,
        }
    }
}

impl DeepView for Adapter {
    type V = AdapterView;

    open spec fn deep_view(&self) -> AdapterView {
        self@
    }
}

/// The character that ends a device name.
pub const NUL: char = '\0';

/// The interface that an adapter stands for, under the device name `name`:
/// index, hardware address and IP addresses are the adapter's, no flag is set.
pub open spec fn adapter_interface(adapter: AdapterView, name: Seq<char>) -> InterfaceView {
    InterfaceView {
        name,
        index: adapter.index,
        mac: Some(
            MacAddr(
                adapter.address[0],
                adapter.address[1],
                adapter.address[2],
                adapter.address[3],
                adapter.address[4],
                adapter.address[5],
            ),
        ),
        ips: Some(adapter.ips),
        flags: 0,
    }
}

/// Two NUL characters stand at `i` and `i + 1`, and no two stand side by side before.
pub open spec fn first_double_nul(text: Seq<char>, i: int) -> bool {
    &&& 0 <= i && i + 1 < text.len()
    &&& text[i] == NUL && text[i + 1] == NUL
    &&& forall|j: int| 0 <= j < i ==> !(text[j] == NUL && #[trigger] text[j + 1] == NUL)
}

/// The block of device names: the text before the first two NUL characters
/// that stand side by side, or the whole text where there are none.
pub open spec fn name_block(text: Seq<char>) -> Seq<char> {
    if exists|i: int| first_double_nul(text, i) {
        text.take(choose|i: int| first_double_nul(text, i))
    } else {
        text
    }
}

/// The device names of the text: the groups into which NUL cuts the name block.
pub open spec fn device_names(text: Seq<char>) -> Seq<Seq<char>> {
    split(name_block(text), NUL)
}

/// The adapter at `i` is the first whose short name the device name ends with.
pub open spec fn first_match(adapters: Seq<AdapterView>, device: Seq<char>, i: int) -> bool {
    &&& 0 <= i < adapters.len()
    &&& is_suffix(adapters[i].name, device)
    &&& forall|j: int| 0 <= j < i ==> !is_suffix((#[trigger] adapters[j]).name, device)
}

/// The interface of the device name `device`: that of the first adapter whose
/// short name the device name ends with, if there is one.
pub open spec fn device_interface(adapters: Seq<AdapterView>, device: Seq<char>) -> Option<
    InterfaceView,
> {
    if exists|i: int| first_match(adapters, device, i) {
        Some(adapter_interface(adapters[choose|i: int| first_match(adapters, device, i)], device))
    } else {
        None
    }
}

/// The interfaces of the device names `names`, in the order of the names; a
/// name without an adapter gives none.
pub open spec fn selected(adapters: Seq<AdapterView>, names: Seq<Seq<char>>) -> Seq<InterfaceView>
    decreases names.len(),
{
    if names.len() == 0 {
        Seq::empty()
    } else {
        let before = selected(adapters, names.drop_last());
        match device_interface(adapters, names.last()) {
            Some(iface) => before.push(iface),
            None => before,
        }
    }
}

/// Every interface of the result stands for one of the device names and one of
/// the adapters, and there are no more interfaces than device names.
pub proof fn lemma_selected_from_adapters(adapters: Seq<AdapterView>, names: Seq<Seq<char>>)
    ensures
        selected(adapters, names).len() <= names.len(),
        forall|k: int|
            0 <= k < selected(adapters, names).len() ==> exists|i: int, n: int|
                0 <= i < adapters.len() && 0 <= n < names.len() && is_suffix(
                    adapters[i].name,
                    names[n],
                ) && #[trigger] selected(adapters, names)[k] == adapter_interface(
                    #[trigger] adapters[i],
                    #[trigger] names[n],
                ),
    decreases names.len(),
{
    if names.len() > 0 {
        let before = selected(adapters, names.drop_last());
        let after = selected(adapters, names);
        lemma_selected_from_adapters(adapters, names.drop_last());
        assert forall|k: int| 0 <= k < after.len() implies exists|i: int, n: int|
            0 <= i < adapters.len() && 0 <= n < names.len() && is_suffix(adapters[i].name, names[n])
                && #[trigger] after[k] == adapter_interface(
                #[trigger] adapters[i],
                #[trigger] names[n],
            ) by {
            if k < before.len() {
                let (i, n) = choose|i: int, n: int|
                    0 <= i < adapters.len() && 0 <= n < names.drop_last().len() && is_suffix(
                        adapters[i].name,
                        names.drop_last()[n],
                    ) && #[trigger] before[k] == adapter_interface(
                        #[trigger] adapters[i],
                        #[trigger] names.drop_last()[n],
                    );
                assert(names[n] == names.drop_last()[n]);
                assert(after[k] == adapter_interface(adapters[i], names[n]));
            } else {
                let i = choose|i: int| first_match(adapters, names.last(), i);
                assert(after[k] == adapter_interface(adapters[i], names[names.len() - 1]));
            }
        }
    }
}

/// Where the name block of `text` ends.
fn block_end(text: &Vec<char>) -> (end: usize)
    ensures
        end <= text@.len(),
        text@.take(end as int) == name_block(text@),
{
    let n = text.len();
    let mut i: usize = 0;
    while n - i > 1
        invariant
            i <= n == text@.len(),
            forall|j: int| 0 <= j < i ==> !(text@[j] == NUL && #[trigger] text@[j + 1] == NUL),
        decreases n - i,
    {
        if text[i] == NUL && text[i + 1] == NUL {
            proof {
                assert(first_double_nul(text@, i as int));
                let c = choose|c: int| first_double_nul(text@, c);
                assert(c == i) by {
                    if c < i {
                        assert(!(text@[c] == NUL && text@[c + 1] == NUL));
                    }
                    if i < c {
                        assert(!(text@[i as int] == NUL && text@[i + 1] == NUL));
                    }
                }
            }
            return i;
        }
        i += 1;
    }
    proof {
        assert forall|c: int| !first_double_nul(text@, c) by {
            if 0 <= c && c + 1 < text@.len() {
                assert(!(text@[c] == NUL && text@[c + 1] == NUL));
            }
        }
        assert(text@.take(text@.len() as int) == text@);
    }
    text.len()
}

/// Whether the part of `text` from `from` up to `to` ends with `suffix`.
fn ends_with(text: &Vec<char>, from: usize, to: usize, suffix: &Vec<char>) -> (b: bool)
    requires
        from <= to <= text@.len(),
    ensures
        b == is_suffix(suffix@, text@.subrange(from as int, to as int)),
{
    let n = suffix.len();
    if n > to - from {
        return false;
    }
    let ghost part = text@.subrange(from as int, to as int);
    let start = to - n;
    let mut i: usize = 0;
    while i < n
        invariant
            i <= n,
            n == suffix@.len(),
            n <= to - from,
            start == to - n,
            from <= to <= text@.len(),
            part == text@.subrange(from as int, to as int),
            forall|j: int| 0 <= j < i ==> text@[start + j] == suffix@[j],
        decreases n - i,
    {
        if text[start + i] != suffix[i] {
            proof {
                let tail = part.subrange(part.len() - n, part.len() as int);
                assert(tail[i as int] == text@[start + i]);
            }
            return false;
        }
        i += 1;
    }
    proof {
        let tail = part.subrange(part.len() - n, part.len() as int);
        assert(tail =~= suffix@);
    }
    true
}

/// The position of the first adapter whose short name the device name ends
/// with; the device name is the part of `text` from `from` up to `to`.
fn find_adapter(short_names: &Vec<Vec<char>>, text: &Vec<char>, from: usize, to: usize) -> (r:
    Option<usize>)
    requires
        from <= to <= text@.len(),
    ensures
        match r {
            Some(i) => {
                &&& i < short_names@.len()
                &&& is_suffix(short_names@[i as int]@, text@.subrange(from as int, to as int))
                &&& forall|j: int|
                    0 <= j < i ==> !is_suffix(
                        (#[trigger] short_names@[j])@,
                        text@.subrange(from as int, to as int),
                    )
            },
            None => forall|j: int|
                0 <= j < short_names@.len() ==> !is_suffix(
                    (#[trigger] short_names@[j])@,
                    text@.subrange(from as int, to as int),
                ),
        },
{
    let mut i: usize = 0;
    while i < short_names.len()
        invariant
            i <= short_names@.len(),
            from <= to <= text@.len(),
            forall|j: int|
                0 <= j < i ==> !is_suffix(
                    (#[trigger] short_names@[j])@,
                    text@.subrange(from as int, to as int),
                ),
        decreases short_names@.len() - i,
    {
        if ends_with(text, from, to, &short_names[i]) {
            return Some(i);
        }
        i += 1;
    }
    None
}

/// The interface that `adapter` stands for, under the name `name`.
fn interface_of(adapter: &Adapter, name: String) -> (iface: NetworkInterface)
    ensures
        iface@ == adapter_interface(adapter@, name@),
{
    let mut ips: Vec<IpAddr> = Vec::new();
    let mut i: usize = 0;
    while i < adapter.ips.len()
        invariant
            i <= adapter.ips@.len(),
            ips@ == adapter.ips@.take(i as int),
        decreases adapter.ips@.len() - i,
    {
        ips.push(adapter.ips[i]);
        i += 1;
    }
    proof {
        assert(adapter.ips@.take(i as int) == adapter.ips@);
    }
    NetworkInterface {
        name,
        index: adapter.index,
        mac: Some(
            MacAddr(
                adapter.address[0],
                adapter.address[1],
                adapter.address[2],
                adapter.address[3],
                adapter.address[4],
                adapter.address[5],
            ),
        ),
        ips: Some(ips),
        flags: 0,
    }
}

/// The interfaces of the machine: for each device name of `names`, in order,
/// the first adapter of the table whose short name the device name ends with,
/// under the device name. Adapters that no device name selects are left out.
pub fn select_adapters(adapters: &Vec<Adapter>, names: &str) -> (ifaces: Vec<NetworkInterface>)
    ensures
        ifaces.deep_view() == selected(adapters.deep_view(), device_names(names@)),
{
    let mut short_names: Vec<Vec<char>> = Vec::new();
    let mut a: usize = 0;
    while a < adapters.len()
        invariant
            a <= adapters@.len(),
            short_names@.len() == a,
            forall|j: int| 0 <= j < a ==> (#[trigger] short_names@[j])@ == adapters@[j].name@,
        decreases adapters@.len() - a,
    {
        short_names.push(chars_of(adapters[a].name.as_str()));
        a += 1;
    }
    let mut block = chars_of(names);
    let end = block_end(&block);
    block.truncate(end);
    let ranges = split_ranges(&block, NUL);
    let ghost devices = device_names(names@);
    let ghost table = adapters.deep_view();
    let mut ifaces: Vec<NetworkInterface> = Vec::new();
    let mut k: usize = 0;
    assert(ifaces.deep_view() == Seq::<InterfaceView>::empty());
    while k < ranges.len()
        invariant
            k <= ranges@.len(),
            block@ == name_block(names@),
            block@.len() <= names@.len(),
            block@ == names@.take(block@.len() as int),
            devices == split(block@, NUL),
            table == adapters.deep_view(),
            ranges@.len() == devices.len(),
            forall|r: int|
                0 <= r < ranges@.len() ==> {
                    &&& (#[trigger] ranges@[r]).0 <= ranges@[r].1 <= block@.len()
                    &&& block@.subrange(ranges@[r].0 as int, ranges@[r].1 as int) == devices[r]
                },
            short_names@.len() == adapters@.len(),
            forall|j: int|
                0 <= j < adapters@.len() ==> (#[trigger] short_names@[j])@ == adapters@[j].name@,
            ifaces.deep_view() == selected(table, devices.take(k as int)),
        decreases ranges@.len() - k,
    {
        let (from, to) = ranges[k];
        let ghost device = devices[k as int];
        proof {
            assert(devices.take(k + 1).drop_last() == devices.take(k as int));
            assert(devices.take(k + 1).last() == device);
            assert(names@.subrange(from as int, to as int) == device);
        }
        let ghost before = ifaces.deep_view();
        match find_adapter(&short_names, &block, from, to) {
            Some(i) => {
                let name = names.substring_char(from, to).to_owned();
                let iface = interface_of(&adapters[i], name);
                ifaces.push(iface);
                proof {
                    assert forall|j: int| 0 <= j < table.len() implies (#[trigger] table[j]).name
                        == short_names@[j]@ by {
                        assert(table[j] == adapters@[j]@);
                    }
                    assert(first_match(table, device, i as int));
                    let c = choose|c: int| first_match(table, device, c);
                    assert(c == i) by {
                        if c < i {
                            assert(!is_suffix(short_names@[c]@, device));
                        }
                        if i < c {
                            assert(!is_suffix(table[i as int].name, device));
                        }
                    }
                    assert(ifaces.deep_view() =~= before.push(
                        adapter_interface(table[i as int], device),
                    ));
                }
            },
            None => {
                proof {
                    assert forall|j: int| 0 <= j < table.len() implies (#[trigger] table[j]).name
                        == short_names@[j]@ by {
                        assert(table[j] == adapters@[j]@);
                    }
                    assert forall|c: int| !first_match(table, device, c) by {
                        if 0 <= c < table.len() {
                            assert(!is_suffix(short_names@[c]@, device));
                        }
                    }
                }
            },
        }
        k += 1;
    }
    proof {
        assert(devices.take(k as int) == devices);
    }
    ifaces
}

} // verus!
