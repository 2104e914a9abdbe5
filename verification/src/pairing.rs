//! Pairing of long-report nodes with their short-report companions.
//!
//! Windows hands out the short (`0x10`) and the long (`0x11`) HID++ reports of
//! one receiver as two nodes with a handle each. A handle refuses the report
//! ids of the other, so both have to be opened, as one HID++ node.

use vstd::prelude::*;
use crate::collection::{is_long_only_collection, law_short_is_not_long, long_only_collection};
use crate::device::{
    is_long, is_long_node, is_short, is_short_node, law_keys_come_from_the_path, law_long_nodes,
    law_short_nodes, pairing_key, pairing_key_of, Device, DeviceId, DeviceInfo,
};
use crate::enumerate::law_selection_goes_by_vendor_and_collection;
use crate::index::KeyIndex;
use crate::path::{
    collection_key, hardware_key, instance_key, interface_parts, interface_path, is_collection_token,
    law_collections_of_one_interface_share_a_key, law_key_of_interface_path,
    law_keys_tell_interfaces_apart, law_sibling_paths_share_a_key, recognized,
};
use crate::text::lower;

verus! {

/// A HID++ node with the handles that Windows has for it.
#[derive(Debug)]
pub struct WinHidppNode<H> {
    /// The long-report (`0x11`) node.
    pub long: Device<H>,
    /// The short-report (`0x10`) node. `None` where the transport has none, or
    /// none was found.
    pub short: Option<Device<H>>,
}

/// The nodes of an enumeration, without their handles.
pub open spec fn infos<H>(all: Seq<Device<H>>) -> Seq<DeviceInfo> {
    all.map_values(|d: Device<H>| d.info)
}

/// The positions of the long-report nodes, in order.
pub open spec fn long_positions(nodes: Seq<DeviceInfo>) -> Seq<int>
    decreases nodes.len(),
{
    if nodes.len() == 0 {
        Seq::empty()
    } else if is_long(nodes.last()) {
        long_positions(nodes.drop_last()).push(nodes.len() - 1)
    } else {
        long_positions(nodes.drop_last())
    }
}

/// The node is a short-report companion with that pairing key.
pub open spec fn is_companion(info: DeviceInfo, key: Seq<char>) -> bool {
    is_short(info) && pairing_key_of(info) == Some(key)
}

/// The position of the last short-report companion with that pairing key.
pub open spec fn companion_position(nodes: Seq<DeviceInfo>, key: Seq<char>) -> Option<int>
    decreases nodes.len(),
{
    if nodes.len() == 0 {
        None
    } else if is_companion(nodes.last(), key) {
        Some(nodes.len() - 1)
    } else {
        companion_position(nodes.drop_last(), key)
    }
}

/// One of the first `n` long-report nodes has that pairing key.
pub open spec fn claimed(nodes: Seq<DeviceInfo>, n: int, key: Seq<char>) -> bool {
    exists|j: int| 0 <= j < n && pairing_key_of(nodes[#[trigger] long_positions(nodes)[j]]) == Some(key)
}

/// The position of the companion of the `i`th long-report node: the last
/// companion with its pairing key, unless an earlier long-report node has the
/// same key and so took it.
pub open spec fn companion_of(nodes: Seq<DeviceInfo>, i: int) -> Option<int> {
    match pairing_key_of(nodes[long_positions(nodes)[i]]) {
        Some(key) => if claimed(nodes, i, key) {
            None
        } else {
            companion_position(nodes, key)
        },
        None => None,
    }
}

/// The device at a position, if there is one.
pub open spec fn device_at<H>(all: Seq<Device<H>>, at: Option<int>) -> Option<Device<H>> {
    match at {
        Some(i) => Some(all[i]),
        None => None,
    }
}

/// The paired HID++ nodes of an enumeration.
pub open spec fn paired<H>(all: Seq<Device<H>>) -> Seq<WinHidppNode<H>> {
    let nodes = infos(all);
    Seq::new(
        long_positions(nodes).len(),
        |i: int|
            (WinHidppNode {
                long: all[long_positions(nodes)[i]],
                short: device_at(all, companion_of(nodes, i)),
            }),
    )
}

/// The companions among `all`, by pairing key.
spec fn indexes<H>(index: Map<Seq<char>, Device<H>>, all: Seq<Device<H>>) -> bool {
    forall|key: Seq<char>| #![trigger index.contains_key(key)]
        match companion_position(infos(all), key) {
            Some(i) => index.contains_key(key) && index[key] == all[i],
            None => !index.contains_key(key),
        }
}

/// The position that [`companion_position`] finds is that of the last companion.
proof fn lemma_companion_position(nodes: Seq<DeviceInfo>, key: Seq<char>)
    ensures
        match companion_position(nodes, key) {
            Some(i) => {
                &&& 0 <= i < nodes.len()
                &&& is_companion(nodes[i], key)
                &&& forall|j: int| i < j < nodes.len() ==> !is_companion(#[trigger] nodes[j], key)
            },
            None => forall|j: int| 0 <= j < nodes.len() ==> !is_companion(#[trigger] nodes[j], key),
        },
    decreases nodes.len(),
{
    if nodes.len() > 0 && !is_companion(nodes.last(), key) {
        let head = nodes.drop_last();
        lemma_companion_position(head, key);
        let from = match companion_position(head, key) {
            Some(i) => i + 1,
            None => 0,
        };
        assert forall|j: int| from <= j < nodes.len() implies !is_companion(
            #[trigger] nodes[j],
            key,
        ) by {
            if j < nodes.len() - 1 {
                assert(head[j] == nodes[j]);
            }
        }
    }
}

/// Sifts an enumeration into its long-report nodes, in order, and an index of
/// the short-report companions. Of companions with the same key the last stays.
fn sift_nodes<H>(all: Vec<Device<H>>) -> (sifted: (Vec<Device<H>>, KeyIndex<Device<H>>))
    ensures
        sifted.0@ == long_positions(infos(all@)).map_values(|p: int| all@[p]),
        sifted.1.wf(),
        indexes(sifted.1@, all@),
{
    let ghost devices = all@;
    let mut longs: Vec<Device<H>> = Vec::new();
    let mut shorts: KeyIndex<Device<H>> = KeyIndex::new();
    for d in it: all
        invariant
            it.seq() == devices,
            shorts.wf(),
            longs@ == long_positions(infos(devices.take(it.index() as int))).map_values(
                |p: int| devices[p],
            ),
            indexes(shorts@, devices.take(it.index() as int)),
    {
        let ghost seen = devices.take(it.index() as int);
        let ghost upto = devices.take(it.index() + 1);
        let ghost before = shorts@;
        proof {
            assert(infos(upto).drop_last() == infos(seen));
            assert(infos(upto).last() == d.info);
            assert(upto.last() == d);
        }
        if is_long_node(&d.info) {
            proof {
                law_short_is_not_long(d.info.usage_page, d.info.usage_id);
            }
            longs.push(d);
        } else if is_short_node(&d.info) {
            if let Some(key) = pairing_key(&d.info) {
                shorts.insert(key, d);
            }
        }
        proof {
            assert forall|key: Seq<char>| #![trigger shorts@.contains_key(key)]
                match companion_position(infos(upto), key) {
                    Some(i) => shorts@.contains_key(key) && shorts@[key] == upto[i],
                    None => !shorts@.contains_key(key),
                } by {
                lemma_companion_position(infos(seen), key);
                assert(before.contains_key(key) == (companion_position(infos(seen), key) is Some));
                if let Some(i) = companion_position(infos(seen), key) {
                    assert(upto[i] == seen[i]);
                }
            }
        }
    }
    assert(devices.take(devices.len() as int) == devices);
    (longs, shorts)
}

/// The companions that the first `n` long-report nodes have left over.
spec fn unclaimed<H>(index: Map<Seq<char>, Device<H>>, all: Seq<Device<H>>, n: int) -> bool {
    forall|key: Seq<char>| #![trigger index.contains_key(key)]
        match companion_position(infos(all), key) {
            Some(i) => if claimed(infos(all), n, key) {
                !index.contains_key(key)
            } else {
                index.contains_key(key) && index[key] == all[i]
            },
            None => !index.contains_key(key),
        }
}

/// The HID++ nodes of an enumeration where the short and the long report have a
/// handle each: every Logitech long-report node, in the order in which they were
/// enumerated, with the short-report companion that has the same pairing key.
///
/// A companion goes to the first long-report node that asks for it. Of
/// companions with the same key the last one enumerated counts.
pub fn pair_hidpp_nodes<H>(all: Vec<Device<H>>) -> (nodes: Vec<WinHidppNode<H>>)
    ensures
        nodes@ == paired(all@),
{
    let ghost devices = all@;
    let ghost positions = long_positions(infos(devices));
    let (longs, mut shorts) = sift_nodes(all);
    let ghost long_devices = longs@;
    proof {
        assert(unclaimed(shorts@, devices, 0));
        law_every_long_node_once(infos(devices));
    }
    let mut nodes: Vec<WinHidppNode<H>> = Vec::new();
    for long in it: longs
        invariant
            it.seq() == long_devices,
            positions == long_positions(infos(devices)),
            long_devices == positions.map_values(|p: int| devices[p]),
            forall|i: int|
                0 <= i < positions.len() ==> 0 <= #[trigger] positions[i] < devices.len(),
            shorts.wf(),
            unclaimed(shorts@, devices, it.index() as int),
            nodes@ == paired(devices).take(it.index() as int),
    {
        let ghost n: int = it.index() as int;
        let ghost before = shorts@;
        let ghost info = long.info;
        assert(infos(devices)[positions[n]] == info);
        let short = match pairing_key(&long.info) {
            Some(key) => shorts.remove(&key),
            None => None,
        };
        proof {
            assert forall|key: Seq<char>|
                claimed(infos(devices), n + 1, key) == (claimed(infos(devices), n, key) || pairing_key_of(
                    info,
                ) == Some(key)) by {
                if pairing_key_of(info) == Some(key) {
                    assert(pairing_key_of(infos(devices)[positions[n]]) == Some(key));
                }
                if claimed(infos(devices), n + 1, key) && pairing_key_of(info) != Some(key) {
                    let j = choose|j: int|
                        0 <= j < n + 1 && pairing_key_of(
                            infos(devices)[#[trigger] long_positions(infos(devices))[j]],
                        ) == Some(key);
                    assert(j < n);
                }
            }
            assert forall|key: Seq<char>| #![trigger shorts@.contains_key(key)]
                match companion_position(infos(devices), key) {
                    Some(i) => if claimed(infos(devices), n + 1, key) {
                        !shorts@.contains_key(key)
                    } else {
                        shorts@.contains_key(key) && shorts@[key] == devices[i]
                    },
                    None => !shorts@.contains_key(key),
                } by {
                assert(before.contains_key(key) == (companion_position(
                    infos(devices),
                    key,
                ) is Some && !claimed(infos(devices), n, key)));
            }
            assert(short == device_at(devices, companion_of(infos(devices), n)));
        }
        nodes.push(WinHidppNode { long, short });
        assert(paired(devices).take(n + 1) == paired(devices).take(n).push(paired(devices)[n]));
    }
    assert(paired(devices).take(long_devices.len() as int) == paired(devices));
    nodes
}

/// Why a HID++ node has the companion that it has, or has none.
#[derive(Debug, Clone, Copy, PartialEq, Eq, Structural)]
pub enum CompanionStatus {
    /// The short-report companion was found.
    Paired,
    /// The transport is long-only, so none was to be expected.
    NotExpected,
    /// The transport has a short report, but its handle was not found: short
    /// HID++ requests will fail.
    Missing,
}

impl<H> core::ops::Deref for WinHidppNode<H> {
    type Target = DeviceInfo;

    /// What the enumeration says of the long-report node, to filter on before
    /// anything is opened.
    fn deref(&self) -> (info: &DeviceInfo)
        ensures
            *info == self.long.info,
    {
        &self.long.info
    }
}

impl<H> WinHidppNode<H> {
    /// How the search for the short-report companion ended.
    pub fn companion_status(&self) -> (status: CompanionStatus)
        ensures
            status == if self.short is Some {
                CompanionStatus::Paired
            } else if long_only_collection(self.long.info.usage_page, self.long.info.usage_id) {
                CompanionStatus::NotExpected
            } else {
                CompanionStatus::Missing
            },
    {
        if self.short.is_some() {
            CompanionStatus::Paired
        } else if is_long_only_collection(self.long.info.usage_page, self.long.info.usage_id) {
            CompanionStatus::NotExpected
        } else {
            CompanionStatus::Missing
        }
    }
}

/// Every long-report node of an enumeration makes one HID++ node, no other node
/// makes one, and the order is kept.
pub proof fn law_every_long_node_once(nodes: Seq<DeviceInfo>)
    ensures
        forall|i: int|
            0 <= i < long_positions(nodes).len() ==> {
                let p = #[trigger] long_positions(nodes)[i];
                0 <= p < nodes.len() && is_long(nodes[p])
            },
        forall|i: int, j: int|
            0 <= i < j < long_positions(nodes).len() ==> long_positions(nodes)[i] < long_positions(
                nodes,
            )[j],
        forall|p: int|
            0 <= p < nodes.len() && is_long(#[trigger] nodes[p]) ==> long_positions(nodes).contains(
                p,
            ),
    decreases nodes.len(),
{
    if nodes.len() > 0 {
        let head = nodes.drop_last();
        let positions = long_positions(nodes);
        law_every_long_node_once(head);
        assert forall|i: int| 0 <= i < positions.len() implies {
            let p = #[trigger] positions[i];
            0 <= p < nodes.len() && is_long(nodes[p])
        } by {
            if i < long_positions(head).len() {
                assert(positions[i] == long_positions(head)[i]);
                assert(head[positions[i]] == nodes[positions[i]]);
            }
        }
        assert forall|i: int, j: int| 0 <= i < j < positions.len() implies positions[i]
            < positions[j] by {
            assert(positions[i] == long_positions(head)[i]);
            if j < long_positions(head).len() {
                assert(positions[j] == long_positions(head)[j]);
            }
        }
        assert forall|p: int| 0 <= p < nodes.len() && is_long(#[trigger] nodes[p]) implies
            positions.contains(p) by {
            if p < nodes.len() - 1 {
                assert(head[p] == nodes[p]);
                let i = choose|i: int|
                    0 <= i < long_positions(head).len() && long_positions(head)[i] == p;
                assert(positions[i] == p);
            } else {
                assert(positions.last() == p);
            }
        }
    }
}

/// With or without companions, the same long-report devices are opened, in the
/// same order.
pub proof fn law_pairing_keeps_the_selection<H>(all: Seq<Device<H>>)
    ensures
        paired(all).map_values(|n: WinHidppNode<H>| n.long) == all.filter(
            |d: Device<H>| is_long(d.info),
        ),
{
    lemma_long_devices(all);
    assert(paired(all).map_values(|n: WinHidppNode<H>| n.long) =~= long_positions(
        infos(all),
    ).map_values(|p: int| all[p]));
}

/// The devices at the long positions are the long-report devices.
proof fn lemma_long_devices<H>(all: Seq<Device<H>>)
    ensures
        long_positions(infos(all)).map_values(|p: int| all[p]) == all.filter(
            |d: Device<H>| is_long(d.info),
        ),
    decreases all.len(),
{
    reveal(Seq::filter);
    if all.len() > 0 {
        let head = all.drop_last();
        lemma_long_devices(head);
        law_every_long_node_once(infos(head));
        assert(infos(all).drop_last() == infos(head));
        let front = long_positions(infos(head));
        assert(front.map_values(|p: int| all[p]) =~= front.map_values(|p: int| head[p]));
        assert(front.push(all.len() - 1).map_values(|p: int| all[p]) =~= front.map_values(
            |p: int| all[p],
        ).push(all.last()));
    }
}

/// A companion is a short-report node of the same enumeration with the pairing
/// key of its long-report node, and no long-report node itself. A node without
/// a pairing key gets none.
pub proof fn law_companion_fits(nodes: Seq<DeviceInfo>, i: int)
    requires
        0 <= i < long_positions(nodes).len(),
    ensures
        companion_of(nodes, i) matches Some(c) ==> {
            &&& 0 <= c < nodes.len()
            &&& is_short(nodes[c])
            &&& pairing_key_of(nodes[c]) is Some
            &&& pairing_key_of(nodes[c]) == pairing_key_of(nodes[long_positions(nodes)[i]])
            &&& !long_positions(nodes).contains(c)
        },
{
    if let Some(key) = pairing_key_of(nodes[long_positions(nodes)[i]]) {
        lemma_companion_position(nodes, key);
        law_every_long_node_once(nodes);
        if let Some(c) = companion_of(nodes, i) {
            law_short_is_not_long(nodes[c].usage_page, nodes[c].usage_id);
        }
    }
}

/// No short-report handle ends up in two HID++ nodes.
pub proof fn law_companions_are_not_shared(nodes: Seq<DeviceInfo>, i: int, j: int)
    requires
        0 <= i < long_positions(nodes).len(),
        0 <= j < long_positions(nodes).len(),
        i != j,
        companion_of(nodes, i) is Some,
    ensures
        companion_of(nodes, i) != companion_of(nodes, j),
{
    if companion_of(nodes, i) == companion_of(nodes, j) {
        law_companion_fits(nodes, i);
        law_companion_fits(nodes, j);
        let key = pairing_key_of(nodes[long_positions(nodes)[i]]).unwrap();
        if i < j {
            assert(claimed(nodes, j, key));
        } else {
            assert(claimed(nodes, i, key));
        }
    }
}

/// The first long-report node with a pairing key gets a companion whenever one
/// with that key was enumerated.
pub proof fn law_companion_is_found(nodes: Seq<DeviceInfo>, i: int, key: Seq<char>, c: int)
    requires
        0 <= i < long_positions(nodes).len(),
        pairing_key_of(nodes[long_positions(nodes)[i]]) == Some(key),
        forall|j: int|
            0 <= j < i ==> pairing_key_of(nodes[#[trigger] long_positions(nodes)[j]]) != Some(key),
        0 <= c < nodes.len(),
        is_companion(nodes[c], key),
    ensures
        companion_of(nodes, i) is Some,
        companion_of(nodes, i).unwrap() >= c,
{
    lemma_companion_position(nodes, key);
}

/// A long-report node and a short-report node with the same pairing key are
/// paired, unless an earlier long-report node or a later short-report node has
/// that key too.
pub proof fn law_siblings_are_paired(nodes: Seq<DeviceInfo>, long: int, short: int)
    requires
        0 <= long < nodes.len(),
        0 <= short < nodes.len(),
        is_long(nodes[long]),
        is_short(nodes[short]),
        pairing_key_of(nodes[long]) is Some,
        pairing_key_of(nodes[long]) == pairing_key_of(nodes[short]),
        forall|p: int|
            0 <= p < long && is_long(#[trigger] nodes[p]) ==> pairing_key_of(nodes[p]) != pairing_key_of(
                nodes[long],
            ),
        forall|p: int|
            short < p < nodes.len() && is_short(#[trigger] nodes[p]) ==> pairing_key_of(nodes[p])
                != pairing_key_of(nodes[long]),
    ensures
        exists|i: int|
            0 <= i < long_positions(nodes).len() && #[trigger] long_positions(nodes)[i] == long
                && companion_of(nodes, i) == Some(short),
{
    let key = pairing_key_of(nodes[long]).unwrap();
    law_every_long_node_once(nodes);
    let i = choose|i: int| 0 <= i < long_positions(nodes).len() && long_positions(nodes)[i] == long;
    assert(long_positions(nodes)[i] == long);
    assert(!claimed(nodes, i, key)) by {
        if claimed(nodes, i, key) {
            let j = choose|j: int|
                0 <= j < i && pairing_key_of(nodes[#[trigger] long_positions(nodes)[j]]) == Some(key);
            let p = long_positions(nodes)[j];
            assert(is_long(nodes[p]) && p < long);
        }
    }
    lemma_companion_position(nodes, key);
    let c = companion_position(nodes, key).unwrap();
    assert(is_companion(nodes[short], key));
    assert(is_short(nodes[c]) && c >= short);
}

/// The long and the short collection of one interface are paired: two nodes
/// whose paths differ in the collection token of the hardware id and in the
/// index that ends the instance id, and in nothing else. What stands in the way
/// is only an earlier long-report node or a later short-report node that has
/// their key too.
pub proof fn law_collections_of_one_interface_are_paired(
    nodes: Seq<DeviceInfo>,
    long: int,
    short: int,
    prefix: Seq<char>,
    before: Seq<Seq<char>>,
    short_token: Seq<char>,
    long_token: Seq<char>,
    after: Seq<Seq<char>>,
    instance: Seq<char>,
    short_index: Seq<char>,
    long_index: Seq<char>,
    class: Seq<char>,
)
    requires
        0 <= long < nodes.len(),
        0 <= short < nodes.len(),
        is_long(nodes[long]),
        is_short(nodes[short]),
        interface_parts(prefix, before.push(short_token) + after, instance, short_index),
        interface_parts(prefix, before.push(long_token) + after, instance, long_index),
        is_collection_token(lower(short_token)),
        is_collection_token(lower(long_token)),
        nodes[short].id matches DeviceId::UncPath(path) && path@ == interface_path(
            prefix,
            before.push(short_token) + after,
            instance,
            short_index,
            class,
        ),
        nodes[long].id matches DeviceId::UncPath(path) && path@ == interface_path(
            prefix,
            before.push(long_token) + after,
            instance,
            long_index,
            class,
        ),
        forall|p: int|
            0 <= p < long && is_long(#[trigger] nodes[p]) ==> pairing_key_of(nodes[p]) != pairing_key_of(
                nodes[long],
            ),
        forall|p: int|
            short < p < nodes.len() && is_short(#[trigger] nodes[p]) ==> pairing_key_of(nodes[p])
                != pairing_key_of(nodes[long]),
    ensures
        exists|i: int|
            0 <= i < long_positions(nodes).len() && #[trigger] long_positions(nodes)[i] == long
                && companion_of(nodes, i) == Some(short),
{
    law_key_of_interface_path(
        prefix,
        before.push(short_token) + after,
        instance,
        short_index,
        class,
    );
    law_key_of_interface_path(
        prefix,
        before.push(long_token) + after,
        instance,
        long_index,
        class,
    );
    law_collections_of_one_interface_share_a_key(
        prefix,
        before,
        short_token,
        long_token,
        after,
        instance,
        short_index,
        long_index,
        class,
    );
    law_siblings_are_paired(nodes, long, short);
}

/// A path of unexpected shape never pairs, and neither does a node without a
/// path: a node and its companion both have a path with a hardware id and an
/// instance id.
pub proof fn law_unrecognized_paths_never_pair(nodes: Seq<DeviceInfo>, i: int, c: int)
    requires
        0 <= i < long_positions(nodes).len(),
        companion_of(nodes, i) == Some(c),
    ensures
        nodes[long_positions(nodes)[i]].id matches DeviceId::UncPath(path) && recognized(path@),
        nodes[c].id matches DeviceId::UncPath(path) && recognized(path@),
{
    law_companion_fits(nodes, i);
}

/// Nodes of distinct interfaces, of one receiver or of two, are never paired: a
/// node and its companion agree in what is left of the hardware id and of the
/// instance id.
pub proof fn law_companions_are_of_one_interface(
    nodes: Seq<DeviceInfo>,
    i: int,
    short: int,
    long_path: String,
    short_path: String,
)
    requires
        0 <= i < long_positions(nodes).len(),
        companion_of(nodes, i) == Some(short),
        nodes[long_positions(nodes)[i]].id == DeviceId::UncPath(long_path),
        nodes[short].id == DeviceId::UncPath(short_path),
    ensures
        hardware_key(long_path@) == hardware_key(short_path@),
        instance_key(long_path@) == instance_key(short_path@),
{
    law_companion_fits(nodes, i);
    law_unrecognized_paths_never_pair(nodes, i, short);
    law_keys_tell_interfaces_apart(long_path@, short_path@);
}

/// The nodes of an enumeration are those of its devices, one for one.
pub proof fn law_infos_go_one_for_one<H>(all: Seq<Device<H>>)
    ensures
        infos(all).len() == all.len(),
        forall|i: int| 0 <= i < all.len() ==> #[trigger] infos(all)[i] == all[i].info,
{
}

/// Which device stands in `short` of a paired HID++ node. There is one exactly if
/// the long-report node has a pairing key, no earlier HID++ node has that key,
/// and some device of vendor `0x046d` and collection `0xff00/0x0001` has it; and
/// it is the last such device.
pub proof fn law_the_short_device_of_a_node<H>(all: Seq<Device<H>>, i: int)
    requires
        0 <= i < paired(all).len(),
    ensures
        ({
            let node = paired(all)[i];
            let key = pairing_key_of(node.long.info);
            &&& node.short is Some <==> {
                &&& key is Some
                &&& forall|j: int|
                    0 <= j < i ==> pairing_key_of((#[trigger] paired(all)[j]).long.info) != key
                &&& exists|s: int|
                    0 <= s < all.len() && (#[trigger] all[s]).info.vendor_id == 0x046d
                        && all[s].info.usage_page == 0xff00 && all[s].info.usage_id == 0x0001
                        && pairing_key_of(all[s].info) == key
            }
            &&& node.short is Some ==> exists|s: int|
                {
                    &&& 0 <= s < all.len()
                    &&& node.short == Some(#[trigger] all[s])
                    &&& all[s].info.vendor_id == 0x046d
                    &&& all[s].info.usage_page == 0xff00
                    &&& all[s].info.usage_id == 0x0001
                    &&& pairing_key_of(all[s].info) == key
                    &&& forall|t: int|
                        s < t < all.len() && (#[trigger] all[t]).info.vendor_id == 0x046d
                            && all[t].info.usage_page == 0xff00 && all[t].info.usage_id == 0x0001
                            ==> pairing_key_of(all[t].info) != key
                }
        }),
{
    let nodes = infos(all);
    let node = paired(all)[i];
    let key = pairing_key_of(node.long.info);
    law_every_long_node_once(nodes);
    assert forall|s: int| 0 <= s < all.len() implies (is_short((#[trigger] all[s]).info) <==> {
        &&& all[s].info.vendor_id == 0x046d
        &&& all[s].info.usage_page == 0xff00
        &&& all[s].info.usage_id == 0x0001
    }) && nodes[s] == all[s].info by {
        law_short_nodes(all[s].info);
    }
    assert forall|j: int| 0 <= j < paired(all).len() implies (#[trigger] paired(all)[j]).long.info
        == nodes[long_positions(nodes)[j]] by {
        assert(0 <= long_positions(nodes)[j] < nodes.len());
    }
    assert(node.long.info == nodes[long_positions(nodes)[i]]);
    if key is Some {
        let k = key.unwrap();
        lemma_companion_position(nodes, k);
        assert(claimed(nodes, i, k) <==> exists|j: int|
            0 <= j < i && pairing_key_of((#[trigger] paired(all)[j]).long.info) == key) by {
            if claimed(nodes, i, k) {
                let j = choose|j: int|
                    0 <= j < i && pairing_key_of(nodes[#[trigger] long_positions(nodes)[j]]) == Some(
                        k,
                    );
                assert(pairing_key_of(paired(all)[j].long.info) == key);
            }
            if exists|j: int|
                0 <= j < i && pairing_key_of((#[trigger] paired(all)[j]).long.info) == key {
                let j = choose|j: int|
                    0 <= j < i && pairing_key_of((#[trigger] paired(all)[j]).long.info) == key;
                assert(pairing_key_of(nodes[long_positions(nodes)[j]]) == Some(k));
            }
        }
        match companion_position(nodes, k) {
            Some(s) => {
                assert(is_companion(nodes[s], k));
                assert(is_short(all[s].info) && pairing_key_of(all[s].info) == key);
                assert forall|t: int|
                    s < t < all.len() && (#[trigger] all[t]).info.vendor_id == 0x046d
                        && all[t].info.usage_page == 0xff00 && all[t].info.usage_id
                        == 0x0001 implies pairing_key_of(all[t].info) != key by {
                    assert(!is_companion(nodes[t], k));
                }
            },
            None => {
                assert forall|s: int|
                    0 <= s < all.len() && (#[trigger] all[s]).info.vendor_id == 0x046d
                        && all[s].info.usage_page == 0xff00 && all[s].info.usage_id
                        == 0x0001 implies pairing_key_of(all[s].info) != key by {
                    assert(!is_companion(nodes[s], k));
                }
            },
        }
    }
}

/// The devices in `long` of the paired HID++ nodes, in numbers: those of vendor
/// `0x046d` in the collection `0xff00/0x0002` or `0xff43/0x0202`, in order.
pub proof fn law_the_long_devices_of_the_nodes<H>(all: Seq<Device<H>>)
    ensures
        paired(all).map_values(|n: WinHidppNode<H>| n.long) == all.filter(
            |d: Device<H>|
                d.info.vendor_id == 0x046d && {
                    ||| d.info.usage_page == 0xff00 && d.info.usage_id == 0x0002
                    ||| d.info.usage_page == 0xff43 && d.info.usage_id == 0x0202
                },
        ),
{
    law_pairing_keeps_the_selection(all);
    law_selection_goes_by_vendor_and_collection(all);
}

/// The two collections of one interface end up in one HID++ node: if a Logitech
/// long-report device and a short-report device have interface paths that differ
/// only in the `Col..` token of the hardware id and in the index that ends the
/// instance id, then some node has the one in `long` and the other in `short`.
/// What stands in the way is only an earlier long-report device or a later
/// short-report device with their key.
pub proof fn law_siblings_end_up_in_one_node<H>(
    all: Seq<Device<H>>,
    long: int,
    short: int,
    prefix: Seq<char>,
    before: Seq<char>,
    long_number: Seq<char>,
    short_number: Seq<char>,
    after: Seq<char>,
    instance: Seq<char>,
    long_index: Seq<char>,
    short_index: Seq<char>,
    rest: Seq<char>,
)
    requires
        0 <= long < all.len(),
        0 <= short < all.len(),
        all[long].info.vendor_id == 0x046d,
        (all[long].info.usage_page == 0xff00 && all[long].info.usage_id == 0x0002) || (
        all[long].info.usage_page == 0xff43 && all[long].info.usage_id == 0x0202),
        all[short].info.vendor_id == 0x046d,
        all[short].info.usage_page == 0xff00 && all[short].info.usage_id == 0x0001,
        all[long].info.id matches DeviceId::UncPath(path) && path@ == prefix + seq!['#'] + (before
            + seq!['C', 'o', 'l'] + long_number + after) + seq!['#'] + (instance + seq!['&']
            + long_index) + rest,
        all[short].info.id matches DeviceId::UncPath(path) && path@ == prefix + seq!['#'] + (before
            + seq!['C', 'o', 'l'] + short_number + after) + seq!['#'] + (instance + seq!['&']
            + short_index) + rest,
        !prefix.contains('#'),
        !before.contains('#'),
        !long_number.contains('#') && !long_number.contains('&'),
        !short_number.contains('#') && !short_number.contains('&'),
        !after.contains('#'),
        !instance.contains('#'),
        !long_index.contains('#') && !long_index.contains('&'),
        !short_index.contains('#') && !short_index.contains('&'),
        before.len() == 0 || before.last() == '&',
        after.len() == 0 || after[0] == '&',
        rest.len() == 0 || rest[0] == '#',
        forall|p: int|
            0 <= p < long && (#[trigger] all[p]).info.vendor_id == 0x046d && ((
            all[p].info.usage_page == 0xff00 && all[p].info.usage_id == 0x0002) || (
            all[p].info.usage_page == 0xff43 && all[p].info.usage_id == 0x0202))
                ==> pairing_key_of(all[p].info) != pairing_key_of(all[long].info),
        forall|p: int|
            short < p < all.len() && (#[trigger] all[p]).info.vendor_id == 0x046d
                && all[p].info.usage_page == 0xff00 && all[p].info.usage_id == 0x0001
                ==> pairing_key_of(all[p].info) != pairing_key_of(all[long].info),
    ensures
        exists|i: int|
            0 <= i < paired(all).len() && (#[trigger] paired(all)[i]).long == all[long] && paired(
                all,
            )[i].short == Some(all[short]),
{
    let nodes = infos(all);
    law_sibling_paths_share_a_key(
        prefix,
        prefix,
        before,
        long_number,
        short_number,
        after,
        instance,
        long_index,
        short_index,
        rest,
        rest,
    );
    law_sibling_paths_share_a_key(
        prefix,
        prefix,
        before,
        short_number,
        long_number,
        after,
        instance,
        short_index,
        long_index,
        rest,
        rest,
    );
    assert(pairing_key_of(all[long].info) is Some);
    assert(pairing_key_of(all[long].info) == pairing_key_of(all[short].info));
    law_long_nodes(nodes[long]);
    law_short_nodes(nodes[short]);
    assert forall|p: int| 0 <= p < long && is_long(#[trigger] nodes[p]) implies pairing_key_of(
        nodes[p],
    ) != pairing_key_of(nodes[long]) by {
        law_long_nodes(nodes[p]);
        assert(nodes[p] == all[p].info);
    }
    assert forall|p: int|
        short < p < nodes.len() && is_short(#[trigger] nodes[p]) implies pairing_key_of(nodes[p])
        != pairing_key_of(nodes[long]) by {
        law_short_nodes(nodes[p]);
        assert(nodes[p] == all[p].info);
    }
    law_siblings_are_paired(nodes, long, short);
    let i = choose|i: int|
        0 <= i < long_positions(nodes).len() && #[trigger] long_positions(nodes)[i] == long
            && companion_of(nodes, i) == Some(short);
    assert(paired(all)[i].long == all[long] && paired(all)[i].short == Some(all[short]));
}

/// Devices never pair across keys, and not without an interface path: the device
/// in `short` of a node and that in `long` both have a path, with two `#` or
/// more, and these have the same key.
pub proof fn law_nodes_hold_one_interface<H>(all: Seq<Device<H>>, i: int)
    requires
        0 <= i < paired(all).len(),
        paired(all)[i].short is Some,
    ensures
        ({
            let long = paired(all)[i].long.info.id;
            let short = paired(all)[i].short.unwrap().info.id;
            &&& long is UncPath
            &&& short is UncPath
            &&& collection_key(long->UncPath_0@) == collection_key(short->UncPath_0@)
            &&& exists|a: int, b: int|
                0 <= a < b < long->UncPath_0@.len() && long->UncPath_0@[a] == '#'
                    && long->UncPath_0@[b] == '#'
            &&& exists|a: int, b: int|
                0 <= a < b < short->UncPath_0@.len() && short->UncPath_0@[a] == '#'
                    && short->UncPath_0@[b] == '#'
        }),
{
    law_the_short_device_of_a_node(all, i);
    let long = paired(all)[i].long.info;
    let short = paired(all)[i].short.unwrap().info;
    if let DeviceId::UncPath(path) = long.id {
        law_keys_come_from_the_path(long, path);
    } else {
        law_keys_come_from_the_path(long, arbitrary());
    }
    if let DeviceId::UncPath(path) = short.id {
        law_keys_come_from_the_path(short, path);
    } else {
        law_keys_come_from_the_path(short, arbitrary());
    }
}

} // verus!
