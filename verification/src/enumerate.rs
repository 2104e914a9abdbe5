//! From the nodes of an enumeration to the HID++ nodes to open.

use vstd::prelude::*;
use crate::device::{is_long, is_long_node, law_long_nodes, Device, DeviceInfo};

verus! {

/// A HID++ node behind one handle, which carries both report ids.
#[derive(Debug)]
pub struct HidppNode<H> {
    /// The enumerated node.
    pub dev: Device<H>,
}

impl<H> core::ops::Deref for HidppNode<H> {
    type Target = DeviceInfo;

    /// What the enumeration says of the node, to filter on before it is opened.
    fn deref(&self) -> (info: &DeviceInfo)
        ensures
            *info == self.dev.info,
    {
        &self.dev.info
    }
}

/// The HID++ nodes of an enumeration where one handle carries both report ids:
/// the Logitech long-report nodes, in the order in which they were enumerated.
pub fn select_hidpp_nodes<H>(all: Vec<Device<H>>) -> (nodes: Vec<HidppNode<H>>)
    ensures
        nodes@ == all@.filter(|d: Device<H>| is_long(d.info)).map_values(
            |d: Device<H>| (HidppNode { dev: d }),
        ),
{
    let ghost devices = all@;
    let ghost pred = |d: Device<H>| is_long(d.info);
    let ghost node = |d: Device<H>| (HidppNode { dev: d });
    let mut nodes: Vec<HidppNode<H>> = Vec::new();
    proof {
        reveal(Seq::filter);
        assert(nodes@ == devices.take(0).filter(pred).map_values(node));
    }
    for d in it: all
        invariant
            it.seq() == devices,
            pred == (|d: Device<H>| is_long(d.info)),
            node == (|d: Device<H>| (HidppNode { dev: d })),
            nodes@ == devices.take(it.index() as int).filter(pred).map_values(node),
    {
        proof {
            reveal(Seq::filter);
            let upto = devices.take(it.index() + 1);
            assert(upto.drop_last() == devices.take(it.index() as int));
            assert(upto.last() == d);
        }
        if is_long_node(&d.info) {
            nodes.push(HidppNode { dev: d });
        }
    }
    assert(devices.take(devices.len() as int) == devices);
    nodes
}

/// What [`select_hidpp_nodes`] keeps, in numbers: the devices of vendor `0x046d`
/// in the collection `0xff00/0x0002` or `0xff43/0x0202`, whatever else is known
/// of them.
pub proof fn law_selection_goes_by_vendor_and_collection<H>(all: Seq<Device<H>>)
    ensures
        all.filter(|d: Device<H>| is_long(d.info)) == all.filter(
            |d: Device<H>|
                d.info.vendor_id == 0x046d && {
                    ||| d.info.usage_page == 0xff00 && d.info.usage_id == 0x0002
                    ||| d.info.usage_page == 0xff43 && d.info.usage_id == 0x0202
                },
        ),
    decreases all.len(),
{
    reveal(Seq::filter);
    if all.len() > 0 {
        law_selection_goes_by_vendor_and_collection(all.drop_last());
        law_long_nodes(all.last().info);
    }
}

} // verus!
