//! HID nodes as an enumeration reports them.

use vstd::prelude::*;
use crate::collection::{
    is_hidpp_long_collection, law_known_transports, law_short_companion_collection, long_collection, short_collection, HIDPP_SHORT_COLLECTION,
    LOGITECH_VID,
};
use crate::path::{
    collection_key, is_recognized, law_recognized_paths_have_two_hashes, normalize_collection_path,
    recognized,
};

verus! {

/// The identifier that the operating system gives a node.
#[derive(Debug)]
pub enum DeviceId {
    /// The interface path of a node on Windows.
    UncPath(String),
    /// The identifier of any other platform. Nothing depends on what it holds.
    Other,
}

/// What is known of a node before it is opened.
#[derive(Debug)]
pub struct DeviceInfo {
    /// Identifier of the operating system.
    pub id: DeviceId,
    /// HID vendor id.
    pub vendor_id: u16,
    /// HID product id.
    pub product_id: u16,
    /// HID usage page.
    pub usage_page: u16,
    /// HID usage id.
    pub usage_id: u16,
}

/// An enumerated node, with the handle by which it can be opened.
#[derive(Debug)]
pub struct Device<H> {
    /// What the enumeration says of the node.
    pub info: DeviceInfo,
    /// The handle. It is moved along and never looked at.
    pub handle: H,
}

/// The key by which the node is grouped with its sibling collections, if its
/// identifier gives one.
pub open spec fn key_of(info: DeviceInfo) -> Option<Seq<char>> {
    match info.id {
        DeviceId::UncPath(path) => Some(collection_key(path@)),
        DeviceId::Other => None,
    }
}

/// The grouping key by which the node may be paired: that of an interface path
/// with a hardware id and an instance id. A path of another shape never pairs.
pub open spec fn pairing_key_of(info: DeviceInfo) -> Option<Seq<char>> {
    match info.id {
        DeviceId::UncPath(path) => if recognized(path@) {
            Some(collection_key(path@))
        } else {
            None
        },
        DeviceId::Other => None,
    }
}

/// A Logitech node that carries the HID++ long report.
pub open spec fn is_long(info: DeviceInfo) -> bool {
    info.vendor_id == LOGITECH_VID && long_collection(info.usage_page, info.usage_id)
}

/// A Logitech node that is the short-report companion of another.
pub open spec fn is_short(info: DeviceInfo) -> bool {
    info.vendor_id == LOGITECH_VID && short_collection(info.usage_page, info.usage_id)
}

/// Whether the node is a Logitech node that carries the HID++ long report.
pub fn is_long_node(info: &DeviceInfo) -> (long: bool)
    ensures
        long == is_long(*info),
{
    info.vendor_id == LOGITECH_VID && is_hidpp_long_collection(info.usage_page, info.usage_id)
}

/// Whether the node is a Logitech node that is the short-report companion of
/// another.
pub fn is_short_node(info: &DeviceInfo) -> (short: bool)
    ensures
        short == is_short(*info),
{
    info.vendor_id == LOGITECH_VID && info.usage_page == HIDPP_SHORT_COLLECTION.0 && info.usage_id
        == HIDPP_SHORT_COLLECTION.1
}

/// A key shared by the short and long HID++ collections of the same physical
/// interface, or `None` for a node without an interface path.
pub fn grouping_key(info: &DeviceInfo) -> (key: Option<String>)
    ensures
        match key {
            Some(key) => key_of(*info) == Some(key@),
            None => key_of(*info) is None,
        },
{
    match &info.id {
        DeviceId::UncPath(path) => Some(normalize_collection_path(path.as_str())),
        DeviceId::Other => None,
    }
}

/// The grouping key by which the node may be paired, or `None` where its
/// identifier is no interface path, or one of unexpected shape: such a node is
/// left a single handle of its own.
pub fn pairing_key(info: &DeviceInfo) -> (key: Option<String>)
    ensures
        match key {
            Some(key) => pairing_key_of(*info) == Some(key@),
            None => pairing_key_of(*info) is None,
        },
{
    match &info.id {
        DeviceId::UncPath(path) => if is_recognized(path.as_str()) {
            grouping_key(info)
        } else {
            None
        },
        DeviceId::Other => None,
    }
}

/// Whether a node gets a line in the diagnostics, which is so of the Logitech
/// nodes, and if so, whether it was recognized as a HID++ long-report node.
pub fn logitech_match(info: &DeviceInfo) -> (matched: Option<bool>)
    ensures
        matched == if info.vendor_id == LOGITECH_VID {
            Some(long_collection(info.usage_page, info.usage_id))
        } else {
            None
        },
{
    if info.vendor_id == LOGITECH_VID {
        Some(is_hidpp_long_collection(info.usage_page, info.usage_id))
    } else {
        None
    }
}

/// A node is a HID++ long-report node exactly by its vendor and its collection,
/// whatever its product id and its identifier are.
pub proof fn law_long_nodes(info: DeviceInfo)
    ensures
        is_long(info) <==> info.vendor_id == 0x046d && {
            ||| info.usage_page == 0xff00 && info.usage_id == 0x0002
            ||| info.usage_page == 0xff43 && info.usage_id == 0x0202
        },
{
    law_known_transports(info.usage_page, info.usage_id);
}

/// A node is a short-report companion exactly by its vendor and its collection,
/// whatever its product id and its identifier are.
pub proof fn law_short_nodes(info: DeviceInfo)
    ensures
        is_short(info) <==> info.vendor_id == 0x046d && info.usage_page == 0xff00 && info.usage_id
            == 0x0001,
{
    law_short_companion_collection(info.usage_page, info.usage_id);
}

/// Every interface path gives its node a grouping key, the key of the path, and
/// nothing else of the node counts. The node may be paired by it if the path has
/// two `#` or more.
pub proof fn law_keys_come_from_the_path(info: DeviceInfo, path: String)
    ensures
        info.id == DeviceId::UncPath(path) ==> {
            &&& key_of(info) == Some(collection_key(path@))
            &&& (exists|i: int, j: int|
                0 <= i < j < path@.len() && path@[i] == '#' && path@[j] == '#')
                ==> pairing_key_of(info) == Some(collection_key(path@))
            &&& !(exists|i: int, j: int|
                0 <= i < j < path@.len() && path@[i] == '#' && path@[j] == '#')
                ==> pairing_key_of(info) is None
        },
        info.id is Other ==> key_of(info) is None && pairing_key_of(info) is None,
{
    law_recognized_paths_have_two_hashes(path@);
}

} // verus!
