use openlogi_hid::device::{is_long_node, is_short_node, logitech_match, Device, DeviceId, DeviceInfo};
use openlogi_hid::enumerate::select_hidpp_nodes;
use openlogi_hid::index::KeyIndex;
use openlogi_hid::pairing::{pair_hidpp_nodes, CompanionStatus, WinHidppNode};

const LOGITECH: u16 = 0x046d;

fn node(handle: u32, vendor_id: u16, usage_page: u16, usage_id: u16, id: DeviceId) -> Device<u32> {
    let info = DeviceInfo { id, vendor_id, product_id: 0xc548, usage_page, usage_id };
    Device { info, handle }
}

fn path(interface: &str, collection: u32) -> DeviceId {
    DeviceId::UncPath(format!(
        r"\\?\HID#VID_046D&PID_C548&MI_02&Col0{}#7&{}&0&000{}#{{guid}}",
        collection,
        interface,
        collection - 1
    ))
}

fn short(handle: u32, interface: &str) -> Device<u32> {
    node(handle, LOGITECH, 0xff00, 0x0001, path(interface, 1))
}

fn long(handle: u32, interface: &str) -> Device<u32> {
    node(handle, LOGITECH, 0xff00, 0x0002, path(interface, 2))
}

fn handles(nodes: &Vec<WinHidppNode<u32>>) -> Vec<(u32, Option<u32>)> {
    nodes.iter().map(|n| (n.long.handle, n.short.as_ref().map(|s| s.handle))).collect()
}

#[test]
fn single_handle_platforms_take_the_long_nodes_in_order() {
    let all = vec![
        node(1, LOGITECH, 0x0001, 0x0002, DeviceId::Other),
        node(2, LOGITECH, 0xff43, 0x0202, DeviceId::Other),
        node(3, 0x1234, 0xff00, 0x0002, DeviceId::Other),
        node(4, LOGITECH, 0xff00, 0x0001, DeviceId::Other),
        node(5, LOGITECH, 0xff00, 0x0002, DeviceId::Other),
    ];
    let nodes = select_hidpp_nodes(all);
    let taken: Vec<u32> = nodes.iter().map(|n| n.dev.handle).collect();
    assert_eq!(taken, vec![2, 5]);
    assert_eq!(nodes[0].usage_page, 0xff43);
    assert_eq!((nodes[1].vendor_id, nodes[1].product_id), (LOGITECH, 0xc548));
}

#[test]
fn an_empty_enumeration_has_no_nodes() {
    assert_eq!(select_hidpp_nodes(Vec::<Device<u32>>::new()).len(), 0);
    assert_eq!(pair_hidpp_nodes(Vec::<Device<u32>>::new()).len(), 0);
}

#[test]
fn siblings_are_paired_whatever_their_order() {
    let nodes = pair_hidpp_nodes(vec![short(1, "aa"), long(2, "aa")]);
    assert_eq!(handles(&nodes), vec![(2, Some(1))]);
    let nodes = pair_hidpp_nodes(vec![long(2, "aa"), short(1, "aa")]);
    assert_eq!(handles(&nodes), vec![(2, Some(1))]);
}

#[test]
fn two_receivers_do_not_cross_pair() {
    let nodes =
        pair_hidpp_nodes(vec![short(1, "aa"), long(2, "bb"), short(3, "bb"), long(4, "aa")]);
    assert_eq!(handles(&nodes), vec![(2, Some(3)), (4, Some(1))]);
}

#[test]
fn a_companion_goes_to_the_first_long_node() {
    let nodes = pair_hidpp_nodes(vec![long(1, "aa"), long(2, "aa"), short(3, "aa")]);
    assert_eq!(handles(&nodes), vec![(1, Some(3)), (2, None)]);
}

#[test]
fn the_last_companion_with_a_key_counts() {
    let nodes = pair_hidpp_nodes(vec![short(1, "aa"), short(2, "aa"), long(3, "aa")]);
    assert_eq!(handles(&nodes), vec![(3, Some(2))]);
}

#[test]
fn foreign_and_unrelated_nodes_are_left_out() {
    let all = vec![
        node(1, 0x1234, 0xff00, 0x0001, path("aa", 1)),
        node(2, LOGITECH, 0x0001, 0x0002, path("aa", 3)),
        long(3, "aa"),
        node(4, 0x1234, 0xff00, 0x0002, path("aa", 2)),
    ];
    assert_eq!(handles(&pair_hidpp_nodes(all)), vec![(3, None)]);
}

#[test]
fn nodes_without_an_interface_path_never_pair() {
    let all = vec![
        node(1, LOGITECH, 0xff00, 0x0001, DeviceId::Other),
        node(2, LOGITECH, 0xff00, 0x0002, DeviceId::Other),
    ];
    assert_eq!(handles(&pair_hidpp_nodes(all)), vec![(2, None)]);
}

#[test]
fn a_path_of_unexpected_shape_never_pairs() {
    let unc = |path: &str| DeviceId::UncPath(path.to_string());
    let long = |path: &str| node(1, LOGITECH, 0xff00, 0x0002, unc(path));
    let short = |path: &str| node(2, LOGITECH, 0xff00, 0x0001, unc(path));
    // One `#`: the text spells the key of the other path.
    assert_eq!(handles(&pair_hidpp_nodes(vec![long("a#b"), short("x#a#b&0#g")])), vec![(1, None)]);
    assert_eq!(handles(&pair_hidpp_nodes(vec![long("x#a#b&0#g"), short("a#b")])), vec![(1, None)]);
    // The same unexpected path twice.
    assert_eq!(handles(&pair_hidpp_nodes(vec![short("ab"), long("AB")])), vec![(1, None)]);
    // An unexpected path takes no companion from the node that it belongs to.
    let all = vec![node(3, LOGITECH, 0xff00, 0x0002, unc("a#b")), long("x#a&Col02#b&1#g"), short("x#a&Col01#b&0#g")];
    assert_eq!(handles(&pair_hidpp_nodes(all)), vec![(3, None), (1, Some(2))]);
}

#[test]
fn pairing_keeps_the_selection() {
    let all = || {
        vec![
            long(1, "aa"),
            short(2, "aa"),
            node(3, LOGITECH, 0xff43, 0x0202, path("cc", 1)),
            node(4, LOGITECH, 0x0001, 0x0006, path("aa", 4)),
            long(5, "bb"),
        ]
    };
    let single: Vec<u32> = select_hidpp_nodes(all()).iter().map(|n| n.dev.handle).collect();
    let paired: Vec<u32> = pair_hidpp_nodes(all()).iter().map(|n| n.long.handle).collect();
    assert_eq!(single, vec![1, 3, 5]);
    assert_eq!(paired, single);
}

#[test]
fn the_status_tells_a_missing_companion_from_one_not_expected() {
    let nodes = pair_hidpp_nodes(vec![
        long(1, "aa"),
        short(2, "aa"),
        long(3, "bb"),
        node(4, LOGITECH, 0xff43, 0x0202, path("cc", 1)),
    ]);
    let status: Vec<CompanionStatus> = nodes.iter().map(|n| n.companion_status()).collect();
    assert_eq!(
        status,
        vec![CompanionStatus::Paired, CompanionStatus::Missing, CompanionStatus::NotExpected]
    );
    assert_eq!(nodes[2].usage_id, 0x0202);
}

#[test]
fn node_kinds() {
    assert!(is_long_node(&long(1, "aa").info) && !is_short_node(&long(1, "aa").info));
    assert!(is_short_node(&short(1, "aa").info) && !is_long_node(&short(1, "aa").info));
    let foreign = node(1, 0x1234, 0xff00, 0x0001, DeviceId::Other);
    assert!(!is_short_node(&foreign.info));
}

#[test]
fn only_logitech_nodes_are_diagnosed() {
    assert_eq!(logitech_match(&long(1, "aa").info), Some(true));
    assert_eq!(logitech_match(&short(1, "aa").info), Some(false));
    assert_eq!(logitech_match(&node(1, 0x1234, 0xff00, 0x0002, DeviceId::Other).info), None);
}

#[test]
fn an_index_holds_each_key_once() {
    let mut index: KeyIndex<u32> = KeyIndex::new();
    index.insert("a".to_string(), 1);
    index.insert("b".to_string(), 2);
    index.insert("c".to_string(), 3);
    index.insert("a".to_string(), 4);
    assert_eq!(index.remove(&"a".to_string()), Some(4));
    assert_eq!(index.remove(&"a".to_string()), None);
    assert_eq!(index.remove(&"c".to_string()), Some(3));
    assert_eq!(index.remove(&"b".to_string()), Some(2));
    assert_eq!(index.remove(&"".to_string()), None);
}
