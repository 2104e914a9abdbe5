use openlogi_hid::device::{grouping_key, pairing_key, DeviceId, DeviceInfo};
use openlogi_hid::path::{is_recognized, normalize_collection_path};

fn info(id: DeviceId) -> DeviceInfo {
    DeviceInfo { id, vendor_id: 0x046d, product_id: 0xc548, usage_page: 0xff00, usage_id: 0x0002 }
}

#[test]
fn short_and_long_collections_of_one_interface_share_a_grouping_key() {
    // Real Bolt receiver paths: the short (Col01) and long (Col02) HID++
    // collections of interface MI_02 must collapse to the same key.
    let short = normalize_collection_path(
        r"\\?\HID#VID_046D&PID_C548&MI_02&Col01#7&348660ac&0&0000#{4d1e55b2-f16f-11cf-88cb-001111000030}",
    );
    let long = normalize_collection_path(
        r"\\?\HID#VID_046D&PID_C548&MI_02&Col02#7&348660ac&0&0001#{4d1e55b2-f16f-11cf-88cb-001111000030}",
    );
    assert_eq!(short, long);
    assert_eq!(short, "vid_046d&pid_c548&mi_02#7&348660ac&0");
}

#[test]
fn distinct_interfaces_do_not_share_a_grouping_key() {
    // A different interface (MI_01) on the same receiver has its own instance
    // hash, so it must not pair with MI_02's HID++ collections.
    let mi01 = normalize_collection_path(
        r"\\?\HID#VID_046D&PID_C548&MI_01&Col02#7&1cc2d467&0&0001#{4d1e55b2-f16f-11cf-88cb-001111000030}",
    );
    let mi02 = normalize_collection_path(
        r"\\?\HID#VID_046D&PID_C548&MI_02&Col02#7&348660ac&0&0001#{4d1e55b2-f16f-11cf-88cb-001111000030}",
    );
    assert_ne!(mi01, mi02);
}

#[test]
fn distinct_physical_receivers_do_not_share_a_grouping_key() {
    // Two identical Bolt receivers plugged in at once must not cross-pair: each
    // physical device has a distinct instance hash, which the key preserves.
    let recv_a = normalize_collection_path(
        r"\\?\HID#VID_046D&PID_C548&MI_02&Col01#7&348660ac&0&0000#{4d1e55b2-f16f-11cf-88cb-001111000030}",
    );
    let recv_b = normalize_collection_path(
        r"\\?\HID#VID_046D&PID_C548&MI_02&Col01#7&9f1be20c&0&0000#{4d1e55b2-f16f-11cf-88cb-001111000030}",
    );
    assert_ne!(recv_a, recv_b);

    // A Bolt + a Unifying receiver (different PID) must also stay distinct.
    let bolt = normalize_collection_path(
        r"\\?\HID#VID_046D&PID_C548&MI_02&Col02#7&348660ac&0&0001#{4d1e55b2-f16f-11cf-88cb-001111000030}",
    );
    let unifying = normalize_collection_path(
        r"\\?\HID#VID_046D&PID_C52B&MI_02&Col02#7&1a2b3c4d&0&0001#{4d1e55b2-f16f-11cf-88cb-001111000030}",
    );
    assert_ne!(bolt, unifying);
}

#[test]
fn a_path_of_another_shape_is_its_own_key() {
    assert_eq!(normalize_collection_path(""), "");
    assert_eq!(normalize_collection_path("/dev/HIDRAW3"), "/dev/hidraw3");
    assert_eq!(normalize_collection_path("A&Col01#B&0"), "a&col01#b&0");
}

#[test]
fn two_separators_are_enough() {
    assert_eq!(normalize_collection_path("##"), "#");
    assert_eq!(normalize_collection_path("X#A&COL1&B#I&0"), "a&b#i");
    assert_eq!(normalize_collection_path("X#A#I&0#c#d&e"), "a#i");
}

#[test]
fn an_instance_id_of_one_segment_stays() {
    assert_eq!(normalize_collection_path("x#hw#inst#{guid}"), "hw#inst");
    assert_eq!(normalize_collection_path("x#hw#inst&#{guid}"), "hw#inst");
    assert_eq!(normalize_collection_path("x#hw#&inst#{guid}"), "hw#");
}

#[test]
fn only_tokens_that_start_with_col_are_dropped() {
    assert_eq!(normalize_collection_path("x#co&col&colour&xcol&COL9&#i"), "co&xcol&#i");
    assert_eq!(normalize_collection_path("x#col01#i"), "#i");
    assert_eq!(normalize_collection_path("x#&&#i"), "&&#i");
}

#[test]
fn case_is_folded_for_ascii_letters_alone() {
    assert_eq!(
        normalize_collection_path("p#VID_AZ[@`{&\u{c4}\u{df}#I&1"),
        "vid_az[@`{&\u{c4}\u{df}#i"
    );
    assert_eq!(normalize_collection_path("P#A#B"), normalize_collection_path("p#a#b"));
}

#[test]
fn an_odd_path_may_spell_the_key_of_another() {
    // One `#` makes no hardware and instance id, but a key looks just like it.
    assert_eq!(normalize_collection_path("a#b"), normalize_collection_path("x#a#b&0"));
    // Without a `#` there is no such meeting.
    assert_ne!(normalize_collection_path("ab"), normalize_collection_path("x#a#b&0"));
}

#[test]
fn hardware_ids_with_nothing_left_may_meet() {
    assert_eq!(normalize_collection_path("x#col1#i&0"), normalize_collection_path("x##i&0"));
}

#[test]
fn only_interface_paths_have_a_grouping_key() {
    let key = grouping_key(&info(DeviceId::UncPath("x#A&Col02#I&0001#g".to_string())));
    assert_eq!(key, Some("a#i".to_string()));
    assert_eq!(grouping_key(&info(DeviceId::Other)), None);
}

#[test]
fn only_recognized_paths_have_a_pairing_key() {
    let key = |path: &str| pairing_key(&info(DeviceId::UncPath(path.to_string())));
    assert_eq!(key("x#A&Col02#I&0001#g"), Some("a#i".to_string()));
    assert_eq!(key("a#i"), None);
    assert_eq!(key(""), None);
    assert_eq!(pairing_key(&info(DeviceId::Other)), None);
    assert!(is_recognized("##"));
    assert!(!is_recognized("#"));
    // It still has a grouping key.
    let odd = info(DeviceId::UncPath("A#I".to_string()));
    assert_eq!(grouping_key(&odd), Some("a#i".to_string()));
}
