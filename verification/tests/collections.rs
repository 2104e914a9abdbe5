use openlogi_hid::collection::{
    is_hidpp_long_collection, is_long_only_collection, HIDPP_LONG_COLLECTIONS,
    HIDPP_SHORT_COLLECTION, LOGITECH_VID,
};

#[test]
fn matches_both_usb_and_ble_hidpp_collections() {
    assert!(is_hidpp_long_collection(0xff00, 0x0002)); // USB / receiver / BT-classic
    assert!(is_hidpp_long_collection(0xff43, 0x0202)); // BLE-direct (Lift, Signature)
    assert!(!is_hidpp_long_collection(0x0001, 0x0002)); // generic-desktop mouse
    assert!(!is_hidpp_long_collection(0xff43, 0x0002)); // page right, usage wrong
}

#[test]
fn only_ble_collection_is_long_only() {
    assert!(is_long_only_collection(0xff43, 0x0202)); // BLE-direct: short-unsupported
    assert!(!is_long_only_collection(0xff00, 0x0002)); // USB / receiver carries both reports
    assert!(!is_long_only_collection(0x0001, 0x0002)); // not a HID++ collection at all
}

#[test]
fn the_table_is_what_is_matched() {
    assert_eq!(LOGITECH_VID, 0x046d);
    for (page, usage, long_only) in HIDPP_LONG_COLLECTIONS {
        assert!(is_hidpp_long_collection(page, usage));
        assert_eq!(is_long_only_collection(page, usage), long_only);
    }
}

#[test]
fn the_short_companion_is_no_long_collection() {
    let (page, usage) = HIDPP_SHORT_COLLECTION;
    assert_eq!((page, usage), (0xff00, 0x0001));
    assert!(!is_hidpp_long_collection(page, usage));
    assert!(!is_long_only_collection(page, usage));
}
