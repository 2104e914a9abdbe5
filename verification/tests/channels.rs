use openlogi_hid::channel::{
    deliver_report, opened_channel, report_written, AsyncHidChannel, WinDualChannel,
    WIN_READ_BUF_LEN,
};
use openlogi_hid::device::{Device, DeviceId, DeviceInfo};
use openlogi_hid::opening::WinOpening;
use openlogi_hid::pairing::WinHidppNode;

const REASON: &str = "get_report_descriptor is not implemented; pre-filter to HID++ usage pages";

fn info(usage_page: u16, usage_id: u16) -> DeviceInfo {
    DeviceInfo { id: DeviceId::Other, vendor_id: 0x046d, product_id: 0xc548, usage_page, usage_id }
}

fn dual(short: Option<(u8, u16)>) -> WinDualChannel<u8, u16> {
    WinDualChannel::new(1, 10, short, info(0xff00, 0x0002))
}

fn paired(short: Option<&'static str>) -> WinHidppNode<&'static str> {
    WinHidppNode {
        long: Device { info: info(0xff00, 0x0002), handle: "long" },
        short: short.map(|handle| Device { info: info(0xff00, 0x0001), handle }),
    }
}

#[test]
fn reports_are_routed_by_their_id() {
    let channel = dual(Some((2, 20)));
    assert_eq!(*channel.writer_for(&[hidpp::channel::SHORT_REPORT_ID, 0xff, 0x81]), 20);
    assert_eq!(*channel.writer_for(&[0x10]), 20);
    assert_eq!(*channel.writer_for(&[hidpp::channel::LONG_REPORT_ID, 0x10]), 10);
    assert_eq!(*channel.writer_for(&[0x00, 0x10]), 10);
    assert_eq!(*channel.writer_for(&[]), 10);
}

#[test]
fn without_a_short_handle_everything_goes_long() {
    let channel = dual(None);
    assert_eq!(*channel.writer_for(&[0x10, 0xff]), 10);
    assert_eq!(*channel.writer_for(&[0x11, 0xff]), 10);
}

#[test]
fn reads_come_from_every_handle_there_is() {
    assert_eq!(dual(Some((2, 20))).readers(), (&1, Some(&2)));
    assert_eq!(dual(None).readers(), (&1, None));
}

#[test]
fn short_support_is_a_short_handle() {
    assert_eq!(dual(Some((2, 20))).supports_short_long_hidpp(), Some((true, true)));
    assert_eq!(dual(None).supports_short_long_hidpp(), Some((false, true)));
}

#[test]
fn no_companion_is_the_long_only_single_handle() {
    let single = AsyncHidChannel::new(1u8, 10u16, info(0xff00, 0x0002), true);
    assert_eq!(single.supports_short_long_hidpp(), dual(None).supports_short_long_hidpp());
    assert_eq!(single.writer(), dual(None).writer_for(&[0x10]));
    assert_eq!(single.reader(), dual(None).readers().0);
}

#[test]
fn a_single_handle_is_long_only_on_the_ble_page() {
    let usb = AsyncHidChannel::for_node(1u8, 10u16, info(0xff00, 0x0002));
    assert_eq!(usb.supports_short_long_hidpp(), Some((true, true)));
    let ble = AsyncHidChannel::for_node(1u8, 10u16, info(0xff43, 0x0202));
    assert_eq!(ble.supports_short_long_hidpp(), Some((false, true)));
    assert_eq!((*ble.reader(), *ble.writer()), (1, 10));
}

#[test]
fn channels_know_their_device() {
    let single = AsyncHidChannel::new(1u8, 10u16, info(0xff00, 0x0002), false);
    assert_eq!((single.vendor_id(), single.product_id()), (0x046d, 0xc548));
    assert_eq!((dual(None).vendor_id(), dual(None).product_id()), (0x046d, 0xc548));
    assert_eq!(single.supports_short_long_hidpp(), Some((true, true)));
}

#[test]
fn report_descriptors_are_refused() {
    let mut buf = [1u8, 2, 3];
    let single = AsyncHidChannel::new(1u8, 10u16, info(0xff00, 0x0002), false);
    assert_eq!(single.get_report_descriptor(&mut buf), Err(REASON));
    assert_eq!(dual(None).get_report_descriptor(&mut buf), Err(REASON));
    assert_eq!(buf, [1, 2, 3]);
}

#[test]
fn a_report_is_cut_to_the_buffer() {
    let mut report = [0u8; WIN_READ_BUF_LEN];
    report[..4].copy_from_slice(&[0x11, 1, 2, 3]);
    let mut large = [9u8; 6];
    assert_eq!(deliver_report::<()>(Ok((4, report)), &mut large), Ok(4));
    assert_eq!(large, [0x11, 1, 2, 3, 9, 9]);
    let mut small = [9u8; 2];
    assert_eq!(deliver_report::<()>(Ok((4, report)), &mut small), Ok(2));
    assert_eq!(small, [0x11, 1]);
    let mut none: [u8; 0] = [];
    assert_eq!(deliver_report::<()>(Ok((4, report)), &mut none), Ok(0));
    let mut all = [9u8; 80];
    assert_eq!(deliver_report::<()>(Ok((64, report)), &mut all), Ok(64));
    assert_eq!((all[63], all[64]), (0, 9));
}

#[test]
fn a_failed_read_leaves_the_buffer() {
    let mut buf = [9u8; 3];
    assert_eq!(deliver_report(Err("gone"), &mut buf), Err("gone"));
    assert_eq!(buf, [9, 9, 9]);
}

#[test]
fn a_report_is_written_whole_or_not() {
    assert_eq!(report_written::<()>(&[0x10; 7], Ok(())), Ok(7));
    assert_eq!(report_written(&[0x10; 7], Err("gone")), Err("gone"));
}

#[test]
fn a_refused_channel_is_no_error() {
    assert_eq!(opened_channel::<u8, u8, ()>(1, Ok(2)), Some((1, 2)));
    assert_eq!(opened_channel::<u8, u8, &str>(1, Err("not HID++")), None);
}

#[test]
fn a_paired_node_is_opened_long_handle_first() {
    let opening = WinOpening::begin(paired(Some("short")));
    assert_eq!(opening.pending(), Some(&"long"));
    let opening = opening.opened::<()>(Ok((1u8, 10u16))).unwrap();
    assert_eq!(opening.pending(), Some(&"short"));
    let opening = opening.opened::<()>(Ok((2u8, 20u16))).unwrap();
    assert_eq!(opening.pending(), None);
    match opening {
        WinOpening::Ready(channel) => {
            assert_eq!(channel.readers(), (&1, Some(&2)));
            assert_eq!(*channel.writer_for(&[0x10]), 20);
            assert_eq!(*channel.writer_for(&[0x11]), 10);
            assert_eq!(channel.product_id(), 0xc548);
        }
        _ => panic!("both handles are open"),
    }
}

#[test]
fn a_node_without_companion_is_ready_after_one_handle() {
    let opening = WinOpening::begin(paired(None)).opened::<()>(Ok((1u8, 10u16))).unwrap();
    match opening {
        WinOpening::Ready(channel) => {
            assert_eq!(channel.supports_short_long_hidpp(), Some((false, true)));
        }
        _ => panic!("the only handle is open"),
    }
}

#[test]
fn a_handle_that_does_not_open_fails_the_node() {
    let opening: WinOpening<&str, u8, u16> = WinOpening::begin(paired(Some("short")));
    assert!(matches!(opening.opened(Err("busy")), Err("busy")));
    let opening = WinOpening::begin(paired(Some("short"))).opened::<&str>(Ok((1u8, 10u16))).unwrap();
    assert!(matches!(opening.opened(Err("busy")), Err("busy")));
}
