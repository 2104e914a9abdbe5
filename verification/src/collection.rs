//! The vendor collections under which Logitech devices expose HID++ reports.

use vstd::prelude::*;

verus! {

/// Logitech HID vendor ID.
pub const LOGITECH_VID: u16 = 0x046d;

/// HID++ long-report vendor collections, as `(usage_page, usage_id, long_only)`.
///
/// The long report (report id `0x11`) sits under a vendor-defined collection
/// whose page differs by transport:
///
/// - `0xFF00 / 0x0002`: USB, Logi Bolt / Unifying receivers and
///   Bluetooth-classic devices.
/// - `0xFF43 / 0x0202`: directly paired Bluetooth-Low-Energy devices.
///
/// `long_only` marks a transport without a short-report (`0x10`) collection.
/// A new transport is one more line here.
pub const HIDPP_LONG_COLLECTIONS: [(u16, u16, bool); 2] = [
    (0xff00, 0x0002, false),
    (0xff43, 0x0202, true),
];

/// The short-report (`0x10`) companion collection of the USB / receiver page.
///
/// Windows exposes it as a device handle of its own, apart from its
/// long-report sibling `0xff00/0x0002`.
pub const HIDPP_SHORT_COLLECTION: (u16, u16) = (0xff00, 0x0001);

/// Row `i` of [`HIDPP_LONG_COLLECTIONS`] is about `(usage_page, usage_id)`.
pub open spec fn row_matches(i: int, usage_page: u16, usage_id: u16) -> bool {
    &&& 0 <= i < HIDPP_LONG_COLLECTIONS@.len()
    &&& HIDPP_LONG_COLLECTIONS@[i].0 == usage_page
    &&& HIDPP_LONG_COLLECTIONS@[i].1 == usage_id
}

/// `(usage_page, usage_id)` carries the HID++ long report: it has a row in
/// [`HIDPP_LONG_COLLECTIONS`].
pub open spec fn long_collection(usage_page: u16, usage_id: u16) -> bool {
    exists|i: int| row_matches(i, usage_page, usage_id)
}

/// `(usage_page, usage_id)` carries the HID++ long report and has no short
/// sibling: it has a row in [`HIDPP_LONG_COLLECTIONS`] that is marked long-only.
pub open spec fn long_only_collection(usage_page: u16, usage_id: u16) -> bool {
    exists|i: int| #[trigger]
        row_matches(i, usage_page, usage_id) && HIDPP_LONG_COLLECTIONS@[i].2
}

/// `(usage_page, usage_id)` is [`HIDPP_SHORT_COLLECTION`].
pub open spec fn short_collection(usage_page: u16, usage_id: u16) -> bool {
    (usage_page, usage_id) == HIDPP_SHORT_COLLECTION
}

/// Whether `(usage_page, usage_id)` is one of the HID++ long-report collections.
pub fn is_hidpp_long_collection(usage_page: u16, usage_id: u16) -> (matched: bool)
    ensures
        matched == long_collection(usage_page, usage_id),
{
    let mut i: usize = 0;
    while i < HIDPP_LONG_COLLECTIONS.len()
        invariant
            i <= HIDPP_LONG_COLLECTIONS@.len(),
            forall|j: int| 0 <= j < i ==> !#[trigger] row_matches(j, usage_page, usage_id),
        decreases HIDPP_LONG_COLLECTIONS@.len() - i,
    {
        let (page, usage, _) = HIDPP_LONG_COLLECTIONS[i];
        if page == usage_page && usage == usage_id {
            assert(row_matches(i as int, usage_page, usage_id));
            return true;
        }
        i = i + 1;
    }
    false
}

/// Whether the matched HID++ collection exposes only the long report, so that
/// short requests have to be re-framed as long. `false` for pages without a row
/// in [`HIDPP_LONG_COLLECTIONS`].
pub fn is_long_only_collection(usage_page: u16, usage_id: u16) -> (long_only: bool)
    ensures
        long_only == long_only_collection(usage_page, usage_id),
{
    let mut i: usize = 0;
    while i < HIDPP_LONG_COLLECTIONS.len()
        invariant
            i <= HIDPP_LONG_COLLECTIONS@.len(),
            forall|j: int|
                0 <= j < i && #[trigger] row_matches(j, usage_page, usage_id)
                    ==> !HIDPP_LONG_COLLECTIONS@[j].2,
        decreases HIDPP_LONG_COLLECTIONS@.len() - i,
    {
        let (page, usage, long_only) = HIDPP_LONG_COLLECTIONS[i];
        if long_only && page == usage_page && usage == usage_id {
            assert(row_matches(i as int, usage_page, usage_id));
            return true;
        }
        i = i + 1;
    }
    false
}

/// The transports there are: the USB / receiver page, which carries both
/// reports, and the Bluetooth-Low-Energy page, which is long-only.
pub proof fn law_known_transports(usage_page: u16, usage_id: u16)
    ensures
        long_collection(usage_page, usage_id) <==> {
            ||| (usage_page, usage_id) == (0xff00u16, 0x0002u16)
            ||| (usage_page, usage_id) == (0xff43u16, 0x0202u16)
        },
        long_only_collection(usage_page, usage_id) <==> (usage_page, usage_id) == (
            0xff43u16,
            0x0202u16,
        ),
{
    if (usage_page, usage_id) == (0xff00u16, 0x0002u16) {
        assert(row_matches(0, usage_page, usage_id));
    }
    if (usage_page, usage_id) == (0xff43u16, 0x0202u16) {
        assert(row_matches(1, usage_page, usage_id));
    }
}

/// A long-only transport is a HID++ long-report transport.
pub proof fn law_long_only_is_long(usage_page: u16, usage_id: u16)
    ensures
        long_only_collection(usage_page, usage_id) ==> long_collection(usage_page, usage_id),
{
}

/// No collection is both a long-report collection and the short companion, so
/// no node is ever its own companion.
pub proof fn law_short_is_not_long(usage_page: u16, usage_id: u16)
    ensures
        short_collection(usage_page, usage_id) ==> !long_collection(usage_page, usage_id),
{
}

/// The short companion is the collection `0xff00/0x0001`, and Logitech has the
/// vendor id `0x046d`.
pub proof fn law_short_companion_collection(usage_page: u16, usage_id: u16)
    ensures
        short_collection(usage_page, usage_id) <==> usage_page == 0xff00 && usage_id == 0x0001,
        LOGITECH_VID == 0x046d,
{
}

} // verus!
