//! Channels over opened handles: which reports they carry and which handle a
//! report goes through.
//!
//! The readers and writers are whatever the caller opened; a channel holds them
//! and says which to use.

use vstd::prelude::*;
use vstd::math::min;
use crate::collection::{is_long_only_collection, long_only_collection};
use crate::device::DeviceInfo;

verus! {

/// The id of short HID++ reports: the value of the constant `SHORT_REPORT_ID`
/// in `hidpp::channel`, which is `0x10`.
#[verifier::external_body]
fn short_report_id() -> (id: u8)
    ensures
        id == 0x10,
{
    hidpp::channel::SHORT_REPORT_ID
}

/// A report that starts with the id of short HID++ reports.
pub open spec fn is_short_report(report: Seq<u8>) -> bool {
    report.len() > 0 && report[0] == 0x10
}

/// Channel over one handle that carries both HID++ report ids.
#[derive(Debug)]
pub struct AsyncHidChannel<R, W> {
    reader: R,
    writer: W,
    info: DeviceInfo,
    long_only: bool,
}

impl<R, W> AsyncHidChannel<R, W> {
    /// The side of the handle that reports are read from.
    pub closed spec fn reader_spec(&self) -> R {
        self.reader
    }

    /// The side of the handle that reports are written to.
    pub closed spec fn writer_spec(&self) -> W {
        self.writer
    }

    /// What the enumeration said of the node.
    pub closed spec fn info_spec(&self) -> DeviceInfo {
        self.info
    }

    /// The device exposes the long HID++ report alone.
    pub closed spec fn long_only_spec(&self) -> bool {
        self.long_only
    }

    /// Whether the channel carries the short and the long HID++ report: both,
    /// or the long one alone where the device is long-only.
    pub open spec fn carries(&self) -> (bool, bool) {
        (!self.long_only_spec(), true)
    }

    /// A channel over an opened handle.
    pub fn new(reader: R, writer: W, info: DeviceInfo, long_only: bool) -> (channel: Self)
        ensures
            channel.reader_spec() == reader,
            channel.writer_spec() == writer,
            channel.info_spec() == info,
            channel.long_only_spec() == long_only,
    {
        AsyncHidChannel { reader, writer, info, long_only }
    }

    /// A channel over the opened handle of the node that `info` is about. It is
    /// long-only if the collection of the node is.
    pub fn for_node(reader: R, writer: W, info: DeviceInfo) -> (channel: Self)
        ensures
            channel.reader_spec() == reader,
            channel.writer_spec() == writer,
            channel.info_spec() == info,
            channel.long_only_spec() == long_only_collection(info.usage_page, info.usage_id),
    {
        let long_only = is_long_only_collection(info.usage_page, info.usage_id);
        AsyncHidChannel::new(reader, writer, info, long_only)
    }

    /// The vendor id of the device.
    pub fn vendor_id(&self) -> (id: u16)
        ensures
            id == self.info_spec().vendor_id,
    {
        self.info.vendor_id
    }

    /// The product id of the device.
    pub fn product_id(&self) -> (id: u16)
        ensures
            id == self.info_spec().product_id,
    {
        self.info.product_id
    }

    /// The reader that every report comes from.
    pub fn reader(&self) -> (reader: &R)
        ensures
            *reader == self.reader_spec(),
    {
        &self.reader
    }

    /// The writer that every report goes to.
    pub fn writer(&self) -> (writer: &W)
        ensures
            *writer == self.writer_spec(),
    {
        &self.writer
    }

    /// Which of the short and the long HID++ report the channel carries. It is
    /// always known.
    pub fn supports_short_long_hidpp(&self) -> (supported: Option<(bool, bool)>)
        ensures
            supported == Some(self.carries()),
    {
        Some((!self.long_only, true))
    }

    /// Refuses to read a report descriptor: which reports there are is known
    /// from the collection.
    pub fn get_report_descriptor(&self, buf: &mut [u8]) -> (size: Result<usize, &'static str>)
        ensures
            size matches Err(reason) && reason@
                == "get_report_descriptor is not implemented; pre-filter to HID++ usage pages"@,
            final(buf)@ == old(buf)@,
    {
        Err("get_report_descriptor is not implemented; pre-filter to HID++ usage pages")
    }
}

/// Channel over two handles: one for the long HID++ reports and, where the
/// transport has it, one for the short ones.
#[derive(Debug)]
pub struct WinDualChannel<R, W> {
    long_reader: R,
    long_writer: W,
    short_reader: Option<R>,
    short_writer: Option<W>,
    info: DeviceInfo,
}

impl<R, W> WinDualChannel<R, W> {
    /// The short handle is there with both its sides or not at all.
    #[verifier::type_invariant]
    pub closed spec fn wf(&self) -> bool {
        self.short_reader is Some <==> self.short_writer is Some
    }

    /// The two sides of the long handle.
    pub closed spec fn long_spec(&self) -> (R, W) {
        (self.long_reader, self.long_writer)
    }

    /// The two sides of the short handle, if there is one.
    pub closed spec fn short_spec(&self) -> Option<(R, W)> {
        match (self.short_reader, self.short_writer) {
            (Some(r), Some(w)) => Some((r, w)),
            _ => None,
        }
    }

    /// What the enumeration said of the long-report node.
    pub closed spec fn info_spec(&self) -> DeviceInfo {
        self.info
    }

    /// Whether the channel carries the short and the long HID++ report: the short
    /// one exactly if there is a short handle, the long one always.
    pub open spec fn carries(&self) -> (bool, bool) {
        (self.short_spec() is Some, true)
    }

    /// The writer that `report` goes to: a short report to the short handle, if
    /// there is one, anything else to the long handle.
    pub open spec fn target_spec(&self, report: Seq<u8>) -> W {
        match self.short_spec() {
            Some(short) => if is_short_report(report) {
                short.1
            } else {
                self.long_spec().1
            },
            None => self.long_spec().1,
        }
    }

    /// A channel over the opened handles.
    pub fn new(
        long_reader: R,
        long_writer: W,
        short: Option<(R, W)>,
        info: DeviceInfo,
    ) -> (channel: Self)
        ensures
            channel.long_spec() == (long_reader, long_writer),
            channel.short_spec() == short,
            channel.info_spec() == info,
    {
        let (short_reader, short_writer) = match short {
            Some((r, w)) => (Some(r), Some(w)),
            None => (None, None),
        };
        WinDualChannel { long_reader, long_writer, short_reader, short_writer, info }
    }

    /// The vendor id of the device.
    pub fn vendor_id(&self) -> (id: u16)
        ensures
            id == self.info_spec().vendor_id,
    {
        self.info.vendor_id
    }

    /// The product id of the device.
    pub fn product_id(&self) -> (id: u16)
        ensures
            id == self.info_spec().product_id,
    {
        self.info.product_id
    }

    /// The writer that `report` goes to.
    pub fn writer_for(&self, report: &[u8]) -> (writer: &W)
        ensures
            *writer == self.target_spec(report@),
    {
        proof {
            use_type_invariant(self);
        }
        if let Some(id) = report.first() {
            if *id == short_report_id() {
                if let Some(writer) = &self.short_writer {
                    return writer;
                }
            }
        }
        &self.long_writer
    }

    /// The readers that a report may come from: that of the long handle and, if
    /// there is one, that of the short handle. Whichever has a report first
    /// serves a read.
    pub fn readers(&self) -> (readers: (&R, Option<&R>))
        ensures
            *readers.0 == self.long_spec().0,
            readers.1 is Some == self.short_spec() is Some,
            readers.1 matches Some(reader) ==> *reader == self.short_spec().unwrap().0,
    {
        proof {
            use_type_invariant(self);
        }
        (&self.long_reader, self.short_reader.as_ref())
    }

    /// Which of the short and the long HID++ report the channel carries. It is
    /// always known.
    pub fn supports_short_long_hidpp(&self) -> (supported: Option<(bool, bool)>)
        ensures
            supported == Some(self.carries()),
    {
        proof {
            use_type_invariant(self);
        }
        Some((self.short_reader.is_some(), true))
    }

    /// Refuses to read a report descriptor: which reports there are is known
    /// from the collection.
    pub fn get_report_descriptor(&self, buf: &mut [u8]) -> (size: Result<usize, &'static str>)
        ensures
            size matches Err(reason) && reason@
                == "get_report_descriptor is not implemented; pre-filter to HID++ usage pages"@,
            final(buf)@ == old(buf)@,
    {
        Err("get_report_descriptor is not implemented; pre-filter to HID++ usage pages")
    }
}

/// Size of the buffer that a report is read into before it is delivered. The
/// largest HID++ input report is the long one, of 20 bytes with its id.
pub const WIN_READ_BUF_LEN: usize = 64;

/// Delivers what one of the racing readers came back with: the report, cut to
/// what `buf` can hold, or its error, with `buf` left alone.
///
/// `read` holds the length of the report and the buffer that it is in.
pub fn deliver_report<E>(
    read: Result<(usize, [u8; WIN_READ_BUF_LEN]), E>,
    buf: &mut [u8],
) -> (delivered: Result<usize, E>)
    requires
        read matches Ok((n, _)) ==> min(n as int, old(buf)@.len() as int) <= WIN_READ_BUF_LEN,
    ensures
        match read {
            Ok((n, report)) => {
                let len = min(n as int, old(buf)@.len() as int);
                &&& delivered == Ok::<usize, E>(len as usize)
                &&& final(buf)@ == report@.take(len) + old(buf)@.skip(len)
            },
            Err(e) => delivered == Err::<usize, E>(e) && final(buf)@ == old(buf)@,
        },
{
    match read {
        Ok((n, report)) => {
            let len: usize = if n <= buf.len() { n } else { buf.len() };
            let ghost before = buf@;
            let mut i: usize = 0;
            while i < len
                invariant
                    i <= len <= before.len(),
                    len <= WIN_READ_BUF_LEN,
                    buf@.len() == before.len(),
                    buf@ == report@.take(i as int) + before.skip(i as int),
                decreases len - i,
            {
                buf[i] = report[i];
                i = i + 1;
                assert(buf@ =~= report@.take(i as int) + before.skip(i as int));
            }
            Ok(len)
        },
        Err(e) => Err(e),
    }
}

/// What writing `report` comes to, once the handle has taken it or failed: all
/// of it was written, or nothing is known but the error.
pub fn report_written<E>(report: &[u8], sent: Result<(), E>) -> (written: Result<usize, E>)
    ensures
        match sent {
            Ok(_) => written == Ok::<usize, E>(report@.len() as usize),
            Err(e) => written == Err::<usize, E>(e),
        },
{
    match sent {
        Ok(_) => Ok(report.len()),
        Err(e) => Err(e),
    }
}

/// What opening a node comes to, once the HID++ layer has taken its channel or
/// refused it: the channel, with what is known of the node, or nothing. A node
/// that does not speak HID++ is no error.
pub fn opened_channel<I, C, E>(info: I, accepted: Result<C, E>) -> (opened: Option<(I, C)>)
    ensures
        match accepted {
            Ok(channel) => opened == Some((info, channel)),
            Err(_) => opened is None,
        },
{
    match accepted {
        Ok(channel) => Some((info, channel)),
        Err(_) => None,
    }
}

/// On a channel over two handles a short report goes through the short handle
/// exactly where the channel carries short reports; every other report goes
/// through the long handle.
pub proof fn law_reports_go_where_they_are_carried<R, W>(
    channel: WinDualChannel<R, W>,
    report: Seq<u8>,
)
    ensures
        is_short_report(report) && channel.carries().0 ==> channel.short_spec() is Some
            && channel.target_spec(report) == channel.short_spec().unwrap().1,
        !is_short_report(report) || !channel.carries().0 ==> channel.target_spec(report)
            == channel.long_spec().1,
{
}

/// Without a short handle, a channel over two handles behaves as a long-only
/// channel over the long handle alone.
pub proof fn law_no_companion_is_long_only<R, W>(
    dual: WinDualChannel<R, W>,
    single: AsyncHidChannel<R, W>,
    report: Seq<u8>,
)
    requires
        dual.short_spec() is None,
        dual.long_spec() == (single.reader_spec(), single.writer_spec()),
        single.long_only_spec(),
    ensures
        dual.carries() == single.carries(),
        dual.target_spec(report) == single.writer_spec(),
{
}

/// Every channel carries the long report.
pub proof fn law_long_reports_are_always_carried<R, W>(
    dual: WinDualChannel<R, W>,
    single: AsyncHidChannel<R, W>,
)
    ensures
        dual.carries().1,
        single.carries().1,
{
}

/// A report is routed by its first byte alone. With a short handle, whatever
/// starts with `0x10` goes to it, of any length and whatever follows; what starts
/// with another byte, or is empty, goes to the long handle.
pub proof fn law_routing_goes_by_the_first_byte<R, W>(
    channel: WinDualChannel<R, W>,
    short: (R, W),
    rest: Seq<u8>,
    other: Seq<u8>,
)
    requires
        channel.short_spec() == Some(short),
        other.len() == 0 || other[0] != 0x10,
    ensures
        channel.target_spec(seq![0x10u8] + rest) == short.1,
        channel.target_spec(other) == channel.long_spec().1,
        is_short_report(seq![0x10u8] + rest),
        !is_short_report(other),
{
    assert((seq![0x10u8] + rest)[0] == 0x10);
}

/// Without a short handle every report goes to the long one.
pub proof fn law_without_a_short_handle_all_goes_long<R, W>(
    channel: WinDualChannel<R, W>,
    report: Seq<u8>,
)
    requires
        channel.short_spec() is None,
    ensures
        channel.target_spec(report) == channel.long_spec().1,
{
}

/// A channel over two handles carries short reports exactly if it has a short
/// handle, one over a single handle exactly if it is not long-only.
pub proof fn law_what_channels_carry<R, W>(
    dual: WinDualChannel<R, W>,
    single: AsyncHidChannel<R, W>,
)
    ensures
        dual.carries().0 <==> dual.short_spec() is Some,
        single.carries().0 <==> !single.long_only_spec(),
        dual.carries().1 && single.carries().1,
{
}

} // verus!
