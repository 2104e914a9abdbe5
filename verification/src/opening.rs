//! The steps from a paired HID++ node to a channel over its opened handles.

use vstd::prelude::*;
use crate::channel::WinDualChannel;
use crate::device::{Device, DeviceInfo};
use crate::pairing::WinHidppNode;

verus! {

/// How far the opening of a paired node has come.
#[derive(Debug)]
pub enum WinOpening<H, R, W> {
    /// The long handle is to be opened.
    Long(WinHidppNode<H>),
    /// The long handle is open, its short companion is to be opened.
    Short {
        /// What the enumeration said of the long-report node.
        info: DeviceInfo,
        /// The reading side of the long handle.
        long_reader: R,
        /// The writing side of the long handle.
        long_writer: W,
        /// The short-report node.
        short: Device<H>,
    },
    /// All handles are open.
    Ready(WinDualChannel<R, W>),
}

impl<H, R, W> WinOpening<H, R, W> {
    /// The state that follows once the handle to open has given `reader` and
    /// `writer`.
    pub open spec fn leads_to(self, reader: R, writer: W, next: Self) -> bool {
        match self {
            WinOpening::Long(node) => match node.short {
                Some(short) => next == (WinOpening::Short {
                    info: node.long.info,
                    long_reader: reader,
                    long_writer: writer,
                    short,
                }),
                None => {
                    &&& next is Ready
                    &&& next->Ready_0.long_spec() == (reader, writer)
                    &&& next->Ready_0.short_spec() is None
                    &&& next->Ready_0.info_spec() == node.long.info
                },
            },
            WinOpening::Short { info, long_reader, long_writer, short } => {
                &&& next is Ready
                &&& next->Ready_0.long_spec() == (long_reader, long_writer)
                &&& next->Ready_0.short_spec() == Some((reader, writer))
                &&& next->Ready_0.info_spec() == info
            },
            WinOpening::Ready(_) => false,
        }
    }

    /// How many handles are still to be opened.
    pub open spec fn to_open(self) -> nat {
        match self {
            WinOpening::Long(node) => if node.short is Some {
                2
            } else {
                1
            },
            WinOpening::Short { .. } => 1,
            WinOpening::Ready(_) => 0,
        }
    }

    /// Nothing of `node` is open yet.
    pub fn begin(node: WinHidppNode<H>) -> (opening: Self)
        ensures
            opening == WinOpening::<H, R, W>::Long(node),
    {
        WinOpening::Long(node)
    }

    /// The handle to open next: the long one first, then its companion.
    pub fn pending(&self) -> (handle: Option<&H>)
        ensures
            match *self {
                WinOpening::Long(node) => handle == Some(&node.long.handle),
                WinOpening::Short { short, .. } => handle == Some(&short.handle),
                WinOpening::Ready(_) => handle is None,
            },
    {
        match self {
            WinOpening::Long(node) => Some(&node.long.handle),
            WinOpening::Short { short, .. } => Some(&short.handle),
            WinOpening::Ready(_) => None,
        }
    }

    /// Goes on once the pending handle was opened. If it could not be, the whole
    /// node cannot.
    pub fn opened<E>(self, outcome: Result<(R, W), E>) -> (next: Result<Self, E>)
        requires
            !(self is Ready),
        ensures
            match outcome {
                Ok((reader, writer)) => next is Ok && self.leads_to(reader, writer, next->Ok_0),
                Err(e) => next == Err::<Self, E>(e),
            },
    {
        let (reader, writer) = match outcome {
            Ok(sides) => sides,
            Err(e) => return Err(e),
        };
        match self {
            WinOpening::Long(node) => {
                let info = node.long.info;
                match node.short {
                    Some(short) => Ok(
                        WinOpening::Short { info, long_reader: reader, long_writer: writer, short },
                    ),
                    None => Ok(
                        WinOpening::Ready(WinDualChannel::new(reader, writer, None, info)),
                    ),
                }
            },
            WinOpening::Short { info, long_reader, long_writer, short: _ } => Ok(
                WinOpening::Ready(
                    WinDualChannel::new(long_reader, long_writer, Some((reader, writer)), info),
                ),
            ),
            WinOpening::Ready(channel) => Ok(WinOpening::Ready(channel)),
        }
    }
}

/// Every step opens one handle, and a node is ready when none is left.
pub proof fn law_every_step_opens_one_handle<H, R, W>(
    state: WinOpening<H, R, W>,
    reader: R,
    writer: W,
    next: WinOpening<H, R, W>,
)
    requires
        state.leads_to(reader, writer, next),
    ensures
        next.to_open() + 1 == state.to_open(),
        next is Ready <==> next.to_open() == 0,
{
}

/// A node that was opened to the end has a channel over the handles that it
/// had: what the first step opened is its long handle, what a second step opened
/// is its short handle, and there is a second step exactly if the node has a
/// companion. So the channel carries short reports exactly if it has one.
pub proof fn law_opened_nodes_keep_their_handles<H, R, W>(
    node: WinHidppNode<H>,
    long_reader: R,
    long_writer: W,
    first: WinOpening<H, R, W>,
    short_reader: R,
    short_writer: W,
    second: WinOpening<H, R, W>,
)
    requires
        WinOpening::<H, R, W>::Long(node).leads_to(long_reader, long_writer, first),
        first is Ready || first.leads_to(short_reader, short_writer, second),
    ensures
        first is Ready <==> node.short is None,
        ({
            let channel = if first is Ready {
                first->Ready_0
            } else {
                second->Ready_0
            };
            &&& first is Ready || second is Ready
            &&& channel.long_spec() == (long_reader, long_writer)
            &&& channel.short_spec() == if node.short is Some {
                Some((short_reader, short_writer))
            } else {
                None
            }
            &&& channel.info_spec() == node.long.info
            &&& channel.carries() == (node.short is Some, true)
        }),
{
}

/// The handles that are opened are those of the node, each once and the long one
/// first: after the long handle its companion is pending, that very device, and
/// without a companion nothing is.
pub proof fn law_the_companion_is_opened_next<H, R, W>(
    node: WinHidppNode<H>,
    reader: R,
    writer: W,
    next: WinOpening<H, R, W>,
)
    requires
        WinOpening::<H, R, W>::Long(node).leads_to(reader, writer, next),
    ensures
        node.short matches Some(companion) ==> {
            &&& next is Short
            &&& next->short == companion
            &&& next->short.handle == companion.handle
            &&& next->long_reader == reader
            &&& next->long_writer == writer
            &&& next->info == node.long.info
        },
        node.short is None ==> {
            &&& next is Ready
            &&& next->Ready_0.long_spec() == (reader, writer)
            &&& next->Ready_0.short_spec() is None
            &&& next->Ready_0.info_spec() == node.long.info
        },
{
}

/// What the companion gives when it is opened is the short handle of the
/// channel; the long handle and what is known of the node stay as they were.
pub proof fn law_the_companion_becomes_the_short_handle<H, R, W>(
    info: DeviceInfo,
    long_reader: R,
    long_writer: W,
    short: Device<H>,
    reader: R,
    writer: W,
    next: WinOpening<H, R, W>,
)
    requires
        (WinOpening::Short { info, long_reader, long_writer, short }).leads_to(
            reader,
            writer,
            next,
        ),
    ensures
        next is Ready,
        next->Ready_0.long_spec() == (long_reader, long_writer),
        next->Ready_0.short_spec() == Some((reader, writer)),
        next->Ready_0.info_spec() == info,
{
}

/// A node takes one step per device that it has.
pub proof fn law_one_step_per_device<H, R, W>(node: WinHidppNode<H>)
    ensures
        WinOpening::<H, R, W>::Long(node).to_open() == 1 + (if node.short is Some {
            1int
        } else {
            0int
        }),
{
}

} // verus!
