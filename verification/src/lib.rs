//! Transport rules for Logitech HID++ devices.
//!
//! Deciding which HID nodes of an enumeration speak HID++, pairing the short
//! and long report collections that Windows hands out as separate handles, and
//! routing reports between those handles are all plain computations. They live
//! here, each with its contract; opening handles and moving bytes is left to
//! the caller.
#![allow(unused_imports)]

pub mod channel;
pub mod collection;
pub mod device;
pub mod enumerate;
pub mod index;
pub mod opening;
pub mod pairing;
pub mod path;
pub mod text;
