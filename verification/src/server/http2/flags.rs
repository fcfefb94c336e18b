//! The flag bits of frame headers.

use vstd::prelude::*;

verus! {

pub const END_STREAM: u8 = 0x1;

pub const ACK: u8 = 0x1;

pub const END_HEADERS: u8 = 0x4;

pub const PADDED: u8 = 0x8;

pub const PRIORITY: u8 = 0x20;

} // verus!
