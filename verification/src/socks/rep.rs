//! Reply codes (RFC 1928, section 6).

use vstd::prelude::*;

verus! {

pub const SUCCESS: u8 = 0x00;

pub const GENERAL_FAILURE: u8 = 0x01;

pub const COMMAND_NOT_SUPPORTED: u8 = 0x07;

pub const ADDRESS_TYPE_NOT_SUPPORTED: u8 = 0x08;

} // verus!
