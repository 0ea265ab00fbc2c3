//! Register offsets and command bytes of the IS31FL3741.
use vstd::prelude::*;

verus! {

pub const CONFIG_REGISTER: u8 = 0x00;
pub const CURRENT_REGISTER: u8 = 0x01;
pub const PULL_UP_REGISTER: u8 = 0x02;
pub const RESET_REGISTER: u8 = 0x3F;
pub const SHUTDOWN: u8 = 0x0A;

pub const PAGE_SELECT_REGISTER: u8 = 0xFD;
pub const CONFIG_LOCK_REGISTER: u8 = 0xFE;

pub const CONFIG_WRITE_ENABLE: u8 = 0b1100_0101;
pub const RESET: u8 = 0xAE;

} // verus!
