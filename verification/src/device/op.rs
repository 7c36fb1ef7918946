//! Firmware command ids used by this library (a subset of the controller's
//! command enum; the flash commands 0x21/0x22 are deliberately absent).

use vstd::prelude::*;

verus! {

pub const GET_KEYBOARD_INFO: u8 = 0x12;

pub const GET_REPORT_RATE: u8 = 0x23;

pub const SET_REPORT_RATE: u8 = 0x24;

pub const GET_DEVICE_PROFILE: u8 = 0x2B;

pub const SET_DEVICE_PROFILE: u8 = 0x2C;

pub const GET_ONE_FAST_TRIGGER: u8 = 0x54;

pub const SET_ONE_FAST_TRIGGER: u8 = 0x55;

pub const SET_ALL_ACTUATION: u8 = 0x42;

pub const SET_LIGHT: u8 = 0x44;

pub const GET_LIGHT: u8 = 0x45;

pub const GET_ALL_ACTUATION: u8 = 0x43;

/// Unsolicited asynchronous report.
pub const DATA_REPORTED: u8 = 0x48;

} // verus!
