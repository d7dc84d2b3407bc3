//! Message ids that are sent or expected on the bus.

use vstd::prelude::*;

verus! {

/// To `ble`: dispense or cancel. The payload is a [`crate::bus::FeedCtrl`].
pub const BLE_FEED_CTRL: u16 = 0x6004;

/// To `ctrl`: an incoming feed request.
pub const FEED: u16 = 0x100f;

/// From `ble` to `ctrl`: bytes received from a BLE peer.
pub const RECV_BLE_DATA: u16 = 0x100a;

/// A message that `ctrl` registers for itself and never answers.
pub const BLE_GET_SCHEDULE: u16 = 0x101a;

/// To `ble`: replaces the whole schedule table.
pub const BLE_SET_SCHEDULE: u16 = 0x6005;

/// To `ble`: the Unix time in four bytes, sent right before every schedule.
pub const BLE_SET_RTC: u16 = 0x6007;

/// To `ble`: advertising on or off.
pub const BLE_SET_ADV: u16 = 0x6001;

/// To `ble`: forwards one command byte to the microcontroller.
pub const SUBCHIP_REQ_DATA: u16 = 0x601b;

} // verus!
