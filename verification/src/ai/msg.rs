//! Message ids of the vision pipeline, in the inbox of `ctrl`.

use vstd::prelude::*;

verus! {

/// A face was recognised.
pub const GET_PET_FACE_INFO_BY_NETWORK: u16 = 0x101c;

/// A face crop is done with.
pub const PET_FACE_PIC_USED_END: u16 = 0x101b;

/// A generic event report.
pub const CTRL_EVENT_MSG: u16 = 0x1002;

} // verus!
