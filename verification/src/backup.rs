//! The one-time backup of the vendor's settings file.

use vstd::prelude::*;

use crate::md5::{digest_of, hex};
use crate::number::hex_of;

verus! {

pub const SOURCE: &'static str = "/opt/user.conf";

pub const BACKUP: &'static str = "/opt/kibble/user.conf.bak";

/// What a run reports: nothing where a backup exists already, else the digest of the source and
/// that of the copy as it was read back.
pub fn backup_once(exists: bool, source: &[u8], copy: &[u8]) -> (r: Option<(String, String)>)
    ensures
        match r {
            None => exists,
            Some((a, b)) => !exists && a@ == hex_of(digest_of(source@)) && b@ == hex_of(
                digest_of(copy@),
            ),
        },
{
    if exists {
        return None;
    }
    Some((hex(source), hex(copy)))
}

} // verus!
