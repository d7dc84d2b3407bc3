//! The AU-header section of an RFC 3640 (`MPEG4-GENERIC`, AAC-hbr) packet with one access unit.

use vstd::prelude::*;

use crate::bytes::be16_at;

verus! {

/// Largest size that the 13-bit size field holds.
pub const MAX_AU_SIZE: u16 = 0x1FFF;

/// The section for one access unit of `size` bytes: the length of the headers in bits, which is 16,
/// then the size in 13 bits and a zero index in three.
pub open spec fn section(size: nat) -> Seq<u8> {
    let header = size % 8192 * 8;
    seq![0u8, 16u8, (header / 256) as u8, (header % 256) as u8]
}

/// Build the 4-byte AU-header section for one access unit of `size` bytes. A size past
/// [`MAX_AU_SIZE`] loses its high bits.
pub fn au_header_section(size: u16) -> (r: [u8; 4])
    ensures
        r@ == section(size as nat),
{
    let header: u32 = (size as u32 % 8192) * 8;
    let r: [u8; 4] = [0, 16, (header / 256) as u8, (header % 256) as u8];
    assert(r@ =~= section(size as nat));
    r
}

/// The size can be read back from the section, and the index is zero.
pub proof fn law_size_reads_back(size: nat)
    requires
        size <= MAX_AU_SIZE,
    ensures
        be16_at(section(size), 0) == 16,
        be16_at(section(size), 2) / 8 == size,
        be16_at(section(size), 2) % 8 == 0,
{
}

} // verus!
