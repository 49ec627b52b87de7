//! The decode collaborator's verified edge: reading a PNG's pixel
//! dimensions from its header.
//!
//! Decoding rasters is the host's business, but the one thing the core
//! needs from a decoded image — its pixel width and height — stands at a
//! fixed place in every PNG: the 8-byte signature, then the IHDR chunk's
//! length and name, then width and height as big-endian 32-bit numbers.

use vstd::prelude::*;

verus! {

/// Whether the bytes open like a PNG: the signature, and the IHDR chunk
/// name at its fixed offset.
pub open spec fn png_header_ok(bytes: Seq<u8>) -> bool {
    &&& bytes.len() >= 24
    &&& bytes[0] == 137 && bytes[1] == 80 && bytes[2] == 78 && bytes[3] == 71
    &&& bytes[4] == 13 && bytes[5] == 10 && bytes[6] == 26 && bytes[7] == 10
    &&& bytes[12] == 73 && bytes[13] == 72 && bytes[14] == 68 && bytes[15] == 82
}

/// A big-endian 32-bit number read at `at`.
pub open spec fn be_u32(bytes: Seq<u8>, at: int) -> int {
    bytes[at] * 0x1000000 + bytes[at + 1] * 0x10000 + bytes[at + 2] * 0x100 + bytes[at + 3]
}

/// The pixel width and height of a PNG, from its header; `None` for bytes
/// that do not open like a PNG.
pub fn png_dimensions(bytes: &Vec<u8>) -> (r: Option<(i64, i64)>)
    ensures
        r == (if png_header_ok(bytes@) {
            Some((be_u32(bytes@, 16) as i64, be_u32(bytes@, 20) as i64))
        } else {
            Option::<(i64, i64)>::None
        }),
{
    if bytes.len() < 24 {
        return None;
    }
    if !(bytes[0] == 137 && bytes[1] == 80 && bytes[2] == 78 && bytes[3] == 71 && bytes[4] == 13
        && bytes[5] == 10 && bytes[6] == 26 && bytes[7] == 10) {
        return None;
    }
    if !(bytes[12] == 73 && bytes[13] == 72 && bytes[14] == 68 && bytes[15] == 82) {
        return None;
    }
    let w = (bytes[16] as i64) * 0x1000000 + (bytes[17] as i64) * 0x10000 + (bytes[18] as i64)
        * 0x100 + (bytes[19] as i64);
    let h = (bytes[20] as i64) * 0x1000000 + (bytes[21] as i64) * 0x10000 + (bytes[22] as i64)
        * 0x100 + (bytes[23] as i64);
    Some((w, h))
}

} // verus!
