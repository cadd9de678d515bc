//! DRM fourcc codes for the formats [`crate::dmabuf::va_fourcc`] maps.
//!
//! These are the `DRM_FORMAT_*` values from `drm_fourcc.h`, which the VA-API
//! headers do not carry.

use vstd::prelude::*;

verus! {

/// Semi-planar 4:2:0, a luma plane and an interleaved Cb/Cr plane.
pub const NV12: u32 = 0x3231564e;

/// Semi-planar 4:2:0 with 10 bits per sample in 16-bit words.
pub const P010: u32 = 0x30313050;

/// Planar 4:2:0: luma, then Cb, then Cr.
pub const YUV420: u32 = 0x32315559;

/// Planar 4:2:0: luma, then Cr, then Cb.
pub const YVU420: u32 = 0x32315659;

/// Packed 4:2:2, `Y0 Cb Y1 Cr` in memory.
pub const YUYV: u32 = 0x56595559;

/// Packed 32-bit, `B G R X` in memory.
pub const XRGB8888: u32 = 0x34325258;

/// Packed 32-bit, `B G R A` in memory.
pub const ARGB8888: u32 = 0x34325241;

/// Packed 32-bit, `R G B X` in memory.
pub const XBGR8888: u32 = 0x34324258;

/// Packed 32-bit, `R G B A` in memory.
pub const ABGR8888: u32 = 0x34324241;

/// Packed 32-bit, `X R G B` in memory.
pub const BGRX8888: u32 = 0x34325842;

/// Packed 32-bit, `A R G B` in memory.
pub const BGRA8888: u32 = 0x34324142;

/// The code whose letters are `a`, `b`, `c`, and `d`: least significant byte first.
pub open spec fn fourcc(a: char, b: char, c: char, d: char) -> int {
    a as int + 0x100 * (b as int) + 0x1_0000 * (c as int) + 0x100_0000 * (d as int)
}

/// Each code spells its name.
pub proof fn codes_spell_their_names()
    ensures
        NV12 == fourcc('N', 'V', '1', '2'),
        P010 == fourcc('P', '0', '1', '0'),
        YUV420 == fourcc('Y', 'U', '1', '2'),
        YVU420 == fourcc('Y', 'V', '1', '2'),
        YUYV == fourcc('Y', 'U', 'Y', 'V'),
        XRGB8888 == fourcc('X', 'R', '2', '4'),
        ARGB8888 == fourcc('A', 'R', '2', '4'),
        XBGR8888 == fourcc('X', 'B', '2', '4'),
        ABGR8888 == fourcc('A', 'B', '2', '4'),
        BGRX8888 == fourcc('B', 'X', '2', '4'),
        BGRA8888 == fourcc('B', 'A', '2', '4'),
{
}

} // verus!
