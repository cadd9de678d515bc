//! What the format tables promise: that DRM and VA-API mean the same pixels by them.

use vstd::prelude::*;

use crate::dmabuf;
use crate::dmabuf::drm;
use crate::va::{
    VA_FOURCC_ARGB, VA_FOURCC_BGRA, VA_FOURCC_BGRX, VA_FOURCC_I420, VA_FOURCC_NV12,
    VA_FOURCC_P010, VA_FOURCC_RGBA, VA_FOURCC_RGBX, VA_FOURCC_XRGB, VA_FOURCC_YUY2,
    VA_FOURCC_YV12, VA_RT_FORMAT_RGB32, VA_RT_FORMAT_YUV420, VA_RT_FORMAT_YUV420_10,
    VA_RT_FORMAT_YUV422,
};
use crate::vpp;

verus! {

////// Names

/// Each VA-API code spells its name.
pub proof fn codes_spell_their_names()
    ensures
        VA_FOURCC_NV12 == drm::fourcc('N', 'V', '1', '2'),
        VA_FOURCC_P010 == drm::fourcc('P', '0', '1', '0'),
        VA_FOURCC_I420 == drm::fourcc('I', '4', '2', '0'),
        VA_FOURCC_YV12 == drm::fourcc('Y', 'V', '1', '2'),
        VA_FOURCC_YUY2 == drm::fourcc('Y', 'U', 'Y', '2'),
        VA_FOURCC_BGRA == drm::fourcc('B', 'G', 'R', 'A'),
        VA_FOURCC_BGRX == drm::fourcc('B', 'G', 'R', 'X'),
        VA_FOURCC_RGBA == drm::fourcc('R', 'G', 'B', 'A'),
        VA_FOURCC_RGBX == drm::fourcc('R', 'G', 'B', 'X'),
        VA_FOURCC_ARGB == drm::fourcc('A', 'R', 'G', 'B'),
        VA_FOURCC_XRGB == drm::fourcc('X', 'R', 'G', 'B'),
{
}

/// Letter `i` of a code, counted from the least significant byte.
pub open spec fn letter(code: u32, i: int) -> int {
    if i == 0 {
        (code as int) % 0x100
    } else if i == 1 {
        (code as int / 0x100) % 0x100
    } else if i == 2 {
        (code as int / 0x1_0000) % 0x100
    } else {
        code as int / 0x100_0000
    }
}

/// Whether `l` names a channel that is opacity or padding.
pub open spec fn is_alpha(l: int) -> bool {
    l == 'A' as int || l == 'X' as int
}

/// The other one of red and blue.
pub open spec fn opposite(l: int) -> int {
    if l == 'R' as int {
        'B' as int
    } else {
        'R' as int
    }
}

/// Packed RGB: VA-API spells the channels as they lie in memory, and DRM as they lie in a
/// little-endian word, that is the other way round, leaving out green and the last. So the
/// last letter of the VA-API name is the first of the DRM one; opacity or padding stays
/// what it is; and green lies between red and blue in both.
pub proof fn packed_channels_are_spelled_backwards(drm_format: u32, fourcc: u32)
    requires
        dmabuf::fourcc_for(drm_format) == Some(fourcc),
        letter(drm_format, 2) == '2' as int,
        letter(drm_format, 3) == '4' as int,
    ensures
        letter(fourcc, 3) == letter(drm_format, 0),
        is_alpha(letter(drm_format, 0)) ==> {
            &&& letter(fourcc, 2) == letter(drm_format, 1)
            &&& letter(fourcc, 1) == 'G' as int
            &&& letter(fourcc, 0) == opposite(letter(drm_format, 1))
        },
        !is_alpha(letter(drm_format, 0)) ==> {
            &&& letter(fourcc, 2) == 'G' as int
            &&& letter(fourcc, 1) == opposite(letter(drm_format, 0))
            &&& letter(fourcc, 0) == letter(drm_format, 1)
            &&& is_alpha(letter(drm_format, 1))
        },
        dmabuf::render_target_for(fourcc) == Some(VA_RT_FORMAT_RGB32),
{
}

/// Every other format goes by the same name in both, but for planar 4:2:0 with Cb first
/// and packed 4:2:2, which VA-API has names of its own for.
pub proof fn other_formats_keep_their_names(drm_format: u32, fourcc: u32)
    requires
        dmabuf::fourcc_for(drm_format) == Some(fourcc),
        letter(drm_format, 2) != '2' as int || letter(drm_format, 3) != '4' as int,
    ensures
        drm_format == fourcc || (drm_format == drm::fourcc('Y', 'U', '1', '2') && fourcc
            == drm::fourcc('I', '4', '2', '0')) || (drm_format == drm::fourcc('Y', 'U', 'Y', 'V')
            && fourcc == drm::fourcc('Y', 'U', 'Y', '2')),
        dmabuf::render_target_for(fourcc) != Some(VA_RT_FORMAT_RGB32),
{
}

////// Render targets

/// How the samples of a format lie.
pub enum Sampling {
    /// 4:2:0 of 8 bits.
    Yuv420,
    /// 4:2:0 of 10 bits.
    Yuv420Deep,
    /// 4:2:2 of 8 bits.
    Yuv422,
    /// RGB in 32 bits.
    Rgb32,
}

/// How the samples of a DRM format lie.
pub open spec fn sampling(drm_format: u32) -> Option<Sampling> {
    if drm_format == drm::NV12 || drm_format == drm::YUV420 || drm_format == drm::YVU420 {
        Some(Sampling::Yuv420)
    } else if drm_format == drm::P010 {
        Some(Sampling::Yuv420Deep)
    } else if drm_format == drm::YUYV {
        Some(Sampling::Yuv422)
    } else if drm_format == drm::XRGB8888 || drm_format == drm::ARGB8888 || drm_format
        == drm::XBGR8888 || drm_format == drm::ABGR8888 || drm_format == drm::BGRX8888
        || drm_format == drm::BGRA8888 {
        Some(Sampling::Rgb32)
    } else {
        None
    }
}

/// The render target of an import follows from how the samples of its DRM format lie, and
/// every format they are known of has one.
pub proof fn render_targets_follow_the_samples(drm_format: u32)
    ensures
        dmabuf::fourcc_for(drm_format) is Some <==> sampling(drm_format) is Some,
        dmabuf::fourcc_for(drm_format) matches Some(fourcc) ==> {
            let target = dmabuf::render_target_for(fourcc);
            match sampling(drm_format).unwrap() {
                Sampling::Yuv420 => target == Some(VA_RT_FORMAT_YUV420),
                Sampling::Yuv420Deep => target == Some(VA_RT_FORMAT_YUV420_10),
                Sampling::Yuv422 => target == Some(VA_RT_FORMAT_YUV422),
                Sampling::Rgb32 => target == Some(VA_RT_FORMAT_RGB32),
            }
        },
{
}

/// Whether the letters of `code` are red, green, blue, and opacity or padding, in the order
/// red to blue or blue to red.
pub open spec fn spells_rgb(code: u32) -> bool {
    let (a, b, c, d) = (letter(code, 0), letter(code, 1), letter(code, 2), letter(code, 3));
    let (r, g, bl) = ('R' as int, 'G' as int, 'B' as int);
    ||| is_alpha(d) && b == g && ((a == r && c == bl) || (a == bl && c == r))
    ||| is_alpha(a) && b == r && c == g && d == bl
}

/// A format is rendered as RGB where its name spells RGB, and nowhere else; 4:2:0 of 8
/// bits are NV12, I420, and YV12 alone; and the post-processor has it no other way.
pub proof fn render_targets_follow_the_name(fourcc: u32)
    ensures
        dmabuf::render_target_for(fourcc) == Some(VA_RT_FORMAT_RGB32) <==> spells_rgb(fourcc),
        vpp::render_target_for(fourcc) == Some(VA_RT_FORMAT_RGB32) <==> spells_rgb(fourcc),
        dmabuf::render_target_for(fourcc) == Some(VA_RT_FORMAT_YUV420) <==> (fourcc
            == drm::fourcc('N', 'V', '1', '2') || fourcc == drm::fourcc('I', '4', '2', '0')
            || fourcc == drm::fourcc('Y', 'V', '1', '2')),
        vpp::render_target_for(fourcc) == Some(VA_RT_FORMAT_YUV420) <==> dmabuf::render_target_for(
            fourcc,
        ) == Some(VA_RT_FORMAT_YUV420),
        dmabuf::render_target_for(fourcc) == Some(VA_RT_FORMAT_YUV420_10) <==> fourcc
            == drm::fourcc('P', '0', '1', '0'),
        vpp::render_target_for(fourcc) == Some(VA_RT_FORMAT_YUV420_10) <==> fourcc
            == drm::fourcc('P', '0', '1', '0'),
        dmabuf::render_target_for(fourcc) == Some(VA_RT_FORMAT_YUV422) <==> fourcc
            == drm::fourcc('Y', 'U', 'Y', '2'),
        vpp::render_target_for(fourcc) != Some(VA_RT_FORMAT_YUV422),
{
}

/// Whether a channel is opacity or padding makes no difference to the render target.
pub proof fn alpha_is_no_matter_of_the_target(a: u32, b: u32, i: int)
    requires
        0 <= i < 4,
        is_alpha(letter(a, i)),
        is_alpha(letter(b, i)),
        forall|j: int| 0 <= j < 4 && j != i ==> #[trigger] letter(a, j) == letter(b, j),
    ensures
        dmabuf::render_target_for(a) == dmabuf::render_target_for(b),
        vpp::render_target_for(a) == vpp::render_target_for(b),
{
    lemma_yuv_has_no_alpha(a, i);
    lemma_yuv_has_no_alpha(b, i);
    assert(spells_rgb(a) == spells_rgb(b)) by {
        assert(i != 0 ==> letter(a, 0) == letter(b, 0));
        assert(i != 1 ==> letter(a, 1) == letter(b, 1));
        assert(i != 2 ==> letter(a, 2) == letter(b, 2));
        assert(i != 3 ==> letter(a, 3) == letter(b, 3));
    }
    render_targets_follow_the_name(a);
    render_targets_follow_the_name(b);
    lemma_targets(a);
    lemma_targets(b);
}

proof fn lemma_targets(a: u32)
    ensures
        dmabuf::render_target_for(a) matches Some(t) ==> t == VA_RT_FORMAT_RGB32 || t
            == VA_RT_FORMAT_YUV420 || t == VA_RT_FORMAT_YUV420_10 || t == VA_RT_FORMAT_YUV422,
        vpp::render_target_for(a) matches Some(t) ==> t == VA_RT_FORMAT_RGB32 || t
            == VA_RT_FORMAT_YUV420 || t == VA_RT_FORMAT_YUV420_10,
{
}

proof fn lemma_yuv_has_no_alpha(a: u32, i: int)
    requires
        0 <= i < 4,
        is_alpha(letter(a, i)),
    ensures
        a != VA_FOURCC_NV12 && a != VA_FOURCC_I420 && a != VA_FOURCC_YV12 && a != VA_FOURCC_P010
            && a != VA_FOURCC_YUY2,
{
}

/// The four render targets are different ones.
pub proof fn render_targets_are_told_apart()
    ensures
        VA_RT_FORMAT_YUV420 == 0x1,
        VA_RT_FORMAT_YUV422 == 0x2,
        VA_RT_FORMAT_YUV420_10 == 0x100,
        VA_RT_FORMAT_RGB32 == 0x2_0000,
{
}

} // verus!
