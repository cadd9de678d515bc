//! Coded video sequences: what the driver is opened with, and the surfaces it
//! decodes into.

use vstd::prelude::*;

use crate::decode::error::DecodeError;
use crate::h264::dpb::{Dpb, DpbEntry};
use crate::h264::syntax::Sps;
use crate::surface::Handle;
use crate::va::{
    VA_ENTRYPOINT_VLD, VA_PROFILE_H264_CONSTRAINED_BASELINE, VA_PROFILE_H264_HIGH,
    VA_PROFILE_H264_MAIN, VA_RT_FORMAT_YUV420,
};

verus! {

/// The properties of an SPS that the VA config, context, and surface pool are
/// built from. A change in any of them forces them to be rebuilt.
#[derive(Clone, Copy, Debug, PartialEq, Eq, Structural)]
pub struct SequenceInfo {
    pub coded_width: u32,
    pub coded_height: u32,
    pub profile_idc: u8,
    pub bit_depth_luma_minus8: u8,
    pub bit_depth_chroma_minus8: u8,
    pub chroma_format_idc: u8,
    pub frame_mbs_only_flag: bool,
    pub max_dpb_frames: usize,
}

impl SequenceInfo {
    /// The properties of `sps`.
    pub open spec fn of(sps: Sps) -> SequenceInfo {
        SequenceInfo {
            coded_width: sps.width,
            coded_height: sps.height,
            profile_idc: sps.profile_idc,
            bit_depth_luma_minus8: sps.bit_depth_luma_minus8,
            bit_depth_chroma_minus8: sps.bit_depth_chroma_minus8,
            chroma_format_idc: sps.chroma_format_idc,
            frame_mbs_only_flag: sps.frame_mbs_only_flag,
            max_dpb_frames: sps.max_dpb_frames,
        }
    }

    /// Reads the properties off `sps`.
    pub fn new(sps: &Sps) -> (info: SequenceInfo)
        ensures
            info == SequenceInfo::of(*sps),
            info.coded_width == sps.width,
            info.coded_height == sps.height,
            info.profile_idc == sps.profile_idc,
            info.bit_depth_luma_minus8 == sps.bit_depth_luma_minus8,
            info.bit_depth_chroma_minus8 == sps.bit_depth_chroma_minus8,
            info.chroma_format_idc == sps.chroma_format_idc,
            info.frame_mbs_only_flag == sps.frame_mbs_only_flag,
            info.max_dpb_frames == sps.max_dpb_frames,
    {
        SequenceInfo {
            coded_width: sps.width,
            coded_height: sps.height,
            profile_idc: sps.profile_idc,
            bit_depth_luma_minus8: sps.bit_depth_luma_minus8,
            bit_depth_chroma_minus8: sps.bit_depth_chroma_minus8,
            chroma_format_idc: sps.chroma_format_idc,
            frame_mbs_only_flag: sps.frame_mbs_only_flag,
            max_dpb_frames: sps.max_dpb_frames,
        }
    }
}

/// The VA profile that decodes an H.264 `profile_idc`.
///
/// VA-API has no plain Baseline profile, and no way to describe the FMO and ASO
/// tools that are all that separate it from Constrained Baseline, so Baseline
/// (66) maps there. Main (77) and Extended (88) decode as Main. High (100),
/// High 10 (110), and High 4:2:2 (122) decode as High: the bit depth and chroma
/// format are checked separately.
pub open spec fn profile_for(profile_idc: u8) -> Option<i32> {
    if profile_idc == 66 {
        Some(VA_PROFILE_H264_CONSTRAINED_BASELINE)
    } else if profile_idc == 77 || profile_idc == 88 {
        Some(VA_PROFILE_H264_MAIN)
    } else if profile_idc == 100 || profile_idc == 110 || profile_idc == 122 {
        Some(VA_PROFILE_H264_HIGH)
    } else {
        None
    }
}

/// Maps the SPS profile onto the VA profile to open the config with.
pub fn va_profile(sps: &Sps) -> (r: Result<i32, DecodeError>)
    ensures
        match profile_for(sps.profile_idc) {
            Some(p) => r == Ok::<i32, DecodeError>(p),
            None => r == Err::<i32, DecodeError>(DecodeError::Profile(sps.profile_idc)),
        },
        match r {
            Ok(p) => match sps.profile_idc {
                66 => p == VA_PROFILE_H264_CONSTRAINED_BASELINE,
                77 | 88 => p == VA_PROFILE_H264_MAIN,
                100 | 110 | 122 => p == VA_PROFILE_H264_HIGH,
                _ => false,
            },
            Err(e) => {
                &&& e == DecodeError::Profile(sps.profile_idc)
                &&& match sps.profile_idc {
                    66 | 77 | 88 | 100 | 110 | 122 => false,
                    _ => true,
                }
            },
        },
{
    match sps.profile_idc {
        66 => Ok(VA_PROFILE_H264_CONSTRAINED_BASELINE),
        77 | 88 => Ok(VA_PROFILE_H264_MAIN),
        100 | 110 | 122 => Ok(VA_PROFILE_H264_HIGH),
        other => Err(DecodeError::Profile(other)),
    }
}

/// What the driver is to open for a sequence: a config, then a context of it.
#[derive(Clone, Copy, Debug, PartialEq, Eq, Structural)]
pub struct SequenceRequest {
    pub profile: i32,
    pub entrypoint: u32,
    pub rt_format: u32,
    pub coded_width: u32,
    pub coded_height: u32,
}

/// A recycling pool of decode target surfaces.
///
/// Surfaces are allocated on demand and used again once no decoded picture
/// refers to them. The DPB bounds how many can be in flight at once, so the pool
/// stops growing on its own after the first few pictures.
#[derive(Debug)]
pub struct SurfacePool {
    pub width: u32,
    pub height: u32,
    /// Every surface of the pool, whether a picture refers to it or not. Of those that
    /// none refers to, the one given back last comes last.
    pub surfaces: Vec<u32>,
}

/// The decoder's side of one coded video sequence.
#[derive(Debug)]
pub struct Sequence {
    pub info: SequenceInfo,
    /// Visible width after the cropping of the active SPS, which is what a frame
    /// reports.
    pub width: u32,
    /// Visible height after cropping.
    pub height: u32,
    pub pool: SurfacePool,
}

/// What a [`Sequence`] stands for.
#[verifier::ext_equal]
pub struct SequenceState {
    pub info: SequenceInfo,
    pub width: u32,
    pub height: u32,
    /// Every surface of the pool; the free ones in the order they were given back.
    pub surfaces: Seq<u32>,
}

impl View for Sequence {
    type V = SequenceState;

    open spec fn view(&self) -> SequenceState {
        SequenceState {
            info: self.info,
            width: self.width,
            height: self.height,
            surfaces: self.pool.surfaces@,
        }
    }
}

/// The visible width of `sps`.
pub open spec fn visible_width(sps: Sps) -> int {
    sps.visible.max_x - sps.visible.min_x
}

/// The visible height of `sps`.
pub open spec fn visible_height(sps: Sps) -> int {
    sps.visible.max_y - sps.visible.min_y
}

/// Why a picture of `sps` cannot be shown: its visible size is zero or odd.
pub open spec fn size_refusal(sps: Sps) -> Option<DecodeError> {
    let width = visible_width(sps);
    let height = visible_height(sps);
    if width == 0 || height == 0 || width % 2 != 0 || height % 2 != 0 {
        Some(DecodeError::VisibleSize { width: width as u32, height: height as u32 })
    } else {
        None
    }
}

/// Why a sequence cannot be decoded: progressive 8-bit 4:2:0 of a non-zero even
/// size only, in a profile VA-API knows.
pub open spec fn refusal(sps: Sps) -> Option<DecodeError> {
    if !sps.frame_mbs_only_flag {
        Some(DecodeError::Interlaced)
    } else if sps.chroma_format_idc != 1 {
        Some(DecodeError::ChromaFormat(sps.chroma_format_idc))
    } else if sps.bit_depth_luma_minus8 != 0 || sps.bit_depth_chroma_minus8 != 0 {
        Some(
            DecodeError::BitDepth {
                luma: (sps.bit_depth_luma_minus8 + 8) as u32,
                chroma: (sps.bit_depth_chroma_minus8 + 8) as u32,
            },
        )
    } else if size_refusal(sps) is Some {
        size_refusal(sps)
    } else if profile_for(sps.profile_idc) is None {
        Some(DecodeError::Profile(sps.profile_idc))
    } else {
        None
    }
}

/// What the driver is to open for `sps`.
pub open spec fn request_for(sps: Sps) -> SequenceRequest {
    SequenceRequest {
        profile: profile_for(sps.profile_idc).unwrap(),
        entrypoint: VA_ENTRYPOINT_VLD,
        rt_format: VA_RT_FORMAT_YUV420,
        coded_width: sps.width,
        coded_height: sps.height,
    }
}

/// The sequence `s` once `sps`, which differs from its last one in the cropping
/// rectangle at most, is active. A rectangle that leaves no 4:2:0 picture changes
/// nothing.
pub open spec fn cropped(s: SequenceState, sps: Sps) -> SequenceState {
    if size_refusal(sps) is Some {
        s
    } else {
        SequenceState {
            width: visible_width(sps) as u32,
            height: visible_height(sps) as u32,
            ..s
        }
    }
}

/// The sequence `sps` starts: no surfaces yet.
pub open spec fn sequence_for(sps: Sps) -> SequenceState {
    SequenceState {
        info: SequenceInfo::of(sps),
        width: visible_width(sps) as u32,
        height: visible_height(sps) as u32,
        surfaces: Seq::empty(),
    }
}

/// Whether `width` and `height` make a 4:2:0 picture: neither is zero or odd.
pub open spec fn is_picture_size(width: u32, height: u32) -> bool {
    &&& width > 0 && width % 2 == 0
    &&& height > 0 && height % 2 == 0
}

/// Returns the visible size of `sps`, which has to be a non-zero even 4:2:0 size.
pub fn visible_size(sps: &Sps) -> (r: Result<(u32, u32), DecodeError>)
    requires
        sps.valid(),
    ensures
        match size_refusal(*sps) {
            Some(e) => r matches Err(f) && f == e,
            None => r matches Ok(v) && v.0 == visible_width(*sps) && v.1 == visible_height(*sps)
                && is_picture_size(v.0, v.1),
        },
        match r {
            Ok(v) => {
                &&& v.0 == sps.visible.max_x - sps.visible.min_x
                &&& v.1 == sps.visible.max_y - sps.visible.min_y
                &&& v.0 > 0 && v.0 % 2 == 0
                &&& v.1 > 0 && v.1 % 2 == 0
            },
            Err(DecodeError::VisibleSize { width, height }) => {
                &&& width == sps.visible.max_x - sps.visible.min_x
                &&& height == sps.visible.max_y - sps.visible.min_y
                &&& width == 0 || width % 2 == 1 || height == 0 || height % 2 == 1
            },
            Err(_) => false,
        },
{
    let width: u32 = sps.visible.max_x - sps.visible.min_x;
    let height: u32 = sps.visible.max_y - sps.visible.min_y;
    if width == 0 || height == 0 || width % 2 != 0 || height % 2 != 0 {
        return Err(DecodeError::VisibleSize { width, height });
    }
    Ok((width, height))
}

impl SequenceInfo {
    /// Whether this is progressive 8-bit 4:2:0, which is all the decoder decodes.
    pub open spec fn supported(self) -> bool {
        &&& self.frame_mbs_only_flag
        &&& self.chroma_format_idc == 1
        &&& self.bit_depth_luma_minus8 == 0
        &&& self.bit_depth_chroma_minus8 == 0
    }
}

impl Sequence {
    /// Whether the sequence can be decoded and shown, and the pool makes surfaces of
    /// its coded size.
    pub open spec fn wf(self) -> bool {
        &&& self.info.supported()
        &&& is_picture_size(self.width, self.height)
        &&& self.pool.width == self.info.coded_width
        &&& self.pool.height == self.info.coded_height
    }

    /// Works out what decoding `sps` takes: what the driver is to open, and the
    /// sequence that stands once it has.
    pub fn new(sps: &Sps) -> (r: Result<(SequenceRequest, Sequence), DecodeError>)
        requires
            sps.valid(),
        ensures
            match refusal(*sps) {
                Some(e) => r matches Err(f) && f == e,
                None => r matches Ok(v) && v.0 == request_for(*sps) && v.1@ == sequence_for(*sps)
                    && v.1.wf(),
            },
            match r {
                Ok((request, sequence)) => {
                    &&& sps.frame_mbs_only_flag
                    &&& sps.chroma_format_idc == 1
                    &&& sps.bit_depth_luma_minus8 == 0 && sps.bit_depth_chroma_minus8 == 0
                    &&& request.profile == match sps.profile_idc {
                        66 => VA_PROFILE_H264_CONSTRAINED_BASELINE,
                        77 | 88 => VA_PROFILE_H264_MAIN,
                        _ => VA_PROFILE_H264_HIGH,
                    }
                    &&& request.entrypoint == VA_ENTRYPOINT_VLD
                    &&& request.rt_format == VA_RT_FORMAT_YUV420
                    &&& request.coded_width == sps.width && request.coded_height == sps.height
                    &&& sequence.width == sps.visible.max_x - sps.visible.min_x
                    &&& sequence.height == sps.visible.max_y - sps.visible.min_y
                    &&& sequence.pool.width == sps.width && sequence.pool.height == sps.height
                    &&& sequence.pool.surfaces@.len() == 0
                },
                Err(DecodeError::Interlaced) => !sps.frame_mbs_only_flag,
                Err(DecodeError::ChromaFormat(idc)) => {
                    &&& sps.frame_mbs_only_flag
                    &&& idc == sps.chroma_format_idc && idc != 1
                },
                Err(DecodeError::BitDepth { luma, chroma }) => {
                    &&& sps.frame_mbs_only_flag && sps.chroma_format_idc == 1
                    &&& luma == sps.bit_depth_luma_minus8 + 8
                    &&& chroma == sps.bit_depth_chroma_minus8 + 8
                    &&& luma != 8 || chroma != 8
                },
                Err(DecodeError::VisibleSize { width, height }) => {
                    &&& sps.frame_mbs_only_flag && sps.chroma_format_idc == 1
                    &&& sps.bit_depth_luma_minus8 == 0 && sps.bit_depth_chroma_minus8 == 0
                    &&& width == sps.visible.max_x - sps.visible.min_x
                    &&& height == sps.visible.max_y - sps.visible.min_y
                    &&& width == 0 || width % 2 == 1 || height == 0 || height % 2 == 1
                },
                Err(DecodeError::Profile(idc)) => {
                    &&& sps.frame_mbs_only_flag && sps.chroma_format_idc == 1
                    &&& sps.bit_depth_luma_minus8 == 0 && sps.bit_depth_chroma_minus8 == 0
                    &&& sps.visible.max_x > sps.visible.min_x
                    &&& sps.visible.max_y > sps.visible.min_y
                    &&& idc == sps.profile_idc
                    &&& match idc {
                        66 | 77 | 88 | 100 | 110 | 122 => false,
                        _ => true,
                    }
                },
                Err(_) => false,
            },
    {
        if !sps.frame_mbs_only_flag {
            return Err(DecodeError::Interlaced);
        }
        if sps.chroma_format_idc != 1 {
            return Err(DecodeError::ChromaFormat(sps.chroma_format_idc));
        }
        if sps.bit_depth_luma_minus8 != 0 || sps.bit_depth_chroma_minus8 != 0 {
            return Err(
                DecodeError::BitDepth {
                    luma: sps.bit_depth_luma_minus8 as u32 + 8,
                    chroma: sps.bit_depth_chroma_minus8 as u32 + 8,
                },
            );
        }
        let (width, height): (u32, u32) = match visible_size(sps) {
            Ok(size) => size,
            Err(e) => {
                return Err(e);
            },
        };
        let profile: i32 = match va_profile(sps) {
            Ok(p) => p,
            Err(e) => {
                return Err(e);
            },
        };
        let info = SequenceInfo::new(sps);
        let request = SequenceRequest {
            profile,
            entrypoint: VA_ENTRYPOINT_VLD,
            rt_format: VA_RT_FORMAT_YUV420,
            coded_width: info.coded_width,
            coded_height: info.coded_height,
        };
        let pool = SurfacePool {
            width: info.coded_width,
            height: info.coded_height,
            surfaces: Vec::new(),
        };
        Ok((request, Sequence { info, width, height, pool }))
    }
}

/// Whether a decoded picture in `s` or in `ready` is in `surface`.
pub open spec fn referred_to(s: Seq<DpbEntry>, ready: Seq<Handle>, surface: u32) -> bool {
    ||| exists|i: int|
        0 <= i < s.len() && (#[trigger] s[i]).reference is Some && s[i].reference.unwrap().surface
            == surface
    ||| exists|i: int| 0 <= i < ready.len() && (#[trigger] ready[i]).surface == surface
}

/// Returns whether a decoded picture is in `surface`.
pub fn is_referred_to(dpb: &Dpb, ready: &Vec<Handle>, surface: u32) -> (b: bool)
    ensures
        b == referred_to(dpb@.entries, ready@, surface),
{
    let entries = dpb.entries();
    let mut i: usize = 0;
    while i < entries.len()
        invariant
            i <= entries@.len(),
            entries@ == dpb@.entries,
            forall|k: int|
                0 <= k < i ==> !((#[trigger] entries@[k]).reference is Some
                    && entries@[k].reference.unwrap().surface == surface),
        decreases entries@.len() - i,
    {
        match entries[i].reference {
            Some(h) => {
                if h.surface == surface {
                    assert(entries@[i as int].reference is Some);
                    return true;
                }
            },
            None => {},
        }
        i = i + 1;
    }
    let mut j: usize = 0;
    while j < ready.len()
        invariant
            j <= ready@.len(),
            forall|k: int| 0 <= k < j ==> (#[trigger] ready@[k]).surface != surface,
        decreases ready@.len() - j,
    {
        if ready[j].surface == surface {
            return true;
        }
        j = j + 1;
    }
    false
}

/// Whether surface `k` of the pool `surfaces` is the one to use next: the last
/// that no picture refers to, which is the one given back last.
pub open spec fn is_next_free(
    surfaces: Seq<u32>,
    s: Seq<DpbEntry>,
    ready: Seq<Handle>,
    k: int,
) -> bool {
    &&& 0 <= k < surfaces.len()
    &&& !referred_to(s, ready, surfaces[k])
    &&& forall|j: int| k < j < surfaces.len() ==> referred_to(s, ready, #[trigger] surfaces[j])
}

/// The pool surface to use next, if one is free.
pub open spec fn free_surface(surfaces: Seq<u32>, s: Seq<DpbEntry>, ready: Seq<Handle>) -> Option<
    u32,
> {
    if exists|k: int| is_next_free(surfaces, s, ready, k) {
        Some(surfaces[choose|k: int| is_next_free(surfaces, s, ready, k)])
    } else {
        None
    }
}

/// The pool without `surface`.
pub open spec fn retired(surfaces: Seq<u32>, surface: u32) -> Seq<u32>
    decreases surfaces.len(),
{
    if surfaces.len() == 0 {
        surfaces
    } else {
        let rest = retired(surfaces.drop_last(), surface);
        if surfaces.last() == surface {
            rest
        } else {
            rest.push(surfaces.last())
        }
    }
}

/// The pool once its user has let go of the pictures `gone`, in this order, and those
/// in `s` and `ready` are left: a surface that no picture refers to any more has been
/// given back, and is the next to be used.
#[verifier::opaque]
pub open spec fn returned(
    surfaces: Seq<u32>,
    gone: Seq<Handle>,
    s: Seq<DpbEntry>,
    ready: Seq<Handle>,
) -> Seq<u32>
    decreases gone.len(),
{
    if gone.len() == 0 {
        surfaces
    } else {
        let before = returned(surfaces, gone.drop_last(), s, ready);
        let surface = gone.last().surface;
        if before.contains(surface) && !referred_to(s, ready, surface) {
            retired(before, surface).push(surface)
        } else {
            before
        }
    }
}

impl SurfacePool {
    /// Whether `surface` belongs to the pool.
    pub fn contains(&self, surface: u32) -> (b: bool)
        ensures
            b == self.surfaces@.contains(surface),
    {
        let mut i: usize = 0;
        while i < self.surfaces.len()
            invariant
                i <= self.surfaces@.len(),
                forall|k: int| 0 <= k < i ==> self.surfaces@[k] != surface,
            decreases self.surfaces@.len() - i,
        {
            if self.surfaces[i] == surface {
                return true;
            }
            i = i + 1;
        }
        false
    }

    /// Finds the surface given back last, of those no decoded picture refers to.
    pub fn take(&self, dpb: &Dpb, ready: &Vec<Handle>) -> (r: Option<u32>)
        ensures
            r == free_surface(self.surfaces@, dpb@.entries, ready@),
    {
        let ghost all = self.surfaces@;
        let ghost s = dpb@.entries;
        let mut k: usize = self.surfaces.len();
        while k > 0
            invariant
                k <= all.len(),
                all == self.surfaces@,
                s == dpb@.entries,
                forall|j: int| k <= j < all.len() ==> referred_to(s, ready@, #[trigger] all[j]),
            decreases k,
        {
            k = k - 1;
            let surface: u32 = self.surfaces[k];
            if !is_referred_to(dpb, ready, surface) {
                proof {
                    assert(is_next_free(all, s, ready@, k as int));
                    let c = choose|c: int| is_next_free(all, s, ready@, c);
                    assert(is_next_free(all, s, ready@, c));
                    if c < k {
                        assert(referred_to(s, ready@, all[k as int]));
                    } else if c > k {
                        assert(referred_to(s, ready@, all[c]));
                    }
                }
                return Some(surface);
            }
        }
        None
    }

    /// Takes `surface` out of the pool for good: its memory has been handed out,
    /// and decoding into it again would overwrite pixels still being read.
    pub fn retire(&mut self, surface: u32)
        ensures
            final(self).surfaces@ == retired(old(self).surfaces@, surface),
            final(self).width == old(self).width,
            final(self).height == old(self).height,
    {
        let ghost start = self.surfaces@;
        let mut kept: Vec<u32> = Vec::new();
        let mut i: usize = 0;
        while i < self.surfaces.len()
            invariant
                i <= self.surfaces@.len(),
                start == self.surfaces@,
                kept@ == retired(start.take(i as int), surface),
            decreases self.surfaces@.len() - i,
        {
            let id: u32 = self.surfaces[i];
            proof {
                assert(start.take(i as int + 1).drop_last() =~= start.take(i as int));
                assert(start.take(i as int + 1).last() == id);
            }
            if id != surface {
                kept.push(id);
            }
            i = i + 1;
        }
        assert(start.take(i as int) =~= start);
        self.surfaces = kept;
    }

    /// Gives back the surfaces of the pictures `gone` that no decoded picture refers to
    /// any more.
    pub fn give_back(&mut self, gone: &Vec<Handle>, dpb: &Dpb, ready: &Vec<Handle>)
        ensures
            final(self).surfaces@ == returned(
                old(self).surfaces@,
                gone@,
                dpb@.entries,
                ready@,
            ),
            final(self).width == old(self).width,
            final(self).height == old(self).height,
    {
        reveal(returned);
        let ghost start = self.surfaces@;
        let mut i: usize = 0;
        while i < gone.len()
            invariant
                i <= gone@.len(),
                self.surfaces@ == returned(start, gone@.take(i as int), dpb@.entries, ready@),
                self.width == old(self).width,
                self.height == old(self).height,
            decreases gone@.len() - i,
        {
            proof {
                reveal(returned);
                assert(gone@.take(i as int + 1).drop_last() =~= gone@.take(i as int));
            }
            let surface: u32 = gone[i].surface;
            if self.contains(surface) && !is_referred_to(dpb, ready, surface) {
                self.retire(surface);
                self.surfaces.push(surface);
            }
            i = i + 1;
        }
        assert(gone@.take(i as int) =~= gone@);
    }
}

////// Laws

/// A new cropping rectangle changes the visible size and nothing else, and one that
/// leaves no 4:2:0 picture not even that.
pub proof fn cropping_changes_the_visible_size_alone(s: SequenceState, sps: Sps)
    requires
        sps.valid(),
    ensures
        cropped(s, sps).info == s.info,
        cropped(s, sps).surfaces == s.surfaces,
        ({
            let (width, height) = (
                sps.visible.max_x - sps.visible.min_x,
                sps.visible.max_y - sps.visible.min_y,
            );
            if width > 0 && height > 0 && width % 2 == 0 && height % 2 == 0 {
                cropped(s, sps).width == width && cropped(s, sps).height == height
            } else {
                cropped(s, sps) == s
            }
        }),
{
}

/// Progressive 8-bit 4:2:0 sequences of an even size are decoded in six profiles, and
/// nothing else is.
pub proof fn sequences_are_told_by_their_format(sps: Sps)
    requires
        sps.valid(),
    ensures
        refusal(sps) is None <==> {
            let (width, height) = (
                sps.visible.max_x - sps.visible.min_x,
                sps.visible.max_y - sps.visible.min_y,
            );
            &&& sps.frame_mbs_only_flag
            &&& sps.chroma_format_idc == 1
            &&& sps.bit_depth_luma_minus8 == 0 && sps.bit_depth_chroma_minus8 == 0
            &&& width > 0 && height > 0 && width % 2 == 0 && height % 2 == 0
            &&& match sps.profile_idc {
                66 | 77 | 88 | 100 | 110 | 122 => true,
                _ => false,
            }
        },
{
}

/// Two parameter sets share the driver's side of a sequence exactly where they agree in
/// size, profile, format and depth of the buffer.
pub proof fn sequences_are_shared_where_the_driver_sees_no_change(a: Sps, b: Sps)
    ensures
        SequenceInfo::of(a) == SequenceInfo::of(b) <==> {
            &&& a.width == b.width && a.height == b.height
            &&& a.profile_idc == b.profile_idc
            &&& a.bit_depth_luma_minus8 == b.bit_depth_luma_minus8
            &&& a.bit_depth_chroma_minus8 == b.bit_depth_chroma_minus8
            &&& a.chroma_format_idc == b.chroma_format_idc
            &&& a.frame_mbs_only_flag == b.frame_mbs_only_flag
            &&& a.max_dpb_frames == b.max_dpb_frames
        },
{
}

/// A surface taken from the pool holds no picture that is still a reference or
/// still waiting to be output.
pub proof fn allocated_surfaces_hold_no_picture(
    surfaces: Seq<u32>,
    s: Seq<DpbEntry>,
    ready: Seq<Handle>,
)
    ensures
        free_surface(surfaces, s, ready) matches Some(id) ==> surfaces.contains(id) && !referred_to(
            s,
            ready,
            id,
        ),
        free_surface(surfaces, s, ready) is None ==> forall|k: int|
            0 <= k < surfaces.len() ==> referred_to(s, ready, #[trigger] surfaces[k]),
{
    if exists|k: int| is_next_free(surfaces, s, ready, k) {
        let k = choose|k: int| is_next_free(surfaces, s, ready, k);
        assert(is_next_free(surfaces, s, ready, k));
    } else {
        lemma_all_referred_to(surfaces, s, ready, surfaces.len() as int);
    }
}

proof fn lemma_all_referred_to(surfaces: Seq<u32>, s: Seq<DpbEntry>, ready: Seq<Handle>, n: int)
    requires
        0 <= n <= surfaces.len(),
        !(exists|k: int| is_next_free(surfaces, s, ready, k)),
    ensures
        forall|k: int|
            surfaces.len() - n <= k < surfaces.len() ==> referred_to(
                s,
                ready,
                #[trigger] surfaces[k],
            ),
    decreases n,
{
    if n > 0 {
        lemma_all_referred_to(surfaces, s, ready, n - 1);
        let k = surfaces.len() - n;
        if !referred_to(s, ready, surfaces[k]) {
            assert(is_next_free(surfaces, s, ready, k));
        }
    }
}

/// The surfaces the pictures in `s` and `ready` are in.
pub open spec fn surfaces_in_use(s: Seq<DpbEntry>, ready: Seq<Handle>) -> Set<u32> {
    Set::new(|id: u32| referred_to(s, ready, id))
}

proof fn lemma_in_use_bounded(s: Seq<DpbEntry>, ready: Seq<Handle>)
    ensures
        surfaces_in_use(s, ready).finite(),
        surfaces_in_use(s, ready).len() <= s.len() + ready.len(),
    decreases s.len() + ready.len(),
{
    let all = surfaces_in_use(s, ready);
    if s.len() > 0 {
        let rest = surfaces_in_use(s.drop_last(), ready);
        lemma_in_use_bounded(s.drop_last(), ready);
        match s.last().reference {
            Some(h) => {
                assert forall|id: u32| all.contains(id) implies rest.insert(h.surface).contains(
                    id,
                ) by {
                    if id != h.surface {
                        lemma_front_refers(s, ready, id);
                    }
                }
                lemma_bounded_by(all, rest.insert(h.surface));
            },
            None => {
                assert forall|id: u32| all.contains(id) implies rest.contains(id) by {
                    lemma_front_refers(s, ready, id);
                }
                lemma_bounded_by(all, rest);
            },
        }
    } else if ready.len() > 0 {
        let front = ready.drop_last();
        let rest = surfaces_in_use(s, front);
        lemma_in_use_bounded(s, front);
        assert forall|id: u32| all.contains(id) implies rest.insert(
            ready.last().surface,
        ).contains(id) by {
            if id != ready.last().surface {
                let i = choose|i: int|
                    0 <= i < ready.len() && (#[trigger] ready[i]).surface == id;
                assert(front[i].surface == id);
            }
        }
        lemma_bounded_by(all, rest.insert(ready.last().surface));
    } else {
        assert(all =~= Set::<u32>::empty());
    }
}

/// A picture other than the last entry's is in `id` where any is.
proof fn lemma_front_refers(s: Seq<DpbEntry>, ready: Seq<Handle>, id: u32)
    requires
        s.len() > 0,
        referred_to(s, ready, id),
        s.last().reference matches Some(h) ==> h.surface != id,
    ensures
        referred_to(s.drop_last(), ready, id),
{
    if exists|i: int|
        0 <= i < s.len() && (#[trigger] s[i]).reference is Some && s[i].reference.unwrap().surface
            == id {
        let i = choose|i: int|
            0 <= i < s.len() && (#[trigger] s[i]).reference is Some
                && s[i].reference.unwrap().surface == id;
        assert(s.drop_last()[i] == s[i]);
    }
}

proof fn lemma_bounded_by(a: Set<u32>, b: Set<u32>)
    requires
        b.finite(),
        a.subset_of(b),
    ensures
        a.finite(),
        a.len() <= b.len(),
{
    vstd::set_lib::lemma_set_subset_finite(b, a);
    vstd::set_lib::lemma_len_subset(a, b);
}

/// A pool stops growing on its own: another surface is asked for only while every
/// surface of the pool has a picture in it, and there are no more of those than
/// pictures held.
pub proof fn pools_grow_only_with_the_pictures_held(
    surfaces: Seq<u32>,
    s: Seq<DpbEntry>,
    ready: Seq<Handle>,
)
    requires
        surfaces.no_duplicates(),
        free_surface(surfaces, s, ready) is None,
    ensures
        surfaces.len() <= s.len() + ready.len(),
{
    allocated_surfaces_hold_no_picture(surfaces, s, ready);
    lemma_in_use_bounded(s, ready);
    surfaces.unique_seq_to_set();
    assert forall|id: u32| surfaces.to_set().contains(id) implies surfaces_in_use(
        s,
        ready,
    ).contains(id) by {
        let k = choose|k: int| 0 <= k < surfaces.len() && surfaces[k] == id;
        assert(referred_to(s, ready, surfaces[k]));
    }
    lemma_bounded_by(surfaces.to_set(), surfaces_in_use(s, ready));
}

/// The surfaces left when one is retired keep their order.
pub proof fn retiring_keeps_the_order(surfaces: Seq<u32>, surface: u32)
    ensures
        retired(surfaces, surface) == surfaces.filter(|id: u32| id != surface),
    decreases surfaces.len(),
{
    reveal(Seq::filter);
    if surfaces.len() > 0 {
        retiring_keeps_the_order(surfaces.drop_last(), surface);
    }
}

/// A surface given back comes last, and the others keep their order; one that a picture is
/// still in, or that is not the pool's, is not given back.
pub proof fn surfaces_given_back_come_last(
    surfaces: Seq<u32>,
    gone: Seq<Handle>,
    h: Handle,
    s: Seq<DpbEntry>,
    ready: Seq<Handle>,
)
    ensures
        returned(surfaces, Seq::empty(), s, ready) == surfaces,
        ({
            let before = returned(surfaces, gone, s, ready);
            let after = returned(surfaces, gone.push(h), s, ready);
            if before.contains(h.surface) && !referred_to(s, ready, h.surface) {
                after == before.filter(|id: u32| id != h.surface).push(h.surface)
            } else {
                after == before
            }
        }),
{
    reveal(returned);
    let before = returned(surfaces, gone, s, ready);
    retiring_keeps_the_order(before, h.surface);
    assert(gone.push(h).drop_last() =~= gone);
}

/// A retired surface is gone from the pool, and the others stay.
pub proof fn retired_surfaces_never_return(surfaces: Seq<u32>, surface: u32)
    ensures
        !retired(surfaces, surface).contains(surface),
        forall|id: u32|
            id != surface ==> (#[trigger] retired(surfaces, surface).contains(id)
                <==> surfaces.contains(id)),
    decreases surfaces.len(),
{
    if surfaces.len() > 0 {
        let front = surfaces.drop_last();
        let rest = retired(front, surface);
        retired_surfaces_never_return(front, surface);
        assert forall|id: u32| id != surface implies (#[trigger] retired(
            surfaces,
            surface,
        ).contains(id) <==> surfaces.contains(id)) by {
            assert(rest.contains(id) <==> front.contains(id));
            if surfaces.contains(id) {
                let i = choose|i: int| 0 <= i < surfaces.len() && surfaces[i] == id;
                if i < front.len() {
                    assert(front[i] == id);
                    let j = choose|j: int| 0 <= j < rest.len() && rest[j] == id;
                    assert(retired(surfaces, surface)[j] == id);
                } else {
                    assert(retired(surfaces, surface)[rest.len() as int] == id);
                }
            }
            if retired(surfaces, surface).contains(id) {
                let j = choose|j: int|
                    0 <= j < retired(surfaces, surface).len() && retired(surfaces, surface)[j]
                        == id;
                if j < rest.len() {
                    assert(rest[j] == id);
                    let i = choose|i: int| 0 <= i < front.len() && front[i] == id;
                    assert(surfaces[i] == id);
                } else {
                    assert(surfaces[surfaces.len() - 1] == id);
                }
            }
        }
        if retired(surfaces, surface).contains(surface) {
            let j = choose|j: int|
                0 <= j < retired(surfaces, surface).len() && retired(surfaces, surface)[j]
                    == surface;
            assert(rest[j] == surface);
        }
    }
}

/// Giving surfaces back loses none and brings none: it only has them used again sooner.
pub proof fn pools_keep_what_is_given_back(
    surfaces: Seq<u32>,
    gone: Seq<Handle>,
    s: Seq<DpbEntry>,
    ready: Seq<Handle>,
)
    ensures
        forall|id: u32| #[trigger]
            returned(surfaces, gone, s, ready).contains(id) <==> surfaces.contains(id),
    decreases gone.len(),
{
    reveal(returned);
    if gone.len() > 0 {
        pools_keep_what_is_given_back(surfaces, gone.drop_last(), s, ready);
        let before = returned(surfaces, gone.drop_last(), s, ready);
        let surface = gone.last().surface;
        if before.contains(surface) && !referred_to(s, ready, surface) {
            let rest = retired(before, surface);
            retired_surfaces_never_return(before, surface);
            let all = rest.push(surface);
            assert forall|id: u32| #[trigger] all.contains(id) <==> before.contains(id) by {
                if all.contains(id) {
                    let j = choose|j: int| 0 <= j < all.len() && all[j] == id;
                    if j < rest.len() {
                        assert(rest[j] == id);
                        assert(rest.contains(id));
                    }
                }
                if before.contains(id) {
                    if id == surface {
                        assert(all[rest.len() as int] == id);
                    } else {
                        assert(rest.contains(id));
                        let j = choose|j: int| 0 <= j < rest.len() && rest[j] == id;
                        assert(all[j] == id);
                    }
                }
            }
        }
    }
}

/// The surface given back last is used first.
pub proof fn surfaces_given_back_last_are_used_first(
    surfaces: Seq<u32>,
    gone: Seq<Handle>,
    s: Seq<DpbEntry>,
    ready: Seq<Handle>,
)
    requires
        gone.len() > 0,
        surfaces.contains(gone.last().surface),
        !referred_to(s, ready, gone.last().surface),
    ensures
        free_surface(returned(surfaces, gone, s, ready), s, ready) == Some(gone.last().surface),
{
    reveal(returned);
    let surface = gone.last().surface;
    let before = returned(surfaces, gone.drop_last(), s, ready);
    pools_keep_what_is_given_back(surfaces, gone.drop_last(), s, ready);
    assert(before.contains(surface));
    let all = returned(surfaces, gone, s, ready);
    let k = all.len() - 1;
    assert(is_next_free(all, s, ready, k));
    let c = choose|c: int| is_next_free(all, s, ready, c);
    assert(is_next_free(all, s, ready, c));
    if c < k {
        assert(referred_to(s, ready, all[k]));
    }
}

/// A pool without surfaces gets none back.
pub proof fn empty_pools_stay_empty(
    surfaces: Seq<u32>,
    gone: Seq<Handle>,
    s: Seq<DpbEntry>,
    ready: Seq<Handle>,
)
    requires
        surfaces.len() == 0,
    ensures
        returned(surfaces, gone, s, ready) == surfaces,
    decreases gone.len(),
{
    reveal(returned);
    if gone.len() > 0 {
        empty_pools_stay_empty(surfaces, gone.drop_last(), s, ready);
    }
}

} // verus!
