//! The VA-API parameter buffers of a picture and of a slice.

pub mod laws;

use vstd::prelude::*;

use crate::h264::dpb;
use crate::h264::dpb::{Dpb, DpbEntry};
use crate::h264::picture::{PictureData, Reference};
use crate::h264::syntax::{Pps, SliceHeader, SliceType, Sps};
use crate::surface::Handle;
use crate::va::{
    VA_INVALID_ID, VA_PICTURE_H264_INVALID, VA_PICTURE_H264_LONG_TERM_REFERENCE,
    VA_PICTURE_H264_SHORT_TERM_REFERENCE, VA_SLICE_DATA_FLAG_ALL,
};

verus! {

/// The zig-zag scan of a 4x4 block: the raster position of each coefficient.
pub const ZIGZAG_4X4: [usize; 16] = [0, 1, 4, 8, 5, 2, 3, 6, 9, 12, 13, 10, 7, 11, 14, 15];

/// The zig-zag scan of an 8x8 block: the raster position of each coefficient.
pub const ZIGZAG_8X8: [usize; 64] = [
    0, 1, 8, 16, 9, 2, 3, 10, 17, 24, 32, 25, 18, 11, 4, 5, 12, 19, 26, 33, 40, 48, 41, 34, 27,
    20, 13, 6, 7, 14, 21, 28, 35, 42, 49, 56, 57, 50, 43, 36, 29, 22, 15, 23, 30, 37, 44, 51,
    58, 59, 52, 45, 38, 31, 39, 46, 53, 60, 61, 54, 47, 55, 62, 63,
];

/// `VAPictureH264`: a picture as the driver is told about it.
#[derive(Clone, Copy, Debug, PartialEq, Eq, Structural)]
pub struct PictureH264 {
    pub picture_id: u32,
    pub frame_idx: u32,
    pub flags: u32,
    pub top_field_order_cnt: i32,
    pub bottom_field_order_cnt: i32,
}

/// `VAIQMatrixBufferH264`: the scaling lists, in raster order.
#[derive(Clone, Copy, Debug)]
pub struct IQMatrixBufferH264 {
    pub scaling_list4x4: [[u8; 16]; 6],
    pub scaling_list8x8: [[u8; 64]; 2],
}

/// The `seq_fields` of `VAPictureParameterBufferH264`.
#[derive(Clone, Copy, Debug, PartialEq, Eq, Structural)]
pub struct H264SeqFields {
    pub chroma_format_idc: u32,
    pub residual_colour_transform_flag: u32,
    pub gaps_in_frame_num_value_allowed_flag: u32,
    pub frame_mbs_only_flag: u32,
    pub mb_adaptive_frame_field_flag: u32,
    pub direct_8x8_inference_flag: u32,
    pub min_luma_bi_pred_size8x8: u32,
    pub log2_max_frame_num_minus4: u32,
    pub pic_order_cnt_type: u32,
    pub log2_max_pic_order_cnt_lsb_minus4: u32,
    pub delta_pic_order_always_zero_flag: u32,
}

/// The `pic_fields` of `VAPictureParameterBufferH264`.
#[derive(Clone, Copy, Debug, PartialEq, Eq, Structural)]
pub struct H264PicFields {
    pub entropy_coding_mode_flag: u32,
    pub weighted_pred_flag: u32,
    pub weighted_bipred_idc: u32,
    pub transform_8x8_mode_flag: u32,
    pub field_pic_flag: u32,
    pub constrained_intra_pred_flag: u32,
    pub pic_order_present_flag: u32,
    pub deblocking_filter_control_present_flag: u32,
    pub redundant_pic_cnt_present_flag: u32,
    pub reference_pic_flag: u32,
}

/// `VAPictureParameterBufferH264`.
#[derive(Clone, Copy, Debug)]
pub struct PictureParameterBufferH264 {
    pub curr_pic: PictureH264,
    pub reference_frames: [PictureH264; 16],
    pub picture_width_in_mbs_minus1: u16,
    pub picture_height_in_mbs_minus1: u16,
    pub bit_depth_luma_minus8: u8,
    pub bit_depth_chroma_minus8: u8,
    pub num_ref_frames: u8,
    pub seq_fields: H264SeqFields,
    pub num_slice_groups_minus1: u8,
    pub slice_group_map_type: u8,
    pub slice_group_change_rate_minus1: u16,
    pub pic_init_qp_minus26: i8,
    pub pic_init_qs_minus26: i8,
    pub chroma_qp_index_offset: i8,
    pub second_chroma_qp_index_offset: i8,
    pub pic_fields: H264PicFields,
    pub frame_num: u16,
}

/// The explicit prediction weights of one reference list.
#[derive(Clone, Copy, Debug)]
pub struct Weights {
    pub luma_weight_flag: u8,
    pub luma_weight: [i16; 32],
    pub luma_offset: [i16; 32],
    pub chroma_weight_flag: u8,
    pub chroma_weight: [[i16; 2]; 32],
    pub chroma_offset: [[i16; 2]; 32],
}

/// `VASliceParameterBufferH264`.
#[derive(Clone, Copy, Debug)]
pub struct SliceParameterBufferH264 {
    pub slice_data_size: u32,
    pub slice_data_offset: u32,
    pub slice_data_flag: u32,
    pub slice_data_bit_offset: u16,
    pub first_mb_in_slice: u16,
    pub slice_type: u8,
    pub direct_spatial_mv_pred_flag: u8,
    pub num_ref_idx_l0_active_minus1: u8,
    pub num_ref_idx_l1_active_minus1: u8,
    pub cabac_init_idc: u8,
    pub slice_qp_delta: i8,
    pub disable_deblocking_filter_idc: u8,
    pub slice_alpha_c0_offset_div2: i8,
    pub slice_beta_offset_div2: i8,
    pub ref_pic_list_0: [PictureH264; 32],
    pub ref_pic_list_1: [PictureH264; 32],
    pub luma_log2_weight_denom: u8,
    pub chroma_log2_weight_denom: u8,
    pub weights_l0: Weights,
    pub weights_l1: Weights,
}

////// Pictures

/// The surface an entry decoded into; invented pictures have none.
pub open spec fn surface_of(reference: Option<Handle>) -> u32 {
    match reference {
        Some(handle) => handle.surface,
        None => VA_INVALID_ID,
    }
}

/// Returns the surface an entry decoded into, or `VA_INVALID_ID` for the
/// non-existing pictures invented for a frame_num gap.
pub fn va_surface_id(reference: &Option<Handle>) -> (id: u32)
    ensures
        id == surface_of(*reference),
        reference matches Some(handle) ==> id == handle.surface,
        reference is None ==> id == VA_INVALID_ID,
{
    match reference {
        Some(handle) => handle.surface,
        None => VA_INVALID_ID,
    }
}

/// `pic`, decoded into `surface`, as the driver is told about it.
pub open spec fn va_picture(pic: PictureData, surface: u32) -> PictureH264 {
    PictureH264 {
        picture_id: surface,
        frame_idx: if pic.reference == Reference::LongTerm {
            pic.long_term_frame_idx
        } else {
            pic.frame_num
        },
        flags: match pic.reference {
            Reference::LongTerm => VA_PICTURE_H264_LONG_TERM_REFERENCE,
            Reference::ShortTerm => VA_PICTURE_H264_SHORT_TERM_REFERENCE,
            Reference::Unused => 0,
        },
        top_field_order_cnt: pic.top_field_order_cnt,
        bottom_field_order_cnt: pic.bottom_field_order_cnt,
    }
}

/// The picture that fills a slot there is no reference for.
pub open spec fn no_picture() -> PictureH264 {
    PictureH264 {
        picture_id: VA_INVALID_ID,
        frame_idx: 0,
        flags: VA_PICTURE_H264_INVALID,
        top_field_order_cnt: 0,
        bottom_field_order_cnt: 0,
    }
}

/// What slot `i` of a list filled from `s` holds.
pub open spec fn slot(s: Seq<DpbEntry>, i: int) -> PictureH264 {
    if i < s.len() {
        va_picture(s[i].pic, surface_of(s[i].reference))
    } else {
        no_picture()
    }
}

/// Describes `pic`, decoded into `surface_id`. Progressive only, so the field
/// cases collapse to the frame one.
pub fn fill_va_h264_pic(pic: &PictureData, surface_id: u32) -> (p: PictureH264)
    ensures
        p == va_picture(*pic, surface_id),
        p.picture_id == surface_id,
        p.top_field_order_cnt == pic.top_field_order_cnt,
        p.bottom_field_order_cnt == pic.bottom_field_order_cnt,
        pic.reference == Reference::LongTerm ==> p.frame_idx == pic.long_term_frame_idx && p.flags
            == VA_PICTURE_H264_LONG_TERM_REFERENCE,
        pic.reference == Reference::ShortTerm ==> p.frame_idx == pic.frame_num && p.flags
            == VA_PICTURE_H264_SHORT_TERM_REFERENCE,
        pic.reference == Reference::Unused ==> p.frame_idx == pic.frame_num && p.flags == 0,
{
    let (frame_idx, flags): (u32, u32) = match pic.reference {
        Reference::LongTerm => (pic.long_term_frame_idx, VA_PICTURE_H264_LONG_TERM_REFERENCE),
        Reference::ShortTerm => (pic.frame_num, VA_PICTURE_H264_SHORT_TERM_REFERENCE),
        Reference::Unused => (pic.frame_num, 0),
    };
    PictureH264 {
        picture_id: surface_id,
        frame_idx,
        flags,
        top_field_order_cnt: pic.top_field_order_cnt,
        bottom_field_order_cnt: pic.bottom_field_order_cnt,
    }
}

/// Builds the picture used to fill the array slots there is no reference for.
pub fn build_invalid_va_h264_pic() -> (p: PictureH264)
    ensures
        p == no_picture(),
        p.picture_id == VA_INVALID_ID,
        p.flags == VA_PICTURE_H264_INVALID,
        p.frame_idx == 0,
        p.top_field_order_cnt == 0,
        p.bottom_field_order_cnt == 0,
{
    PictureH264 {
        picture_id: VA_INVALID_ID,
        frame_idx: 0,
        flags: VA_PICTURE_H264_INVALID,
        top_field_order_cnt: 0,
        bottom_field_order_cnt: 0,
    }
}

/// Describes a reference list: its first 32 pictures, then empty slots.
pub fn fill_ref_pic_list(list: &Vec<DpbEntry>) -> (pics: [PictureH264; 32])
    ensures
        forall|i: int| 0 <= i < 32 ==> #[trigger] pics[i] == slot(list@, i),
        forall|i: int|
            0 <= i < 32 && i < list@.len() ==> (#[trigger] pics[i]).top_field_order_cnt
                == list@[i].pic.top_field_order_cnt && (list@[i].reference matches Some(h)
                ==> pics[i].picture_id == h.surface),
        forall|i: int|
            list@.len() <= i < 32 ==> (#[trigger] pics[i]).flags == VA_PICTURE_H264_INVALID
                && pics[i].picture_id == VA_INVALID_ID,
{
    let mut pics = [build_invalid_va_h264_pic();32];
    let mut i: usize = 0;
    while i < list.len() && i < 32
        invariant
            i <= 32,
            i <= list@.len(),
            forall|k: int| 0 <= k < i ==> #[trigger] pics[k] == slot(list@, k),
            forall|k: int| i <= k < 32 ==> #[trigger] pics[k] == no_picture(),
        decreases list@.len() - i,
    {
        let e = list[i];
        pics[i] = fill_va_h264_pic(&e.pic, va_surface_id(&e.reference));
        i = i + 1;
    }
    pics
}

////// Scaling lists

/// Whether `raster` is `zigzag` with each value moved to its place in a 4x4 block.
pub open spec fn unscanned_4x4(raster: [u8; 16], zigzag: [u8; 16]) -> bool {
    forall|i: int| 0 <= i < 16 ==> raster[#[trigger] ZIGZAG_4X4[i] as int] == zigzag[i]
}

/// Whether `raster` is `zigzag` with each value moved to its place in an 8x8 block.
pub open spec fn unscanned_8x8(raster: [u8; 64], zigzag: [u8; 64]) -> bool {
    forall|i: int| 0 <= i < 64 ==> raster[#[trigger] ZIGZAG_8X8[i] as int] == zigzag[i]
}

/// The scans visit every position of their block once.
pub proof fn scans_are_permutations(i: int, j: int)
    ensures
        0 <= i < j < 16 ==> ZIGZAG_4X4[i] != ZIGZAG_4X4[j],
        0 <= i < 16 ==> ZIGZAG_4X4[i] < 16,
        0 <= i < j < 64 ==> ZIGZAG_8X8[i] != ZIGZAG_8X8[j],
        0 <= i < 64 ==> ZIGZAG_8X8[i] < 64,
{
}

fn unscan_4x4(zigzag: &[u8; 16]) -> (raster: [u8; 16])
    ensures
        unscanned_4x4(raster, *zigzag),
{
    let mut raster = [0u8;16];
    let mut i: usize = 0;
    while i < 16
        invariant
            i <= 16,
            forall|k: int| 0 <= k < i ==> raster[#[trigger] ZIGZAG_4X4[k] as int] == zigzag[k],
        decreases 16 - i,
    {
        let at: usize = ZIGZAG_4X4[i];
        proof {
            scans_are_permutations(i as int, 16);
            assert forall|k: int| 0 <= k < i implies #[trigger] ZIGZAG_4X4[k] != at && ZIGZAG_4X4[k]
                < 16 by {
                scans_are_permutations(k, i as int);
            }
        }
        raster[at] = zigzag[i];
        i = i + 1;
    }
    raster
}

fn unscan_8x8(zigzag: &[u8; 64]) -> (raster: [u8; 64])
    ensures
        unscanned_8x8(raster, *zigzag),
{
    let mut raster = [0u8;64];
    let mut i: usize = 0;
    while i < 64
        invariant
            i <= 64,
            forall|k: int| 0 <= k < i ==> raster[#[trigger] ZIGZAG_8X8[k] as int] == zigzag[k],
        decreases 64 - i,
    {
        let at: usize = ZIGZAG_8X8[i];
        proof {
            scans_are_permutations(i as int, 64);
            assert forall|k: int| 0 <= k < i implies #[trigger] ZIGZAG_8X8[k] != at && ZIGZAG_8X8[k]
                < 64 by {
                scans_are_permutations(k, i as int);
            }
        }
        raster[at] = zigzag[i];
        i = i + 1;
    }
    raster
}

/// Whether `m` holds the scaling lists of `pps`, in raster order: all of the 4x4
/// lists, and the two 8x8 lists VA-API has room for.
pub open spec fn is_iq_matrix(m: IQMatrixBufferH264, pps: Pps) -> bool {
    &&& forall|l: int|
        0 <= l < 6 ==> unscanned_4x4(#[trigger] m.scaling_list4x4[l], pps.scaling_lists_4x4[l])
    &&& forall|l: int|
        0 <= l < 2 ==> unscanned_8x8(#[trigger] m.scaling_list8x8[l], pps.scaling_lists_8x8[l])
}

/// Builds the scaling lists. VA-API wants them in raster order, the PPS carries
/// them zig-zag.
pub fn build_iq_matrix(pps: &Pps) -> (m: IQMatrixBufferH264)
    ensures
        is_iq_matrix(m, *pps),
{
    let mut scaling_list4x4 = [[0u8;16];6];
    let mut l: usize = 0;
    while l < 6
        invariant
            l <= 6,
            forall|k: int|
                0 <= k < l ==> unscanned_4x4(
                    #[trigger] scaling_list4x4[k],
                    pps.scaling_lists_4x4[k],
                ),
        decreases 6 - l,
    {
        scaling_list4x4[l] = unscan_4x4(&pps.scaling_lists_4x4[l]);
        l = l + 1;
    }
    let mut scaling_list8x8 = [[0u8;64];2];
    let mut n: usize = 0;
    while n < 2
        invariant
            n <= 2,
            forall|k: int|
                0 <= k < n ==> unscanned_8x8(
                    #[trigger] scaling_list8x8[k],
                    pps.scaling_lists_8x8[k],
                ),
        decreases 2 - n,
    {
        scaling_list8x8[n] = unscan_8x8(&pps.scaling_lists_8x8[n]);
        n = n + 1;
    }
    IQMatrixBufferH264 { scaling_list4x4, scaling_list8x8 }
}

////// Picture parameters

/// `b` as the bit a parameter buffer holds.
pub open spec fn bit(b: bool) -> u32 {
    if b {
        1
    } else {
        0
    }
}

fn to_bit(b: bool) -> (n: u32)
    ensures
        n == bit(b),
        n == 1 <==> b,
        n == 0 <==> !b,
{
    if b {
        1
    } else {
        0
    }
}

/// The references the driver is told about: the short-term ones that were really
/// decoded, then the long-term ones.
pub open spec fn told_references(s: Seq<DpbEntry>) -> Seq<DpbEntry> {
    s.filter(|e: DpbEntry| dpb::short_term(e) && !e.pic.nonexisting) + s.filter(
        |e: DpbEntry| dpb::long_term(e),
    )
}

/// `PicHeightInMapUnits`, doubled where a map unit is a field pair, less one.
pub open spec fn height_in_mbs_minus1(sps: Sps) -> int {
    (sps.pic_height_in_map_units_minus1 + 1) * if sps.frame_mbs_only_flag {
        1int
    } else {
        2int
    } - 1
}

/// The sequence fields of a picture coded under `sps`. From level 3.1 on a
/// bi-predicted block is 8x8 or larger (A.3.3.2).
pub open spec fn seq_fields(sps: Sps) -> H264SeqFields {
    H264SeqFields {
        chroma_format_idc: sps.chroma_format_idc as u32,
        residual_colour_transform_flag: bit(sps.separate_colour_plane_flag),
        gaps_in_frame_num_value_allowed_flag: bit(sps.gaps_in_frame_num_value_allowed_flag),
        frame_mbs_only_flag: bit(sps.frame_mbs_only_flag),
        mb_adaptive_frame_field_flag: bit(sps.mb_adaptive_frame_field_flag),
        direct_8x8_inference_flag: bit(sps.direct_8x8_inference_flag),
        min_luma_bi_pred_size8x8: bit(sps.level_idc >= 31),
        log2_max_frame_num_minus4: sps.log2_max_frame_num_minus4 as u32,
        pic_order_cnt_type: sps.pic_order_cnt_type as u32,
        log2_max_pic_order_cnt_lsb_minus4: sps.log2_max_pic_order_cnt_lsb_minus4 as u32,
        delta_pic_order_always_zero_flag: bit(sps.delta_pic_order_always_zero_flag),
    }
}

/// The picture fields of `pic`, coded under `pps` and started by `hdr`.
pub open spec fn pic_fields(hdr: SliceHeader, pic: PictureData, pps: Pps) -> H264PicFields {
    H264PicFields {
        entropy_coding_mode_flag: bit(pps.entropy_coding_mode_flag),
        weighted_pred_flag: bit(pps.weighted_pred_flag),
        weighted_bipred_idc: pps.weighted_bipred_idc as u32,
        transform_8x8_mode_flag: bit(pps.transform_8x8_mode_flag),
        field_pic_flag: bit(hdr.field_pic_flag),
        constrained_intra_pred_flag: bit(pps.constrained_intra_pred_flag),
        pic_order_present_flag: bit(pps.bottom_field_pic_order_in_frame_present_flag),
        deblocking_filter_control_present_flag: bit(pps.deblocking_filter_control_present_flag),
        redundant_pic_cnt_present_flag: bit(pps.redundant_pic_cnt_present_flag),
        reference_pic_flag: bit(pic.nal_ref_idc != 0),
    }
}

/// Whether `p` describes `pic`, decoded into `surface` with `s` as the decoded
/// picture buffer.
pub open spec fn is_pic_param(
    p: PictureParameterBufferH264,
    hdr: SliceHeader,
    pic: PictureData,
    surface: u32,
    s: Seq<DpbEntry>,
    sps: Sps,
    pps: Pps,
) -> bool {
    &&& p.curr_pic == va_picture(pic, surface)
    &&& forall|i: int| 0 <= i < 16 ==> #[trigger] p.reference_frames[i] == slot(told_references(s), i)
    &&& p.picture_width_in_mbs_minus1 == sps.pic_width_in_mbs_minus1
    &&& p.picture_height_in_mbs_minus1 == height_in_mbs_minus1(sps)
    &&& p.bit_depth_luma_minus8 == sps.bit_depth_luma_minus8
    &&& p.bit_depth_chroma_minus8 == sps.bit_depth_chroma_minus8
    &&& p.num_ref_frames == sps.max_num_ref_frames
    &&& p.seq_fields == seq_fields(sps)
    &&& p.num_slice_groups_minus1 == 0
    &&& p.slice_group_map_type == 0
    &&& p.slice_group_change_rate_minus1 == 0
    &&& p.pic_init_qp_minus26 == pps.pic_init_qp_minus26
    &&& p.pic_init_qs_minus26 == pps.pic_init_qs_minus26
    &&& p.chroma_qp_index_offset == pps.chroma_qp_index_offset
    &&& p.second_chroma_qp_index_offset == pps.second_chroma_qp_index_offset
    &&& p.pic_fields == pic_fields(hdr, pic, pps)
    &&& p.frame_num == hdr.frame_num
}

/// Collects the references the driver is told about.
fn collect_references(dpb: &Dpb) -> (refs: Vec<DpbEntry>)
    ensures
        refs@ == told_references(dpb@.entries),
{
    let entries = dpb.entries();
    let ghost s = entries@;
    let ghost short = |e: DpbEntry| dpb::short_term(e) && !e.pic.nonexisting;
    let ghost long = |e: DpbEntry| dpb::long_term(e);
    let mut refs: Vec<DpbEntry> = Vec::new();
    let mut i: usize = 0;
    while i < entries.len()
        invariant
            i <= entries@.len(),
            s == entries@,
            short == (|e: DpbEntry| dpb::short_term(e) && !e.pic.nonexisting),
            refs@ == s.take(i as int).filter(short),
        decreases entries@.len() - i,
    {
        let e = entries[i];
        proof {
            reveal(Seq::filter);
            assert(s.take(i as int + 1).drop_last() =~= s.take(i as int));
            assert(s.take(i as int + 1).last() == e);
        }
        if e.pic.reference == Reference::ShortTerm && !e.pic.nonexisting {
            refs.push(e);
        }
        i = i + 1;
    }
    assert(s.take(i as int) =~= s);
    let mut j: usize = 0;
    proof {
        reveal(Seq::filter);
        assert(s.take(0).filter(long) =~= Seq::empty());
        assert(refs@ =~= s.filter(short) + s.take(0).filter(long));
    }
    while j < entries.len()
        invariant
            j <= entries@.len(),
            s == entries@,
            long == (|e: DpbEntry| dpb::long_term(e)),
            refs@ == s.filter(short) + s.take(j as int).filter(long),
        decreases entries@.len() - j,
    {
        let e = entries[j];
        proof {
            reveal(Seq::filter);
            assert(s.take(j as int + 1).drop_last() =~= s.take(j as int));
            assert(s.take(j as int + 1).last() == e);
        }
        let ghost before = refs@;
        if e.pic.reference == Reference::LongTerm {
            refs.push(e);
            assert(refs@ =~= s.filter(short) + s.take(j as int).filter(long).push(e));
        }
        j = j + 1;
    }
    assert(s.take(j as int) =~= s);
    refs
}

/// Builds the parameters of a picture.
pub fn build_pic_param(
    hdr: &SliceHeader,
    pic: &PictureData,
    surface_id: u32,
    dpb: &Dpb,
    sps: &Sps,
    pps: &Pps,
) -> (p: PictureParameterBufferH264)
    requires
        sps.valid(),
    ensures
        is_pic_param(p, *hdr, *pic, surface_id, dpb@.entries, *sps, *pps),
        p.curr_pic.picture_id == surface_id,
        p.curr_pic.top_field_order_cnt == pic.top_field_order_cnt,
        p.curr_pic.bottom_field_order_cnt == pic.bottom_field_order_cnt,
        p.frame_num == hdr.frame_num,
        p.picture_width_in_mbs_minus1 == sps.pic_width_in_mbs_minus1,
        sps.frame_mbs_only_flag ==> p.picture_height_in_mbs_minus1
            == sps.pic_height_in_map_units_minus1,
        !sps.frame_mbs_only_flag ==> p.picture_height_in_mbs_minus1 + 1 == 2 * (
        sps.pic_height_in_map_units_minus1 + 1),
        p.bit_depth_luma_minus8 == sps.bit_depth_luma_minus8,
        p.bit_depth_chroma_minus8 == sps.bit_depth_chroma_minus8,
        p.num_ref_frames == sps.max_num_ref_frames,
        p.num_slice_groups_minus1 == 0,
        p.slice_group_map_type == 0,
        p.slice_group_change_rate_minus1 == 0,
        p.pic_init_qp_minus26 == pps.pic_init_qp_minus26,
        p.pic_init_qs_minus26 == pps.pic_init_qs_minus26,
        p.chroma_qp_index_offset == pps.chroma_qp_index_offset,
        p.second_chroma_qp_index_offset == pps.second_chroma_qp_index_offset,
        p.seq_fields.chroma_format_idc == sps.chroma_format_idc,
        p.seq_fields.log2_max_frame_num_minus4 == sps.log2_max_frame_num_minus4,
        p.seq_fields.pic_order_cnt_type == sps.pic_order_cnt_type,
        p.seq_fields.log2_max_pic_order_cnt_lsb_minus4 == sps.log2_max_pic_order_cnt_lsb_minus4,
        p.pic_fields.weighted_bipred_idc == pps.weighted_bipred_idc,
        (p.seq_fields.residual_colour_transform_flag == 1) == (sps.separate_colour_plane_flag),
        (p.seq_fields.residual_colour_transform_flag == 0) == !(sps.separate_colour_plane_flag),
        (p.seq_fields.gaps_in_frame_num_value_allowed_flag == 1) == (sps.gaps_in_frame_num_value_allowed_flag),
        (p.seq_fields.gaps_in_frame_num_value_allowed_flag == 0) == !(sps.gaps_in_frame_num_value_allowed_flag),
        (p.seq_fields.frame_mbs_only_flag == 1) == (sps.frame_mbs_only_flag),
        (p.seq_fields.frame_mbs_only_flag == 0) == !(sps.frame_mbs_only_flag),
        (p.seq_fields.mb_adaptive_frame_field_flag == 1) == (sps.mb_adaptive_frame_field_flag),
        (p.seq_fields.mb_adaptive_frame_field_flag == 0) == !(sps.mb_adaptive_frame_field_flag),
        (p.seq_fields.direct_8x8_inference_flag == 1) == (sps.direct_8x8_inference_flag),
        (p.seq_fields.direct_8x8_inference_flag == 0) == !(sps.direct_8x8_inference_flag),
        (p.seq_fields.min_luma_bi_pred_size8x8 == 1) == (sps.level_idc >= 31),
        (p.seq_fields.min_luma_bi_pred_size8x8 == 0) == !(sps.level_idc >= 31),
        (p.seq_fields.delta_pic_order_always_zero_flag == 1) == (sps.delta_pic_order_always_zero_flag),
        (p.seq_fields.delta_pic_order_always_zero_flag == 0) == !(sps.delta_pic_order_always_zero_flag),
        (p.pic_fields.entropy_coding_mode_flag == 1) == (pps.entropy_coding_mode_flag),
        (p.pic_fields.entropy_coding_mode_flag == 0) == !(pps.entropy_coding_mode_flag),
        (p.pic_fields.weighted_pred_flag == 1) == (pps.weighted_pred_flag),
        (p.pic_fields.weighted_pred_flag == 0) == !(pps.weighted_pred_flag),
        (p.pic_fields.transform_8x8_mode_flag == 1) == (pps.transform_8x8_mode_flag),
        (p.pic_fields.transform_8x8_mode_flag == 0) == !(pps.transform_8x8_mode_flag),
        (p.pic_fields.field_pic_flag == 1) == (hdr.field_pic_flag),
        (p.pic_fields.field_pic_flag == 0) == !(hdr.field_pic_flag),
        (p.pic_fields.constrained_intra_pred_flag == 1) == (pps.constrained_intra_pred_flag),
        (p.pic_fields.constrained_intra_pred_flag == 0) == !(pps.constrained_intra_pred_flag),
        (p.pic_fields.pic_order_present_flag == 1) == (pps.bottom_field_pic_order_in_frame_present_flag),
        (p.pic_fields.pic_order_present_flag == 0) == !(pps.bottom_field_pic_order_in_frame_present_flag),
        (p.pic_fields.deblocking_filter_control_present_flag == 1) == (pps.deblocking_filter_control_present_flag),
        (p.pic_fields.deblocking_filter_control_present_flag == 0) == !(pps.deblocking_filter_control_present_flag),
        (p.pic_fields.redundant_pic_cnt_present_flag == 1) == (pps.redundant_pic_cnt_present_flag),
        (p.pic_fields.redundant_pic_cnt_present_flag == 0) == !(pps.redundant_pic_cnt_present_flag),
        (p.pic_fields.reference_pic_flag == 1) == (pic.nal_ref_idc != 0),
        (p.pic_fields.reference_pic_flag == 0) == !(pic.nal_ref_idc != 0),
{
    let refs = collect_references(dpb);
    let mut reference_frames = [build_invalid_va_h264_pic();16];
    let mut i: usize = 0;
    while i < refs.len() && i < 16
        invariant
            i <= 16,
            i <= refs@.len(),
            forall|k: int| 0 <= k < i ==> #[trigger] reference_frames[k] == slot(refs@, k),
            forall|k: int| i <= k < 16 ==> #[trigger] reference_frames[k] == no_picture(),
        decreases refs@.len() - i,
    {
        let e = refs[i];
        reference_frames[i] = fill_va_h264_pic(&e.pic, va_surface_id(&e.reference));
        i = i + 1;
    }
    let map_units: u16 = sps.pic_height_in_map_units_minus1 + 1;
    let height: u16 = if sps.frame_mbs_only_flag {
        map_units
    } else {
        map_units * 2
    };
    PictureParameterBufferH264 {
        curr_pic: fill_va_h264_pic(pic, surface_id),
        reference_frames,
        picture_width_in_mbs_minus1: sps.pic_width_in_mbs_minus1,
        picture_height_in_mbs_minus1: height - 1,
        bit_depth_luma_minus8: sps.bit_depth_luma_minus8,
        bit_depth_chroma_minus8: sps.bit_depth_chroma_minus8,
        num_ref_frames: sps.max_num_ref_frames,
        seq_fields: H264SeqFields {
            chroma_format_idc: sps.chroma_format_idc as u32,
            residual_colour_transform_flag: to_bit(sps.separate_colour_plane_flag),
            gaps_in_frame_num_value_allowed_flag: to_bit(sps.gaps_in_frame_num_value_allowed_flag),
            frame_mbs_only_flag: to_bit(sps.frame_mbs_only_flag),
            mb_adaptive_frame_field_flag: to_bit(sps.mb_adaptive_frame_field_flag),
            direct_8x8_inference_flag: to_bit(sps.direct_8x8_inference_flag),
            min_luma_bi_pred_size8x8: to_bit(sps.level_idc >= 31),
            log2_max_frame_num_minus4: sps.log2_max_frame_num_minus4 as u32,
            pic_order_cnt_type: sps.pic_order_cnt_type as u32,
            log2_max_pic_order_cnt_lsb_minus4: sps.log2_max_pic_order_cnt_lsb_minus4 as u32,
            delta_pic_order_always_zero_flag: to_bit(sps.delta_pic_order_always_zero_flag),
        },
        // FMO is not expressible in VA-API.
        num_slice_groups_minus1: 0,
        slice_group_map_type: 0,
        slice_group_change_rate_minus1: 0,
        pic_init_qp_minus26: pps.pic_init_qp_minus26,
        pic_init_qs_minus26: pps.pic_init_qs_minus26,
        chroma_qp_index_offset: pps.chroma_qp_index_offset,
        second_chroma_qp_index_offset: pps.second_chroma_qp_index_offset,
        pic_fields: H264PicFields {
            entropy_coding_mode_flag: to_bit(pps.entropy_coding_mode_flag),
            weighted_pred_flag: to_bit(pps.weighted_pred_flag),
            weighted_bipred_idc: pps.weighted_bipred_idc as u32,
            transform_8x8_mode_flag: to_bit(pps.transform_8x8_mode_flag),
            field_pic_flag: to_bit(hdr.field_pic_flag),
            constrained_intra_pred_flag: to_bit(pps.constrained_intra_pred_flag),
            pic_order_present_flag: to_bit(pps.bottom_field_pic_order_in_frame_present_flag),
            deblocking_filter_control_present_flag: to_bit(
                pps.deblocking_filter_control_present_flag,
            ),
            redundant_pic_cnt_present_flag: to_bit(pps.redundant_pic_cnt_present_flag),
            reference_pic_flag: to_bit(pic.nal_ref_idc != 0),
        },
        frame_num: hdr.frame_num,
    }
}

////// Slice parameters

/// Whether a slice carries explicit weights for list 0: P and SP slices where the
/// PPS says so, B slices in explicit mode. Implicit weights are derived by the
/// hardware.
pub open spec fn weighs_l0(hdr: SliceHeader, pps: Pps) -> bool {
    ||| pps.weighted_pred_flag && (hdr.slice_type == SliceType::P || hdr.slice_type
        == SliceType::Sp)
    ||| weighs_l1(hdr, pps)
}

/// Whether a slice carries explicit weights for list 1: B slices in explicit mode.
pub open spec fn weighs_l1(hdr: SliceHeader, pps: Pps) -> bool {
    pps.weighted_bipred_idc == 1 && hdr.slice_type == SliceType::B
}

/// Whether `w` holds the given weights for its first `active` references, where
/// `fill` says there are any, with the chroma ones where `chroma` says so, and
/// zero everywhere else.
pub open spec fn are_weights(
    w: Weights,
    fill: bool,
    chroma: bool,
    active: int,
    luma_weight: [i16; 32],
    luma_offset: [i8; 32],
    chroma_weight: [[i16; 2]; 32],
    chroma_offset: [[i8; 2]; 32],
) -> bool {
    &&& w.luma_weight_flag == bit(fill)
    &&& w.chroma_weight_flag == bit(fill && chroma)
    &&& forall|i: int|
        0 <= i < 32 ==> #[trigger] w.luma_weight[i] == if fill && i < active {
            luma_weight[i]
        } else {
            0
        }
    &&& forall|i: int|
        0 <= i < 32 ==> #[trigger] w.luma_offset[i] == if fill && i < active {
            luma_offset[i] as i16
        } else {
            0
        }
    &&& forall|i: int, j: int|
        0 <= i < 32 && 0 <= j < 2 ==> #[trigger] w.chroma_weight[i][j] == if fill && chroma && i
            < active {
            chroma_weight[i][j]
        } else {
            0
        }
    &&& forall|i: int, j: int|
        0 <= i < 32 && 0 <= j < 2 ==> #[trigger] w.chroma_offset[i][j] == if fill && chroma && i
            < active {
            chroma_offset[i][j] as i16
        } else {
            0
        }
}

fn fill_weights(
    fill: bool,
    chroma: bool,
    num_ref_idx_active_minus1: u8,
    luma_weight: &[i16; 32],
    luma_offset: &[i8; 32],
    chroma_weight: &[[i16; 2]; 32],
    chroma_offset: &[[i8; 2]; 32],
) -> (w: Weights)
    requires
        num_ref_idx_active_minus1 < 32,
    ensures
        are_weights(
            w,
            fill,
            chroma,
            num_ref_idx_active_minus1 + 1,
            *luma_weight,
            *luma_offset,
            *chroma_weight,
            *chroma_offset,
        ),
{
    let mut w = Weights {
        luma_weight_flag: if fill {
            1
        } else {
            0
        },
        luma_weight: [0i16;32],
        luma_offset: [0i16;32],
        chroma_weight_flag: if fill && chroma {
            1
        } else {
            0
        },
        chroma_weight: [[0i16;2];32],
        chroma_offset: [[0i16;2];32],
    };
    if fill {
        let active: usize = num_ref_idx_active_minus1 as usize + 1;
        let mut i: usize = 0;
        while i < active
            invariant
                fill,
                i <= active <= 32,
                are_weights(
                    w,
                    fill,
                    chroma,
                    i as int,
                    *luma_weight,
                    *luma_offset,
                    *chroma_weight,
                    *chroma_offset,
                ),
            decreases active - i,
        {
            w.luma_weight[i] = luma_weight[i];
            w.luma_offset[i] = luma_offset[i] as i16;
            if chroma {
                w.chroma_weight[i] = chroma_weight[i];
                w.chroma_offset[i] = [chroma_offset[i][0] as i16, chroma_offset[i][1] as i16];
            }
            i = i + 1;
        }
    }
    w
}

/// Whether `p` describes a slice of `size` bytes with the lists `l0` and `l1`.
pub open spec fn is_slice_param(
    p: SliceParameterBufferH264,
    hdr: SliceHeader,
    size: usize,
    l0: Seq<DpbEntry>,
    l1: Seq<DpbEntry>,
    sps: Sps,
    pps: Pps,
) -> bool {
    let pwt = hdr.pred_weight_table;
    let chroma = sps.spec_chroma_array_type() != 0;
    &&& p.slice_data_size == size as u32
    &&& p.slice_data_offset == 0
    &&& p.slice_data_flag == VA_SLICE_DATA_FLAG_ALL
    &&& p.slice_data_bit_offset == hdr.header_bit_size as u16
    &&& p.first_mb_in_slice == hdr.first_mb_in_slice as u16
    &&& p.slice_type == hdr.slice_type.spec_code()
    &&& p.direct_spatial_mv_pred_flag == bit(hdr.direct_spatial_mv_pred_flag)
    &&& p.num_ref_idx_l0_active_minus1 == hdr.num_ref_idx_l0_active_minus1
    &&& p.num_ref_idx_l1_active_minus1 == hdr.num_ref_idx_l1_active_minus1
    &&& p.cabac_init_idc == hdr.cabac_init_idc
    &&& p.slice_qp_delta == hdr.slice_qp_delta
    &&& p.disable_deblocking_filter_idc == hdr.disable_deblocking_filter_idc
    &&& p.slice_alpha_c0_offset_div2 == hdr.slice_alpha_c0_offset_div2
    &&& p.slice_beta_offset_div2 == hdr.slice_beta_offset_div2
    &&& forall|i: int| 0 <= i < 32 ==> #[trigger] p.ref_pic_list_0[i] == slot(l0, i)
    &&& forall|i: int| 0 <= i < 32 ==> #[trigger] p.ref_pic_list_1[i] == slot(l1, i)
    &&& p.luma_log2_weight_denom == pwt.luma_log2_weight_denom
    &&& p.chroma_log2_weight_denom == pwt.chroma_log2_weight_denom
    &&& are_weights(
        p.weights_l0,
        weighs_l0(hdr, pps),
        chroma,
        hdr.num_ref_idx_l0_active_minus1 + 1,
        pwt.luma_weight_l0,
        pwt.luma_offset_l0,
        pwt.chroma_weight_l0,
        pwt.chroma_offset_l0,
    )
    &&& are_weights(
        p.weights_l1,
        weighs_l1(hdr, pps),
        chroma,
        hdr.num_ref_idx_l1_active_minus1 + 1,
        pwt.luma_weight_l1,
        pwt.luma_offset_l1,
        pwt.chroma_weight_l1,
        pwt.chroma_offset_l1,
    )
}

/// Builds the parameters of a slice.
pub fn build_slice_param(
    hdr: &SliceHeader,
    slice_size: usize,
    list0: &Vec<DpbEntry>,
    list1: &Vec<DpbEntry>,
    sps: &Sps,
    pps: &Pps,
) -> (p: SliceParameterBufferH264)
    requires
        hdr.num_ref_idx_l0_active_minus1 < 32,
        hdr.num_ref_idx_l1_active_minus1 < 32,
    ensures
        is_slice_param(p, *hdr, slice_size, list0@, list1@, *sps, *pps),
        slice_size <= u32::MAX ==> p.slice_data_size == slice_size,
        p.slice_data_offset == 0,
        p.slice_data_flag == 0,
        hdr.header_bit_size <= u16::MAX ==> p.slice_data_bit_offset == hdr.header_bit_size,
        hdr.first_mb_in_slice <= u16::MAX ==> p.first_mb_in_slice == hdr.first_mb_in_slice,
        hdr.slice_type == SliceType::P ==> p.slice_type == 0,
        hdr.slice_type == SliceType::B ==> p.slice_type == 1,
        hdr.slice_type == SliceType::I ==> p.slice_type == 2,
        hdr.slice_type == SliceType::Sp ==> p.slice_type == 3,
        hdr.slice_type == SliceType::Si ==> p.slice_type == 4,
        (p.direct_spatial_mv_pred_flag == 1) == hdr.direct_spatial_mv_pred_flag,
        (p.direct_spatial_mv_pred_flag == 0) == !hdr.direct_spatial_mv_pred_flag,
        p.num_ref_idx_l0_active_minus1 == hdr.num_ref_idx_l0_active_minus1,
        p.num_ref_idx_l1_active_minus1 == hdr.num_ref_idx_l1_active_minus1,
        p.cabac_init_idc == hdr.cabac_init_idc,
        p.slice_qp_delta == hdr.slice_qp_delta,
        p.disable_deblocking_filter_idc == hdr.disable_deblocking_filter_idc,
        p.slice_alpha_c0_offset_div2 == hdr.slice_alpha_c0_offset_div2,
        p.slice_beta_offset_div2 == hdr.slice_beta_offset_div2,
        p.luma_log2_weight_denom == hdr.pred_weight_table.luma_log2_weight_denom,
        p.chroma_log2_weight_denom == hdr.pred_weight_table.chroma_log2_weight_denom,
        (p.weights_l1.luma_weight_flag == 1) == (hdr.slice_type == SliceType::B
            && pps.weighted_bipred_idc == 1),
        hdr.slice_type == SliceType::B ==> p.weights_l0.luma_weight_flag
            == p.weights_l1.luma_weight_flag,
        (hdr.slice_type == SliceType::P || hdr.slice_type == SliceType::Sp) ==> (
        p.weights_l0.luma_weight_flag == 1) == pps.weighted_pred_flag,
        (hdr.slice_type == SliceType::I || hdr.slice_type == SliceType::Si)
            ==> p.weights_l0.luma_weight_flag == 0,
{
    let pwt = &hdr.pred_weight_table;
    let fill_l1 = pps.weighted_bipred_idc == 1 && hdr.slice_type == SliceType::B;
    let fill_l0 = (pps.weighted_pred_flag && (hdr.slice_type == SliceType::P || hdr.slice_type
        == SliceType::Sp)) || fill_l1;
    let chroma = sps.chroma_array_type() != 0;
    SliceParameterBufferH264 {
        slice_data_size: #[verifier::truncate]
        (slice_size as u32),
        slice_data_offset: 0,
        slice_data_flag: VA_SLICE_DATA_FLAG_ALL,
        slice_data_bit_offset: #[verifier::truncate]
        (hdr.header_bit_size as u16),
        first_mb_in_slice: #[verifier::truncate]
        (hdr.first_mb_in_slice as u16),
        slice_type: hdr.slice_type.code(),
        direct_spatial_mv_pred_flag: if hdr.direct_spatial_mv_pred_flag {
            1
        } else {
            0
        },
        num_ref_idx_l0_active_minus1: hdr.num_ref_idx_l0_active_minus1,
        num_ref_idx_l1_active_minus1: hdr.num_ref_idx_l1_active_minus1,
        cabac_init_idc: hdr.cabac_init_idc,
        slice_qp_delta: hdr.slice_qp_delta,
        disable_deblocking_filter_idc: hdr.disable_deblocking_filter_idc,
        slice_alpha_c0_offset_div2: hdr.slice_alpha_c0_offset_div2,
        slice_beta_offset_div2: hdr.slice_beta_offset_div2,
        ref_pic_list_0: fill_ref_pic_list(list0),
        ref_pic_list_1: fill_ref_pic_list(list1),
        luma_log2_weight_denom: pwt.luma_log2_weight_denom,
        chroma_log2_weight_denom: pwt.chroma_log2_weight_denom,
        weights_l0: fill_weights(
            fill_l0,
            chroma,
            hdr.num_ref_idx_l0_active_minus1,
            &pwt.luma_weight_l0,
            &pwt.luma_offset_l0,
            &pwt.chroma_weight_l0,
            &pwt.chroma_offset_l0,
        ),
        weights_l1: fill_weights(
            fill_l1,
            chroma,
            hdr.num_ref_idx_l1_active_minus1,
            &pwt.luma_weight_l1,
            &pwt.luma_offset_l1,
            &pwt.chroma_weight_l1,
            &pwt.chroma_offset_l1,
        ),
    }
}

} // verus!
