//! What the parameter buffers promise: that the driver is told what the stream says.

use vstd::prelude::*;

use crate::decode::params;
use crate::decode::params::{
    IQMatrixBufferH264, PictureH264, PictureParameterBufferH264, SliceParameterBufferH264, Weights,
    ZIGZAG_4X4, ZIGZAG_8X8,
};
use crate::h264::dpb;
use crate::h264::dpb::DpbEntry;
use crate::h264::picture::{PictureData, Reference};
use crate::h264::syntax::{Pps, SliceHeader, SliceType, Sps};
use crate::surface::Handle;
use crate::va::{
    VA_INVALID_ID, VA_PICTURE_H264_INVALID, VA_PICTURE_H264_LONG_TERM_REFERENCE,
    VA_PICTURE_H264_SHORT_TERM_REFERENCE,
};

verus! {

////// Pictures

/// Whether `p` tells of the picture `e` holds: where it is, when it is output, how it is
/// referred to, and by which number.
pub open spec fn tells_of(p: PictureH264, e: DpbEntry) -> bool {
    &&& e.reference matches Some(h) ==> p.picture_id == h.surface
    &&& e.reference is None ==> p.picture_id == VA_INVALID_ID
    &&& p.top_field_order_cnt == e.pic.top_field_order_cnt
    &&& p.bottom_field_order_cnt == e.pic.bottom_field_order_cnt
    &&& e.pic.reference == Reference::ShortTerm ==> p.flags
        == VA_PICTURE_H264_SHORT_TERM_REFERENCE && p.frame_idx == e.pic.frame_num
    &&& e.pic.reference == Reference::LongTerm ==> p.flags == VA_PICTURE_H264_LONG_TERM_REFERENCE
        && p.frame_idx == e.pic.long_term_frame_idx
}

/// Whether `p` fills a slot without a picture.
pub open spec fn tells_of_none(p: PictureH264) -> bool {
    p.picture_id == VA_INVALID_ID && p.flags == VA_PICTURE_H264_INVALID
}

/// Whether the driver is told of `e` as a reference: it is one, and was really decoded or
/// is a long-term one.
pub open spec fn is_told(e: DpbEntry) -> bool {
    ||| e.pic.reference == Reference::LongTerm
    ||| e.pic.reference == Reference::ShortTerm && !e.pic.nonexisting
}

/// Every reference the driver is told of is one in the buffer, and the slots left over are
/// empty.
pub proof fn references_told_are_held(
    p: PictureParameterBufferH264,
    hdr: SliceHeader,
    pic: PictureData,
    surface: u32,
    s: Seq<DpbEntry>,
    sps: Sps,
    pps: Pps,
    i: int,
)
    requires
        params::is_pic_param(p, hdr, pic, surface, s, sps, pps),
        0 <= i < 16,
    ensures
        tells_of_none(p.reference_frames[i]) || exists|k: int|
            0 <= k < s.len() && is_told(#[trigger] s[k]) && tells_of(p.reference_frames[i], s[k]),
{
    let told = params::told_references(s);
    let short = |e: DpbEntry| dpb::short_term(e) && !e.pic.nonexisting;
    let long = |e: DpbEntry| dpb::long_term(e);
    assert(p.reference_frames[i] == params::slot(told, i));
    if i < told.len() {
        broadcast use vstd::seq_lib::group_filter_ensures;

        let e = told[i];
        if i < s.filter(short).len() {
            s.lemma_filter_contains_rev(short, s.filter(short)[i]);
            assert(s.contains(e));
            assert(short(s.filter(short)[i]));
        } else {
            let j = i - s.filter(short).len();
            s.lemma_filter_contains_rev(long, s.filter(long)[j]);
            assert(s.contains(e));
            assert(long(s.filter(long)[j]));
        }
        let k = choose|k: int| 0 <= k < s.len() && s[k] == e;
        assert(is_told(s[k]));
    }
}

/// How many entries of `s` the driver is told of.
pub open spec fn told_count(s: Seq<DpbEntry>) -> nat
    decreases s.len(),
{
    if s.len() == 0 {
        0
    } else {
        told_count(s.drop_last()) + if is_told(s.last()) {
            1nat
        } else {
            0nat
        }
    }
}

proof fn lemma_told_count(s: Seq<DpbEntry>)
    ensures
        params::told_references(s).len() == told_count(s),
    decreases s.len(),
{
    let short = |e: DpbEntry| dpb::short_term(e) && !e.pic.nonexisting;
    let long = |e: DpbEntry| dpb::long_term(e);
    reveal(Seq::filter);
    if s.len() > 0 {
        lemma_told_count(s.drop_last());
        assert(short(s.last()) ==> !long(s.last()));
    }
}

/// The driver is told of every reference there is, as long as there is a slot for it.
pub proof fn references_held_are_told(
    p: PictureParameterBufferH264,
    hdr: SliceHeader,
    pic: PictureData,
    surface: u32,
    s: Seq<DpbEntry>,
    sps: Sps,
    pps: Pps,
    k: int,
)
    requires
        params::is_pic_param(p, hdr, pic, surface, s, sps, pps),
        told_count(s) <= 16,
        0 <= k < s.len(),
        is_told(s[k]),
    ensures
        exists|i: int| 0 <= i < 16 && tells_of(#[trigger] p.reference_frames[i], s[k]),
{
    let told = params::told_references(s);
    let short = |e: DpbEntry| dpb::short_term(e) && !e.pic.nonexisting;
    let long = |e: DpbEntry| dpb::long_term(e);
    lemma_told_count(s);
    let e = s[k];
    if short(e) {
        s.lemma_filter_contains(short, k);
        let list = s.filter(short);
        let i = choose|i: int| 0 <= i < list.len() && list[i] == e;
        assert(told[i] == e);
        assert(p.reference_frames[i] == params::slot(told, i));
    } else {
        s.lemma_filter_contains(long, k);
        let list = s.filter(long);
        let i = choose|i: int| 0 <= i < list.len() && list[i] == e;
        let at = s.filter(short).len() + i;
        assert(told[at] == e);
        assert(p.reference_frames[at] == params::slot(told, at));
    }
}

/// Short-term references come before long-term ones, and empty slots last.
pub proof fn short_term_references_are_told_first(
    p: PictureParameterBufferH264,
    hdr: SliceHeader,
    pic: PictureData,
    surface: u32,
    s: Seq<DpbEntry>,
    sps: Sps,
    pps: Pps,
    i: int,
    j: int,
)
    requires
        params::is_pic_param(p, hdr, pic, surface, s, sps, pps),
        0 <= i < j < 16,
    ensures
        p.reference_frames[j].flags == VA_PICTURE_H264_SHORT_TERM_REFERENCE
            ==> p.reference_frames[i].flags == VA_PICTURE_H264_SHORT_TERM_REFERENCE,
        p.reference_frames[i].flags == VA_PICTURE_H264_INVALID ==> p.reference_frames[j].flags
            == VA_PICTURE_H264_INVALID,
{
    let told = params::told_references(s);
    let short = |e: DpbEntry| dpb::short_term(e) && !e.pic.nonexisting;
    let long = |e: DpbEntry| dpb::long_term(e);
    broadcast use vstd::seq_lib::group_filter_ensures;

    let n = s.filter(short).len() as int;
    assert(p.reference_frames[i] == params::slot(told, i));
    assert(p.reference_frames[j] == params::slot(told, j));
    assert forall|k: int| 0 <= k < told.len() implies (k < n <==> dpb::short_term(
        #[trigger] told[k],
    )) && is_told(told[k]) by {
        if k < n {
            assert(short(s.filter(short)[k]));
        } else {
            assert(long(s.filter(long)[k - n]));
        }
    }
    if j < told.len() {
        assert(is_told(told[j]));
    }
    if i < told.len() {
        assert(is_told(told[i]));
    }
}

/// The picture being decoded is told of like any other, in the surface it goes into.
pub proof fn the_picture_itself_is_told(
    p: PictureParameterBufferH264,
    hdr: SliceHeader,
    pic: PictureData,
    surface: u32,
    s: Seq<DpbEntry>,
    sps: Sps,
    pps: Pps,
    handle: Handle,
)
    requires
        params::is_pic_param(p, hdr, pic, surface, s, sps, pps),
        handle.surface == surface,
    ensures
        tells_of(p.curr_pic, DpbEntry { pic, reference: Some(handle) }),
        pic.reference == Reference::Unused ==> p.curr_pic.flags == 0 && p.curr_pic.frame_idx
            == pic.frame_num,
{
}

/// Whether `n` is the bit that stands for `b`.
pub open spec fn stands_for(n: u32, b: bool) -> bool {
    n == if b {
        1u32
    } else {
        0u32
    }
}

/// The picture parameters say what the parameter sets and the slice header say, each
/// element by its own field and no other.
pub proof fn parameters_repeat_the_stream(
    p: PictureParameterBufferH264,
    hdr: SliceHeader,
    pic: PictureData,
    surface: u32,
    s: Seq<DpbEntry>,
    sps: Sps,
    pps: Pps,
)
    requires
        params::is_pic_param(p, hdr, pic, surface, s, sps, pps),
        sps.valid(),
    ensures
        stands_for(p.pic_fields.entropy_coding_mode_flag, pps.entropy_coding_mode_flag),
        stands_for(p.pic_fields.weighted_pred_flag, pps.weighted_pred_flag),
        p.pic_fields.weighted_bipred_idc == pps.weighted_bipred_idc,
        stands_for(p.pic_fields.transform_8x8_mode_flag, pps.transform_8x8_mode_flag),
        stands_for(p.pic_fields.field_pic_flag, hdr.field_pic_flag),
        stands_for(p.pic_fields.constrained_intra_pred_flag, pps.constrained_intra_pred_flag),
        stands_for(
            p.pic_fields.pic_order_present_flag,
            pps.bottom_field_pic_order_in_frame_present_flag,
        ),
        stands_for(
            p.pic_fields.deblocking_filter_control_present_flag,
            pps.deblocking_filter_control_present_flag,
        ),
        stands_for(
            p.pic_fields.redundant_pic_cnt_present_flag,
            pps.redundant_pic_cnt_present_flag,
        ),
        stands_for(p.pic_fields.reference_pic_flag, pic.nal_ref_idc != 0),
        p.seq_fields.chroma_format_idc == sps.chroma_format_idc,
        stands_for(p.seq_fields.residual_colour_transform_flag, sps.separate_colour_plane_flag),
        stands_for(
            p.seq_fields.gaps_in_frame_num_value_allowed_flag,
            sps.gaps_in_frame_num_value_allowed_flag,
        ),
        stands_for(p.seq_fields.frame_mbs_only_flag, sps.frame_mbs_only_flag),
        stands_for(p.seq_fields.mb_adaptive_frame_field_flag, sps.mb_adaptive_frame_field_flag),
        stands_for(p.seq_fields.direct_8x8_inference_flag, sps.direct_8x8_inference_flag),
        stands_for(p.seq_fields.min_luma_bi_pred_size8x8, sps.level_idc > 30),
        p.seq_fields.log2_max_frame_num_minus4 == sps.log2_max_frame_num_minus4,
        p.seq_fields.pic_order_cnt_type == sps.pic_order_cnt_type,
        p.seq_fields.log2_max_pic_order_cnt_lsb_minus4 == sps.log2_max_pic_order_cnt_lsb_minus4,
        stands_for(
            p.seq_fields.delta_pic_order_always_zero_flag,
            sps.delta_pic_order_always_zero_flag,
        ),
        p.picture_width_in_mbs_minus1 == sps.pic_width_in_mbs_minus1,
        p.picture_height_in_mbs_minus1 + 1 == (sps.pic_height_in_map_units_minus1 + 1) * (
        if sps.frame_mbs_only_flag {
            1int
        } else {
            2int
        }),
        p.bit_depth_luma_minus8 == sps.bit_depth_luma_minus8,
        p.bit_depth_chroma_minus8 == sps.bit_depth_chroma_minus8,
        p.num_ref_frames == sps.max_num_ref_frames,
        p.num_slice_groups_minus1 == 0,
        p.slice_group_map_type == 0,
        p.slice_group_change_rate_minus1 == 0,
        p.pic_init_qp_minus26 == pps.pic_init_qp_minus26,
        p.pic_init_qs_minus26 == pps.pic_init_qs_minus26,
        p.chroma_qp_index_offset == pps.chroma_qp_index_offset,
        p.second_chroma_qp_index_offset == pps.second_chroma_qp_index_offset,
        p.frame_num == hdr.frame_num,
{
}

/// Two parameter sets that differ in one flag give picture parameters that differ in its
/// field: nothing the stream says is lost on the way.
pub proof fn parameters_tell_parameter_sets_apart(
    p: PictureParameterBufferH264,
    q: PictureParameterBufferH264,
    hdr: SliceHeader,
    pic: PictureData,
    surface: u32,
    s: Seq<DpbEntry>,
    sps: Sps,
    a: Pps,
    b: Pps,
)
    requires
        params::is_pic_param(p, hdr, pic, surface, s, sps, a),
        params::is_pic_param(q, hdr, pic, surface, s, sps, b),
    ensures
        p.pic_fields == q.pic_fields <==> {
            &&& a.entropy_coding_mode_flag == b.entropy_coding_mode_flag
            &&& a.weighted_pred_flag == b.weighted_pred_flag
            &&& a.weighted_bipred_idc == b.weighted_bipred_idc
            &&& a.transform_8x8_mode_flag == b.transform_8x8_mode_flag
            &&& a.constrained_intra_pred_flag == b.constrained_intra_pred_flag
            &&& a.bottom_field_pic_order_in_frame_present_flag
                == b.bottom_field_pic_order_in_frame_present_flag
            &&& a.deblocking_filter_control_present_flag
                == b.deblocking_filter_control_present_flag
            &&& a.redundant_pic_cnt_present_flag == b.redundant_pic_cnt_present_flag
        },
        p.pic_fields.transform_8x8_mode_flag == q.pic_fields.transform_8x8_mode_flag
            <==> a.transform_8x8_mode_flag == b.transform_8x8_mode_flag,
        p.pic_fields.entropy_coding_mode_flag == q.pic_fields.entropy_coding_mode_flag
            <==> a.entropy_coding_mode_flag == b.entropy_coding_mode_flag,
        p.pic_fields.weighted_pred_flag == q.pic_fields.weighted_pred_flag
            <==> a.weighted_pred_flag == b.weighted_pred_flag,
        p.pic_fields.constrained_intra_pred_flag == q.pic_fields.constrained_intra_pred_flag
            <==> a.constrained_intra_pred_flag == b.constrained_intra_pred_flag,
{
}

////// Scaling lists

/// The place after `at` in the zig-zag scan of a block `n` wide: along the diagonal, up and
/// to the right on even ones and down and to the left on odd ones, and along the edge where
/// it ends.
pub open spec fn scanned_next(at: int, n: int) -> int {
    let (row, column) = (at / n, at % n);
    if (row + column) % 2 == 0 {
        if column == n - 1 {
            at + n
        } else if row == 0 {
            at + 1
        } else {
            at - n + 1
        }
    } else {
        if row == n - 1 {
            at + 1
        } else if column == 0 {
            at + n
        } else {
            at + n - 1
        }
    }
}

/// The scans start in the first corner and go on diagonal by diagonal.
pub proof fn scans_zig_and_zag(i: int)
    ensures
        ZIGZAG_4X4[0] == 0,
        ZIGZAG_8X8[0] == 0,
        0 <= i < 15 ==> ZIGZAG_4X4[i + 1] == scanned_next(ZIGZAG_4X4[i] as int, 4),
        0 <= i < 63 ==> ZIGZAG_8X8[i + 1] == scanned_next(ZIGZAG_8X8[i] as int, 8),
{
}

/// Each scaling list goes out with the value scanned `i`-th where the scan has it, under
/// its own number.
pub proof fn scaling_lists_keep_their_places(m: IQMatrixBufferH264, pps: Pps, l: int, i: int)
    requires
        params::is_iq_matrix(m, pps),
    ensures
        0 <= l < 6 && 0 <= i < 16 ==> m.scaling_list4x4[l][ZIGZAG_4X4[i] as int]
            == pps.scaling_lists_4x4[l][i],
        0 <= l < 2 && 0 <= i < 64 ==> m.scaling_list8x8[l][ZIGZAG_8X8[i] as int]
            == pps.scaling_lists_8x8[l][i],
{
    if 0 <= l < 6 && 0 <= i < 16 {
        assert(params::unscanned_4x4(m.scaling_list4x4[l], pps.scaling_lists_4x4[l]));
        assert(ZIGZAG_4X4[i] as int == ZIGZAG_4X4[i] as int);
    }
    if 0 <= l < 2 && 0 <= i < 64 {
        assert(params::unscanned_8x8(m.scaling_list8x8[l], pps.scaling_lists_8x8[l]));
        assert(ZIGZAG_8X8[i] as int == ZIGZAG_8X8[i] as int);
    }
}

////// Slices

/// Whether the header of a slice has a `pred_weight_table` (7.3.3).
pub open spec fn has_weight_table(hdr: SliceHeader, pps: Pps) -> bool {
    match hdr.slice_type {
        SliceType::P | SliceType::Sp => pps.weighted_pred_flag,
        SliceType::B => pps.weighted_bipred_idc == 1,
        SliceType::I | SliceType::Si => false,
    }
}

/// Whether `w` carries no weights.
pub open spec fn carries_none(w: Weights) -> bool {
    &&& w.luma_weight_flag == 0
    &&& w.chroma_weight_flag == 0
    &&& forall|i: int|
        0 <= i < 32 ==> #[trigger] w.luma_weight[i] == 0 && w.luma_offset[i] == 0
    &&& forall|i: int, j: int|
        0 <= i < 32 && 0 <= j < 2 ==> #[trigger] w.chroma_weight[i][j] == 0
            && w.chroma_offset[i][j] == 0
}

/// A slice carries explicit weights exactly where its header has a table of them: for both
/// lists in a B slice, for list 0 alone in a P slice, and for none in an I slice.
pub proof fn weights_come_with_a_table(
    p: SliceParameterBufferH264,
    hdr: SliceHeader,
    size: usize,
    l0: Seq<DpbEntry>,
    l1: Seq<DpbEntry>,
    sps: Sps,
    pps: Pps,
)
    requires
        params::is_slice_param(p, hdr, size, l0, l1, sps, pps),
    ensures
        p.weights_l0.luma_weight_flag == 1 <==> has_weight_table(hdr, pps),
        !has_weight_table(hdr, pps) ==> carries_none(p.weights_l0) && carries_none(p.weights_l1),
        hdr.slice_type == SliceType::B ==> p.weights_l0.luma_weight_flag
            == p.weights_l1.luma_weight_flag && p.weights_l0.chroma_weight_flag
            == p.weights_l1.chroma_weight_flag,
        hdr.slice_type != SliceType::B ==> carries_none(p.weights_l1),
        hdr.slice_type == SliceType::I || hdr.slice_type == SliceType::Si ==> carries_none(
            p.weights_l0,
        ),
        p.weights_l0.chroma_weight_flag == 1 <==> has_weight_table(hdr, pps)
            && sps.chroma_format_idc != 0 && !sps.separate_colour_plane_flag,
{
    if !has_weight_table(hdr, pps) {
        assert(carries_none(p.weights_l0));
        assert(carries_none(p.weights_l1));
    }
    if hdr.slice_type != SliceType::B {
        assert(carries_none(p.weights_l1));
    }
}

/// The weights a slice carries are those of its table, entry by entry for each active
/// reference of the list they are for, and zero beyond.
pub proof fn weights_are_those_of_the_table(
    p: SliceParameterBufferH264,
    hdr: SliceHeader,
    size: usize,
    l0: Seq<DpbEntry>,
    l1: Seq<DpbEntry>,
    sps: Sps,
    pps: Pps,
    i: int,
    j: int,
)
    requires
        params::is_slice_param(p, hdr, size, l0, l1, sps, pps),
        0 <= i < 32,
        0 <= j < 2,
    ensures
        p.weights_l0.luma_weight_flag == 1 && i <= hdr.num_ref_idx_l0_active_minus1
            ==> p.weights_l0.luma_weight[i] == hdr.pred_weight_table.luma_weight_l0[i]
            && p.weights_l0.luma_offset[i] == hdr.pred_weight_table.luma_offset_l0[i],
        p.weights_l0.chroma_weight_flag == 1 && i <= hdr.num_ref_idx_l0_active_minus1
            ==> p.weights_l0.chroma_weight[i][j] == hdr.pred_weight_table.chroma_weight_l0[i][j]
            && p.weights_l0.chroma_offset[i][j] == hdr.pred_weight_table.chroma_offset_l0[i][j],
        p.weights_l1.luma_weight_flag == 1 && i <= hdr.num_ref_idx_l1_active_minus1
            ==> p.weights_l1.luma_weight[i] == hdr.pred_weight_table.luma_weight_l1[i]
            && p.weights_l1.luma_offset[i] == hdr.pred_weight_table.luma_offset_l1[i],
        p.weights_l1.chroma_weight_flag == 1 && i <= hdr.num_ref_idx_l1_active_minus1
            ==> p.weights_l1.chroma_weight[i][j] == hdr.pred_weight_table.chroma_weight_l1[i][j]
            && p.weights_l1.chroma_offset[i][j] == hdr.pred_weight_table.chroma_offset_l1[i][j],
        i > hdr.num_ref_idx_l0_active_minus1 ==> p.weights_l0.luma_weight[i] == 0
            && p.weights_l0.chroma_weight[i][j] == 0,
        i > hdr.num_ref_idx_l1_active_minus1 ==> p.weights_l1.luma_weight[i] == 0
            && p.weights_l1.chroma_weight[i][j] == 0,
{
    assert(p.weights_l0.luma_weight[i] == p.weights_l0.luma_weight[i]);
    assert(p.weights_l0.luma_offset[i] == p.weights_l0.luma_offset[i]);
    assert(p.weights_l0.chroma_weight[i][j] == p.weights_l0.chroma_weight[i][j]);
    assert(p.weights_l0.chroma_offset[i][j] == p.weights_l0.chroma_offset[i][j]);
    assert(p.weights_l1.luma_offset[i] == p.weights_l1.luma_offset[i]);
    assert(p.weights_l1.chroma_offset[i][j] == p.weights_l1.chroma_offset[i][j]);
}

/// The lists of a slice go out in their order, each picture as it is held, and the slots
/// left over empty.
pub proof fn lists_go_out_in_order(
    p: SliceParameterBufferH264,
    hdr: SliceHeader,
    size: usize,
    l0: Seq<DpbEntry>,
    l1: Seq<DpbEntry>,
    sps: Sps,
    pps: Pps,
    i: int,
)
    requires
        params::is_slice_param(p, hdr, size, l0, l1, sps, pps),
        0 <= i < 32,
    ensures
        i < l0.len() ==> tells_of(p.ref_pic_list_0[i], l0[i]),
        i >= l0.len() ==> tells_of_none(p.ref_pic_list_0[i]),
        i < l1.len() ==> tells_of(p.ref_pic_list_1[i], l1[i]),
        i >= l1.len() ==> tells_of_none(p.ref_pic_list_1[i]),
{
}

/// The slice parameters say what the slice header says, each element by its own field.
pub proof fn slices_repeat_their_header(
    p: SliceParameterBufferH264,
    hdr: SliceHeader,
    size: usize,
    l0: Seq<DpbEntry>,
    l1: Seq<DpbEntry>,
    sps: Sps,
    pps: Pps,
)
    requires
        params::is_slice_param(p, hdr, size, l0, l1, sps, pps),
    ensures
        size <= u32::MAX ==> p.slice_data_size == size,
        p.slice_data_offset == 0,
        p.slice_data_flag == 0,
        hdr.header_bit_size <= u16::MAX ==> p.slice_data_bit_offset == hdr.header_bit_size,
        hdr.first_mb_in_slice <= u16::MAX ==> p.first_mb_in_slice == hdr.first_mb_in_slice,
        stands_for(p.direct_spatial_mv_pred_flag as u32, hdr.direct_spatial_mv_pred_flag),
        p.num_ref_idx_l0_active_minus1 == hdr.num_ref_idx_l0_active_minus1,
        p.num_ref_idx_l1_active_minus1 == hdr.num_ref_idx_l1_active_minus1,
        p.cabac_init_idc == hdr.cabac_init_idc,
        p.slice_qp_delta == hdr.slice_qp_delta,
        p.disable_deblocking_filter_idc == hdr.disable_deblocking_filter_idc,
        p.slice_alpha_c0_offset_div2 == hdr.slice_alpha_c0_offset_div2,
        p.slice_beta_offset_div2 == hdr.slice_beta_offset_div2,
        p.luma_log2_weight_denom == hdr.pred_weight_table.luma_log2_weight_denom,
        p.chroma_log2_weight_denom == hdr.pred_weight_table.chroma_log2_weight_denom,
        p.slice_type <= 4,
        hdr.slice_type == SliceType::P ==> p.slice_type == 0,
        hdr.slice_type == SliceType::B ==> p.slice_type == 1,
        hdr.slice_type == SliceType::I ==> p.slice_type == 2,
        hdr.slice_type == SliceType::Sp ==> p.slice_type == 3,
        hdr.slice_type == SliceType::Si ==> p.slice_type == 4,
{
}

} // verus!
