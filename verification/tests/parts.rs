use std::rc::Rc;

use moq_vaapi::decode::error::DecodeError;
use moq_vaapi::decode::lists::{create_ref_pic_lists, modify_ref_pic_list};
use moq_vaapi::decode::marking::{handle_memory_management_ops, reference_pic_marking};
use moq_vaapi::decode::nv12::{copy_plane, pack_nv12, VaImage};
use moq_vaapi::decode::params::{
    build_invalid_va_h264_pic, build_iq_matrix, build_pic_param, build_slice_param,
    fill_ref_pic_list, fill_va_h264_pic, va_surface_id, ZIGZAG_4X4, ZIGZAG_8X8,
};
use moq_vaapi::decode::poc::{compute_pic_order_count, PrevPicInfo, PrevReferencePicInfo};
use moq_vaapi::decode::sequence::{is_referred_to, va_profile, Sequence, SequenceInfo, SurfacePool};
use moq_vaapi::decode::state::Memory;
use moq_vaapi::h264::dpb::{Dpb, MmcoError};
use moq_vaapi::h264::picture::{Field, IsIdr, PictureData, Reference};
use moq_vaapi::h264::syntax::{
    MaxLongTermFrameIdx, Pps, PredWeightTable, Rect, RefPicListModification, RefPicMarking,
    RefPicMarkingInner, Slice, SliceHeader, SliceType, Sps,
};
use moq_vaapi::surface::Handle;
use moq_vaapi::va::{VA_FOURCC_NV12, VA_INVALID_ID};

fn sps() -> Sps {
    Sps {
        profile_idc: 100,
        level_idc: 31,
        chroma_format_idc: 1,
        separate_colour_plane_flag: false,
        bit_depth_luma_minus8: 0,
        bit_depth_chroma_minus8: 0,
        log2_max_frame_num_minus4: 0,
        pic_order_cnt_type: 0,
        log2_max_pic_order_cnt_lsb_minus4: 0,
        delta_pic_order_always_zero_flag: false,
        offset_for_non_ref_pic: 0,
        offset_for_top_to_bottom_field: 0,
        num_ref_frames_in_pic_order_cnt_cycle: 0,
        offset_for_ref_frame: [0; 255],
        expected_delta_per_pic_order_cnt_cycle: 0,
        max_num_ref_frames: 4,
        gaps_in_frame_num_value_allowed_flag: false,
        pic_width_in_mbs_minus1: 39,
        pic_height_in_map_units_minus1: 29,
        frame_mbs_only_flag: true,
        mb_adaptive_frame_field_flag: false,
        direct_8x8_inference_flag: true,
        width: 640,
        height: 480,
        visible: Rect { min_x: 0, min_y: 0, max_x: 640, max_y: 480 },
        max_dpb_frames: 4,
        max_num_order_frames: 0,
    }
}

fn pps() -> Pps {
    Pps {
        sps: Rc::new(sps()),
        pic_parameter_set_id: 0,
        entropy_coding_mode_flag: true,
        bottom_field_pic_order_in_frame_present_flag: false,
        weighted_pred_flag: false,
        weighted_bipred_idc: 0,
        pic_init_qp_minus26: 3,
        pic_init_qs_minus26: 4,
        chroma_qp_index_offset: -2,
        deblocking_filter_control_present_flag: true,
        constrained_intra_pred_flag: false,
        redundant_pic_cnt_present_flag: false,
        transform_8x8_mode_flag: true,
        scaling_lists_4x4: [[16; 16]; 6],
        scaling_lists_8x8: [[16; 64]; 6],
        second_chroma_qp_index_offset: -3,
    }
}

fn slice(frame_num: u16, pic_order_cnt_lsb: u16) -> Slice {
    Slice {
        header: SliceHeader {
            first_mb_in_slice: 0,
            slice_type: SliceType::P,
            pic_parameter_set_id: 0,
            frame_num,
            field_pic_flag: false,
            bottom_field_flag: false,
            idr_pic_id: 0,
            pic_order_cnt_lsb,
            delta_pic_order_cnt_bottom: 1,
            delta_pic_order_cnt: [1, 0],
            direct_spatial_mv_pred_flag: true,
            num_ref_idx_l0_active_minus1: 1,
            num_ref_idx_l1_active_minus1: 0,
            ref_pic_list_modification_flag_l0: false,
            ref_pic_list_modification_l0: Vec::new(),
            ref_pic_list_modification_flag_l1: false,
            ref_pic_list_modification_l1: Vec::new(),
            pred_weight_table: PredWeightTable {
                luma_log2_weight_denom: 5,
                chroma_log2_weight_denom: 6,
                luma_weight_l0: [32; 32],
                luma_offset_l0: [-7; 32],
                chroma_weight_l0: [[64, 65]; 32],
                chroma_offset_l0: [[-1, 2]; 32],
                luma_weight_l1: [33; 32],
                luma_offset_l1: [8; 32],
                chroma_weight_l1: [[66, 67]; 32],
                chroma_offset_l1: [[3, 4]; 32],
            },
            dec_ref_pic_marking: RefPicMarking {
                no_output_of_prior_pics_flag: false,
                long_term_reference_flag: false,
                adaptive_ref_pic_marking_mode_flag: false,
                inner: Vec::new(),
            },
            cabac_init_idc: 1,
            slice_qp_delta: -4,
            disable_deblocking_filter_idc: 1,
            slice_alpha_c0_offset_div2: 2,
            slice_beta_offset_div2: -2,
            max_pic_num: 16,
            header_bit_size: 43,
        },
        nal_ref_idc: 1,
        idr_pic_flag: false,
        data: vec![0; 9],
    }
}

fn prev_ref(msb: i32, lsb: i32) -> PrevReferencePicInfo {
    PrevReferencePicInfo {
        pic_order_cnt_msb: msb,
        pic_order_cnt_lsb: lsb,
        ..PrevReferencePicInfo::default()
    }
}

fn counted(
    prev_ref: PrevReferencePicInfo,
    prev: PrevPicInfo,
    slice: &Slice,
    sps: &Sps,
) -> PictureData {
    let mut prev = prev;
    let mut pic = PictureData::new_from_slice(slice, sps, 0);
    compute_pic_order_count(&prev_ref, &mut prev, &mut pic, sps).expect("counted");
    pic
}

////// Syntax and pictures

#[test]
fn derived_maxima_are_powers_of_two() {
    assert_eq!(sps().max_frame_num(), 16);
    assert_eq!(Sps { log2_max_frame_num_minus4: 12, ..sps() }.max_frame_num(), 65536);
    assert_eq!(
        Sps { log2_max_pic_order_cnt_lsb_minus4: 4, ..sps() }.max_pic_order_cnt_lsb(),
        256
    );
    assert_eq!(sps().chroma_array_type(), 1);
    assert_eq!(Sps { separate_colour_plane_flag: true, ..sps() }.chroma_array_type(), 0);
}

#[test]
fn sequences_keep_to_the_heights_there_are() {
    let tall = Sps { pic_height_in_map_units_minus1: 0x7fff, ..sps() };
    assert!(tall.is_valid());
    assert!(!Sps { pic_height_in_map_units_minus1: 0xffff, ..sps() }.is_valid());
    assert!(!Sps { frame_mbs_only_flag: false, ..tall }.is_valid());
}

#[test]
fn slice_types_have_their_code_points() {
    let codes: Vec<u8> =
        [SliceType::P, SliceType::B, SliceType::I, SliceType::Sp, SliceType::Si]
            .iter()
            .map(|t| t.code())
            .collect();
    assert_eq!(codes, vec![0, 1, 2, 3, 4]);
}

#[test]
fn slices_keep_to_the_ranges_of_their_sequence() {
    assert!(slice(15, 0).is_valid_for(&sps()));
    assert!(!slice(16, 0).is_valid_for(&sps()));
    let mut fields = slice(0, 0);
    fields.header.field_pic_flag = true;
    assert!(!fields.is_valid_for(&sps()));
    assert!(fields.is_valid_for(&Sps { frame_mbs_only_flag: false, ..sps() }));
    let mut long = slice(0, 0);
    long.header.num_ref_idx_l1_active_minus1 = 32;
    assert!(!long.is_valid_for(&sps()));
}

#[test]
fn pictures_are_what_their_first_slice_says() {
    let pic = PictureData::new_from_slice(&slice(5, 10), &sps(), 77);
    assert_eq!((pic.frame_num, pic.pic_num, pic.pic_order_cnt_lsb), (5, 5, 10));
    assert_eq!((pic.field, pic.is_idr, pic.timestamp), (Field::Frame, IsIdr::No, 77));
    assert_eq!(pic.reference, Reference::ShortTerm);
    assert!(pic.is_ref() && !pic.idr() && !pic.nonexisting);
    assert_eq!(pic.pic_num_f(16), 5);
    assert_eq!(pic.long_term_pic_num_f(MaxLongTermFrameIdx::Idx(2)), 6);
}

////// Picture order count

#[test]
fn order_counts_of_type_0_follow_the_low_bits() {
    // Ahead, then wrapped up, then wrapped down.
    let pic = counted(prev_ref(0, 2), PrevPicInfo::default(), &slice(1, 4), &sps());
    assert_eq!((pic.top_field_order_cnt, pic.bottom_field_order_cnt), (4, 5));
    assert_eq!(pic.pic_order_cnt, 4);
    let pic = counted(prev_ref(0, 14), PrevPicInfo::default(), &slice(1, 2), &sps());
    assert_eq!((pic.pic_order_cnt_msb, pic.pic_order_cnt), (16, 18));
    let pic = counted(prev_ref(16, 2), PrevPicInfo::default(), &slice(1, 14), &sps());
    assert_eq!((pic.pic_order_cnt_msb, pic.pic_order_cnt), (0, 14));
}

#[test]
fn order_counts_of_type_0_restart() {
    let after = PrevReferencePicInfo {
        has_mmco_5: true,
        top_field_order_cnt: 3,
        ..prev_ref(160, 14)
    };
    let pic = counted(after, PrevPicInfo::default(), &slice(1, 4), &sps());
    assert_eq!((pic.pic_order_cnt_msb, pic.pic_order_cnt), (0, 4));
    // The low bits count from the picture that restarted them.
    let after = PrevReferencePicInfo { top_field_order_cnt: 10, ..after };
    let pic = counted(after, PrevPicInfo::default(), &slice(1, 1), &sps());
    assert_eq!((pic.pic_order_cnt_msb, pic.pic_order_cnt), (16, 17));
    let mut idr = slice(0, 0);
    idr.idr_pic_flag = true;
    let pic = counted(prev_ref(160, 6), PrevPicInfo::default(), &idr, &sps());
    assert_eq!(pic.pic_order_cnt, 0);
}

#[test]
fn order_counts_of_type_1_follow_the_cycle() {
    let mut offsets = [0; 255];
    offsets[0] = 2;
    offsets[1] = 4;
    let cyclic = Sps {
        pic_order_cnt_type: 1,
        num_ref_frames_in_pic_order_cnt_cycle: 2,
        offset_for_ref_frame: offsets,
        expected_delta_per_pic_order_cnt_cycle: 6,
        offset_for_non_ref_pic: -1,
        offset_for_top_to_bottom_field: 1,
        ..sps()
    };
    let pic = counted(prev_ref(0, 0), PrevPicInfo::default(), &slice(3, 0), &cyclic);
    assert_eq!((pic.top_field_order_cnt, pic.bottom_field_order_cnt), (9, 10));
    // The first frame of a cycle takes the first offset alone.
    let pic = counted(prev_ref(0, 0), PrevPicInfo::default(), &slice(1, 0), &cyclic);
    assert_eq!(pic.top_field_order_cnt, 3);
    let pic = counted(prev_ref(0, 0), PrevPicInfo::default(), &slice(2, 0), &cyclic);
    assert_eq!(pic.top_field_order_cnt, 7);
    let mut disposable = slice(3, 0);
    disposable.nal_ref_idc = 0;
    let pic = counted(prev_ref(0, 0), PrevPicInfo::default(), &disposable, &cyclic);
    assert_eq!((pic.pic_order_cnt, pic.frame_num_offset), (6, 0));
}

#[test]
fn order_counts_of_type_2_are_decoding_order() {
    let plain = Sps { pic_order_cnt_type: 2, ..sps() };
    let pic = counted(prev_ref(0, 0), PrevPicInfo::default(), &slice(3, 0), &plain);
    assert_eq!((pic.pic_order_cnt, pic.bottom_field_order_cnt), (6, 6));
    let mut disposable = slice(3, 0);
    disposable.nal_ref_idc = 0;
    let pic = counted(prev_ref(0, 0), PrevPicInfo::default(), &disposable, &plain);
    assert_eq!(pic.pic_order_cnt, 5);
    let wrapped = PrevPicInfo { frame_num: 15, frame_num_offset: 16, has_mmco_5: false };
    let pic = counted(prev_ref(0, 0), wrapped, &slice(3, 0), &plain);
    assert_eq!((pic.frame_num_offset, pic.pic_order_cnt), (32, 70));
    let restarted = PrevPicInfo { frame_num: 0, frame_num_offset: 16, has_mmco_5: true };
    let pic = counted(prev_ref(0, 0), restarted, &slice(3, 0), &plain);
    assert_eq!((pic.frame_num_offset, pic.pic_order_cnt), (0, 6));
}

#[test]
fn order_counts_out_of_range_are_refused() {
    let mut prev = PrevPicInfo::default();
    let mut pic = PictureData::new_from_slice(&slice(0, 0), &sps(), 0);
    pic.delta_pic_order_cnt_bottom = i32::MAX;
    pic.pic_order_cnt_lsb = 3;
    assert_eq!(
        compute_pic_order_count(&prev_ref(0, 0), &mut prev, &mut pic, &sps()),
        Err(DecodeError::Overflow)
    );
    let odd = Sps { pic_order_cnt_type: 4, ..sps() };
    let mut pic = PictureData::new_from_slice(&slice(0, 0), &odd, 0);
    assert_eq!(
        compute_pic_order_count(&prev_ref(0, 0), &mut prev, &mut pic, &odd),
        Err(DecodeError::PicOrderCntType(4))
    );
}

#[test]
fn caches_hold_the_picture_before() {
    let mut pic = PictureData::new_from_slice(&slice(5, 10), &sps(), 0);
    pic.frame_num_offset = 32;
    pic.pic_order_cnt_msb = 48;
    let mut reference = PrevReferencePicInfo::default();
    reference.fill(&pic);
    assert_eq!(
        (reference.frame_num, reference.pic_order_cnt_msb, reference.pic_order_cnt_lsb),
        (5, 48, 10)
    );
    let mut any = PrevPicInfo::default();
    any.fill(&pic);
    assert_eq!((any.frame_num, any.frame_num_offset), (5, 32));
}

////// Marking

fn stored(frame_nums: &[u32]) -> Dpb {
    let mut dpb = Dpb::new();
    dpb.set_limits(8, 0);
    for &n in frame_nums {
        let mut pic = PictureData::new_from_slice(&slice(n as u16, 2 * n as u16), &sps(), 0);
        pic.pic_order_cnt = 2 * n as i32;
        let handle = Handle { surface: 10 + n, timestamp: n as u64, width: 2, height: 2 };
        assert!(dpb.store_picture(pic, Some(handle)));
    }
    dpb
}

fn op(operation: u8) -> RefPicMarkingInner {
    RefPicMarkingInner {
        memory_management_control_operation: operation,
        difference_of_pic_nums_minus1: 0,
        long_term_pic_num: 0,
        long_term_frame_idx: 3,
        max_long_term_frame_idx: MaxLongTermFrameIdx::Idx(4),
    }
}

fn marking(inner: Vec<RefPicMarkingInner>) -> RefPicMarking {
    RefPicMarking {
        no_output_of_prior_pics_flag: false,
        long_term_reference_flag: false,
        adaptive_ref_pic_marking_mode_flag: !inner.is_empty(),
        inner,
    }
}

#[test]
fn an_idr_picture_is_the_first_reference() {
    let mut idr = slice(0, 0);
    idr.idr_pic_flag = true;
    for (long_term, reference, max) in [
        (false, Reference::ShortTerm, MaxLongTermFrameIdx::NoLongTermFrameIndices),
        (true, Reference::LongTerm, MaxLongTermFrameIdx::Idx(0)),
    ] {
        let mut dpb = stored(&[1, 2]);
        let mut max_idx = MaxLongTermFrameIdx::Idx(9);
        let mut pic = PictureData::new_from_slice(&idr, &sps(), 0);
        let m = RefPicMarking { long_term_reference_flag: long_term, ..marking(Vec::new()) };
        assert_eq!(reference_pic_marking(&mut dpb, &mut max_idx, &mut pic, &m, 4), Ok(()));
        assert!(dpb.entries().iter().all(|e| !e.pic.is_ref()));
        assert_eq!((pic.reference, max_idx), (reference, max));
    }
}

#[test]
fn other_pictures_slide_the_window_or_say_what_to_do() {
    let mut dpb = stored(&[1, 2]);
    dpb.update_pic_nums(3, 16);
    let mut max_idx = MaxLongTermFrameIdx::NoLongTermFrameIndices;
    let mut pic = PictureData::new_from_slice(&slice(3, 6), &sps(), 0);
    let m = marking(Vec::new());
    assert_eq!(reference_pic_marking(&mut dpb, &mut max_idx, &mut pic, &m, 2), Ok(()));
    assert!(!dpb.entries()[0].pic.is_ref() && dpb.entries()[1].pic.is_ref());

    let mut dpb = stored(&[1, 2]);
    let m = marking(vec![op(4), op(6), op(0), op(9)]);
    assert_eq!(reference_pic_marking(&mut dpb, &mut max_idx, &mut pic, &m, 2), Ok(()));
    assert_eq!(max_idx, MaxLongTermFrameIdx::Idx(4));
    assert_eq!((pic.reference, pic.long_term_frame_idx), (Reference::LongTerm, 3));
    assert!(dpb.entries()[0].pic.is_ref());
}

#[test]
fn operations_before_a_failing_one_stand() {
    let mut dpb = stored(&[1, 2]);
    let mut max_idx = MaxLongTermFrameIdx::NoLongTermFrameIndices;
    let mut pic = PictureData::new_from_slice(&slice(3, 6), &sps(), 0);
    let ops = vec![op(1), op(8), op(5)];
    assert_eq!(
        handle_memory_management_ops(&mut dpb, &mut max_idx, &mut pic, &ops),
        Err(MmcoError::UnknownMmco(8))
    );
    assert!(dpb.entries()[0].pic.is_ref() && !dpb.entries()[1].pic.is_ref());
    assert!(!pic.has_mmco_5);
}

////// Reference lists

#[test]
fn lists_are_cut_back_to_their_active_entries() {
    let mut dpb = stored(&[1, 2, 3]);
    dpb.update_pic_nums(4, 16);
    let pic = PictureData::new_from_slice(&slice(4, 8), &sps(), 0);
    let lists = dpb.build_ref_pic_lists(&pic);
    let hdr = slice(4, 8).header;
    let max = MaxLongTermFrameIdx::NoLongTermFrameIndices;
    let (l0, l1) = create_ref_pic_lists(&dpb, max, &pic, &hdr, &lists).expect("lists");
    assert_eq!(l0.iter().map(|e| e.pic.frame_num).collect::<Vec<_>>(), vec![3, 2]);
    assert!(l1.is_empty());
    let intra = SliceHeader { slice_type: SliceType::I, ..slice(4, 8).header };
    let (l0, l1) = create_ref_pic_lists(&dpb, max, &pic, &intra, &lists).expect("lists");
    assert!(l0.is_empty() && l1.is_empty());
}

#[test]
fn modifications_run_in_turn() {
    let mut dpb = stored(&[1, 2, 3]);
    dpb.update_pic_nums(4, 16);
    let pic = PictureData::new_from_slice(&slice(4, 8), &sps(), 0);
    let lists = dpb.build_ref_pic_lists(&pic);
    let step = |idc, diff| RefPicListModification {
        modification_of_pic_nums_idc: idc,
        abs_diff_pic_num_minus1: diff,
        long_term_pic_num: 0,
    };
    // Down three to picture 1, up one to picture 2.
    let hdr = SliceHeader {
        num_ref_idx_l0_active_minus1: 2,
        ref_pic_list_modification_flag_l0: true,
        ref_pic_list_modification_l0: vec![step(0, 2), step(1, 0), step(3, 0), step(7, 0)],
        ..slice(4, 8).header
    };
    let max = MaxLongTermFrameIdx::NoLongTermFrameIndices;
    let list =
        modify_ref_pic_list(&dpb, max, &pic, &hdr, false, &lists.ref_pic_list_p0).expect("list");
    assert_eq!(list.iter().map(|e| e.pic.frame_num).collect::<Vec<_>>(), vec![1, 2, 3]);
}

#[test]
fn a_short_list_names_a_picture_once() {
    let mut dpb = stored(&[1, 2]);
    dpb.update_pic_nums(3, 16);
    let pic = PictureData::new_from_slice(&slice(3, 6), &sps(), 0);
    let lists = dpb.build_ref_pic_lists(&pic);
    let hdr = SliceHeader {
        num_ref_idx_l0_active_minus1: 2,
        ref_pic_list_modification_flag_l0: true,
        ref_pic_list_modification_l0: vec![RefPicListModification {
            modification_of_pic_nums_idc: 0,
            abs_diff_pic_num_minus1: 1,
            long_term_pic_num: 0,
        }],
        ..slice(3, 6).header
    };
    let max = MaxLongTermFrameIdx::NoLongTermFrameIndices;
    let list =
        modify_ref_pic_list(&dpb, max, &pic, &hdr, false, &lists.ref_pic_list_p0).expect("list");
    assert_eq!(list.iter().map(|e| e.pic.frame_num).collect::<Vec<_>>(), vec![1, 2]);
}

////// Parameter buffers

#[test]
fn scaling_lists_go_out_in_raster_order() {
    let mut set = pps();
    for i in 0..16 {
        set.scaling_lists_4x4[2][i] = i as u8;
    }
    for i in 0..64 {
        set.scaling_lists_8x8[1][i] = i as u8;
        set.scaling_lists_8x8[2][i] = 99;
    }
    let m = build_iq_matrix(&set);
    assert_eq!(
        m.scaling_list4x4[2],
        [0, 1, 5, 6, 2, 4, 7, 12, 3, 8, 11, 13, 9, 10, 14, 15]
    );
    assert_eq!(m.scaling_list4x4[0], [16; 16]);
    assert_eq!(m.scaling_list8x8[1][..10], [0, 1, 5, 6, 14, 15, 27, 28, 2, 4]);
    assert_eq!(m.scaling_list8x8[1][63], 63);
    for i in 0..16 {
        assert_eq!(m.scaling_list4x4[2][ZIGZAG_4X4[i]], i as u8);
    }
    for i in 0..64 {
        assert_eq!(m.scaling_list8x8[1][ZIGZAG_8X8[i]], i as u8);
    }
}

#[test]
fn scans_visit_every_position_once() {
    let mut seen = ZIGZAG_4X4.to_vec();
    seen.sort();
    assert_eq!(seen, (0..16).collect::<Vec<_>>());
    let mut seen = ZIGZAG_8X8.to_vec();
    seen.sort();
    assert_eq!(seen, (0..64).collect::<Vec<_>>());
}

#[test]
fn pictures_are_flagged_by_how_they_are_marked() {
    let mut pic = PictureData::new_from_slice(&slice(5, 10), &sps(), 0);
    pic.top_field_order_cnt = 10;
    pic.bottom_field_order_cnt = 11;
    pic.long_term_frame_idx = 2;
    let p = fill_va_h264_pic(&pic, 40);
    assert_eq!((p.picture_id, p.frame_idx, p.flags), (40, 5, 8));
    assert_eq!((p.top_field_order_cnt, p.bottom_field_order_cnt), (10, 11));
    pic.reference = Reference::LongTerm;
    assert_eq!((fill_va_h264_pic(&pic, 40).frame_idx, fill_va_h264_pic(&pic, 40).flags), (2, 16));
    pic.reference = Reference::Unused;
    assert_eq!((fill_va_h264_pic(&pic, 40).frame_idx, fill_va_h264_pic(&pic, 40).flags), (5, 0));
    let none = build_invalid_va_h264_pic();
    assert_eq!((none.picture_id, none.frame_idx, none.flags), (VA_INVALID_ID, 0, 1));
    assert_eq!(va_surface_id(&None), VA_INVALID_ID);
}

#[test]
fn lists_of_pictures_are_filled_up() {
    let dpb = stored(&[1, 2]);
    let pics = fill_ref_pic_list(dpb.entries());
    assert_eq!((pics[0].picture_id, pics[1].picture_id), (11, 12));
    assert!(pics[2..].iter().all(|p| *p == build_invalid_va_h264_pic()));
}

#[test]
fn picture_parameters_repeat_the_stream() {
    let dpb = stored(&[1]);
    let pic = PictureData::new_from_slice(&slice(2, 4), &sps(), 0);
    let p = build_pic_param(&slice(2, 4).header, &pic, 40, &dpb, &sps(), &pps());
    assert_eq!(p.curr_pic.picture_id, 40);
    assert_eq!(p.reference_frames[0].picture_id, 11);
    assert_eq!(p.reference_frames[1], build_invalid_va_h264_pic());
    assert_eq!((p.picture_width_in_mbs_minus1, p.picture_height_in_mbs_minus1), (39, 29));
    assert_eq!((p.pic_init_qp_minus26, p.pic_init_qs_minus26), (3, 4));
    assert_eq!((p.chroma_qp_index_offset, p.second_chroma_qp_index_offset), (-2, -3));
    assert_eq!(p.seq_fields.min_luma_bi_pred_size8x8, 1);
    assert_eq!(p.seq_fields.chroma_format_idc, 1);
    assert_eq!((p.pic_fields.entropy_coding_mode_flag, p.pic_fields.field_pic_flag), (1, 0));
    assert_eq!((p.frame_num, p.num_ref_frames), (2, 4));

    let low = Sps { level_idc: 30, frame_mbs_only_flag: false, ..sps() };
    let p = build_pic_param(&slice(2, 4).header, &pic, 40, &dpb, &low, &pps());
    assert_eq!(p.seq_fields.min_luma_bi_pred_size8x8, 0);
    assert_eq!(p.picture_height_in_mbs_minus1, 59);
}

#[test]
fn weights_go_out_where_they_are_explicit() {
    let weighted = Pps { weighted_pred_flag: true, ..pps() };
    let s = slice(2, 4);
    let list = stored(&[1]).entries().clone();
    let p = build_slice_param(&s.header, 9, &list, &Vec::new(), &sps(), &weighted);
    assert_eq!((p.weights_l0.luma_weight_flag, p.weights_l0.chroma_weight_flag), (1, 1));
    assert_eq!(p.weights_l0.luma_weight[..3], [32, 32, 0]);
    assert_eq!(p.weights_l0.luma_offset[..3], [-7, -7, 0]);
    assert_eq!(p.weights_l0.chroma_weight[..3], [[64, 65], [64, 65], [0, 0]]);
    assert_eq!(p.weights_l0.chroma_offset[1], [-1, 2]);
    assert_eq!((p.weights_l1.luma_weight_flag, p.weights_l1.luma_weight[0]), (0, 0));
    assert_eq!((p.luma_log2_weight_denom, p.chroma_log2_weight_denom), (5, 6));
    assert_eq!((p.slice_data_size, p.slice_data_bit_offset, p.slice_type), (9, 43, 0));
    assert_eq!((p.cabac_init_idc, p.slice_qp_delta), (1, -4));
    assert_eq!(p.direct_spatial_mv_pred_flag, 1);
    assert_eq!((p.slice_alpha_c0_offset_div2, p.slice_beta_offset_div2), (2, -2));
    assert_eq!(p.ref_pic_list_0[0].picture_id, 11);

    // Monochrome has no chroma weights, and a plain P slice no weights at all.
    let mono = Sps { chroma_format_idc: 0, ..sps() };
    let p = build_slice_param(&s.header, 9, &list, &Vec::new(), &mono, &weighted);
    assert_eq!((p.weights_l0.luma_weight_flag, p.weights_l0.chroma_weight_flag), (1, 0));
    let p = build_slice_param(&s.header, 9, &list, &Vec::new(), &sps(), &pps());
    assert_eq!(p.weights_l0.luma_weight_flag, 0);

    // B slices in explicit mode weight both lists.
    let b = SliceHeader { slice_type: SliceType::B, ..slice(2, 4).header };
    let explicit = Pps { weighted_bipred_idc: 1, ..pps() };
    let p = build_slice_param(&b, 9, &list, &list, &sps(), &explicit);
    assert_eq!((p.weights_l0.luma_weight_flag, p.weights_l1.luma_weight_flag), (1, 1));
    assert_eq!(p.weights_l1.luma_weight[..2], [33, 0]);
    let implicit = Pps { weighted_bipred_idc: 2, ..pps() };
    let p = build_slice_param(&b, 9, &list, &list, &sps(), &implicit);
    assert_eq!((p.weights_l0.luma_weight_flag, p.weights_l1.luma_weight_flag), (0, 0));
}

////// Reading back

#[test]
fn planes_lose_their_padding() {
    let src: Vec<u8> = (0..20).collect();
    let mut dst = vec![100; 10];
    assert_eq!(copy_plane(&mut dst, &src, 2, 5, 3, 3), Ok(()));
    assert_eq!(dst, vec![2, 3, 4, 7, 8, 9, 12, 13, 14, 100]);
    assert_eq!(copy_plane(&mut dst, &src, 50, 1, 3, 0), Ok(()));
    assert_eq!(
        copy_plane(&mut dst, &src, 2, 5, 3, 5),
        Err(DecodeError::PlaneTooSmall { offset: 2, pitch: 5, row_bytes: 3, rows: 5 })
    );
    assert_eq!(
        copy_plane(&mut dst, &src, 0, 2, 3, 1),
        Err(DecodeError::PlaneTooSmall { offset: 0, pitch: 2, row_bytes: 3, rows: 1 })
    );
    assert_eq!(dst, vec![2, 3, 4, 7, 8, 9, 12, 13, 14, 100]);
    let mut dst = vec![0, 0, 0, 0, 7];
    assert_eq!(copy_plane(&mut dst, &vec![8, 1, 2, 9, 3, 4], 1, 3, 2, 2), Ok(()));
    assert_eq!(dst, vec![1, 2, 3, 4, 7]);
}

#[test]
fn images_are_packed_plane_by_plane() {
    let handle = Handle { surface: 1, timestamp: 5, width: 2, height: 2 };
    let image = VaImage {
        fourcc: VA_FOURCC_NV12,
        offsets: [1, 10, 0],
        pitches: [4, 4, 0],
        data: (0..12).collect(),
    };
    let frame = pack_nv12(&image, &handle).expect("packed");
    assert_eq!(frame.data, vec![1, 2, 5, 6, 10, 11]);
    assert_eq!((frame.timestamp, frame.width, frame.height), (5, 2, 2));
    let cut = VaImage { data: (0..11).collect(), ..image };
    assert_eq!(
        pack_nv12(&cut, &handle).unwrap_err(),
        DecodeError::PlaneTooSmall { offset: 10, pitch: 4, row_bytes: 2, rows: 1 }
    );
}

////// Sequences and surfaces

#[test]
fn sequences_are_rebuilt_for_what_they_depend_on() {
    let info = SequenceInfo::new(&sps());
    assert_eq!(info, SequenceInfo::new(&Sps { level_idc: 10, max_num_ref_frames: 1, ..sps() }));
    assert_ne!(info, SequenceInfo::new(&Sps { width: 320, ..sps() }));
    assert_ne!(info, SequenceInfo::new(&Sps { profile_idc: 77, ..sps() }));
    assert_ne!(info, SequenceInfo::new(&Sps { max_dpb_frames: 5, ..sps() }));
}

#[test]
fn sequences_say_what_to_open() {
    let (request, sequence) = Sequence::new(&sps()).expect("supported");
    assert_eq!((request.profile, request.entrypoint, request.rt_format), (7, 1, 1));
    assert_eq!((request.coded_width, request.coded_height), (640, 480));
    assert_eq!((sequence.width, sequence.height), (640, 480));
    assert!(sequence.pool.surfaces.is_empty());
    assert_eq!(va_profile(&Sps { profile_idc: 66, ..sps() }), Ok(13));
    assert_eq!(
        va_profile(&Sps { profile_idc: 44, ..sps() }),
        Err(DecodeError::Profile(44))
    );
}

#[test]
fn pools_hand_out_what_nothing_refers_to() {
    let dpb = stored(&[1]);
    let ready = vec![Handle { surface: 20, timestamp: 0, width: 2, height: 2 }];
    assert!(is_referred_to(&dpb, &ready, 11) && is_referred_to(&dpb, &ready, 20));
    assert!(!is_referred_to(&dpb, &ready, 1));
    let mut pool = SurfacePool { width: 640, height: 480, surfaces: vec![11, 30, 20] };
    assert_eq!(pool.take(&dpb, &ready), Some(30));
    assert!(pool.contains(30));
    pool.retire(30);
    assert!(!pool.contains(30) && pool.contains(11) && pool.contains(20));
    assert_eq!(pool.take(&dpb, &ready), None);
}

#[test]
fn pools_use_again_first_what_came_back_last() {
    let mut pool = SurfacePool { width: 640, height: 480, surfaces: vec![11, 12, 13, 14] };
    let dpb = stored(&[3]);
    let picture = |surface| Handle { surface, timestamp: 0, width: 2, height: 2 };
    pool.give_back(&vec![picture(12), picture(13), picture(11), picture(99)], &dpb, &Vec::new());
    // Picture 3 of the buffer is in surface 13, and surface 99 is not the pool's.
    assert_eq!(pool.surfaces, vec![13, 14, 12, 11]);
    assert_eq!(pool.take(&dpb, &Vec::new()), Some(11));
    assert_eq!(pool.take(&dpb, &vec![picture(11)]), Some(12));
    pool.retire(11);
    assert_eq!(pool.take(&dpb, &Vec::new()), Some(12));
}

#[test]
fn the_reorder_depth_is_that_of_the_sequence_where_it_fits() {
    let mut memory = Memory::new();
    memory.apply_limits(&Sps { max_dpb_frames: 2, max_num_order_frames: 2, ..sps() });
    for n in 0..2u16 {
        let pic = PictureData::new_from_slice(&slice(n, 2 * n), &sps(), n as u64);
        let handle = Handle { surface: n as u32, timestamp: n as u64, width: 2, height: 2 };
        assert!(memory.dpb.store_picture(pic, Some(handle)));
    }
    assert!(!memory.dpb.has_empty_frame_buffer());
    memory.reset();
    assert_eq!(memory.ready.len(), 2);
    assert!(memory.dpb.is_empty());
    memory.drain();
    assert_eq!(memory.ready.len(), 2);
}
