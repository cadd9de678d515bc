//! Parsed parameter sets and slice headers.
//!
//! The values a bitstream parser hands over, under the names the H.264
//! specification gives them.

use std::rc::Rc;

use vstd::prelude::*;

verus! {

/// A rectangle in pixels: inclusive minimum, exclusive maximum.
#[derive(Clone, Copy, Debug, PartialEq, Eq, Structural)]
pub struct Rect {
    pub min_x: u32,
    pub min_y: u32,
    pub max_x: u32,
    pub max_y: u32,
}

/// A sequence parameter set, with the quantities the parser derives from it.
#[derive(Debug)]
pub struct Sps {
    pub profile_idc: u8,
    pub level_idc: u8,
    pub chroma_format_idc: u8,
    pub separate_colour_plane_flag: bool,
    pub bit_depth_luma_minus8: u8,
    pub bit_depth_chroma_minus8: u8,
    pub log2_max_frame_num_minus4: u8,
    pub pic_order_cnt_type: u8,
    pub log2_max_pic_order_cnt_lsb_minus4: u8,
    pub delta_pic_order_always_zero_flag: bool,
    pub offset_for_non_ref_pic: i32,
    pub offset_for_top_to_bottom_field: i32,
    pub num_ref_frames_in_pic_order_cnt_cycle: u8,
    pub offset_for_ref_frame: [i32; 255],
    pub expected_delta_per_pic_order_cnt_cycle: i32,
    pub max_num_ref_frames: u8,
    pub gaps_in_frame_num_value_allowed_flag: bool,
    pub pic_width_in_mbs_minus1: u16,
    pub pic_height_in_map_units_minus1: u16,
    pub frame_mbs_only_flag: bool,
    pub mb_adaptive_frame_field_flag: bool,
    pub direct_8x8_inference_flag: bool,
    /// Coded width in pixels.
    pub width: u32,
    /// Coded height in pixels.
    pub height: u32,
    /// The cropping rectangle: what a viewer is meant to see.
    pub visible: Rect,
    /// Frames the decoded picture buffer holds (A.3.1, or the VUI's own limit).
    pub max_dpb_frames: usize,
    /// Frames that may precede another in decoding order and follow it in output order.
    pub max_num_order_frames: u32,
}

impl Sps {
    /// Whether every value lies where its syntax element allows it to lie, as far
    /// as the decoder relies on it.
    pub open spec fn valid(self) -> bool {
        &&& self.log2_max_frame_num_minus4 <= 12
        &&& self.log2_max_pic_order_cnt_lsb_minus4 <= 12
        &&& self.pic_height_in_map_units_minus1 < if self.frame_mbs_only_flag {
            0xffffu16
        } else {
            0x7fffu16
        }
        &&& self.visible.min_x <= self.visible.max_x
        &&& self.visible.min_y <= self.visible.max_y
    }

    /// Tests [`Sps::valid`].
    pub fn is_valid(&self) -> (ok: bool)
        ensures
            ok == self.valid(),
            ok ==> self.log2_max_frame_num_minus4 <= 12 && self.log2_max_pic_order_cnt_lsb_minus4
                <= 12,
            ok ==> (self.pic_height_in_map_units_minus1 + 1) * (if self.frame_mbs_only_flag {
                1int
            } else {
                2int
            }) <= u16::MAX,
            ok ==> self.visible.min_x <= self.visible.max_x && self.visible.min_y
                <= self.visible.max_y,
            self.log2_max_frame_num_minus4 <= 12 && self.log2_max_pic_order_cnt_lsb_minus4 <= 12
                && (self.pic_height_in_map_units_minus1 + 1) * (if self.frame_mbs_only_flag {
                1int
            } else {
                2int
            }) <= u16::MAX && self.visible.min_x <= self.visible.max_x && self.visible.min_y
                <= self.visible.max_y ==> ok,
    {
        self.log2_max_frame_num_minus4 <= 12 && self.log2_max_pic_order_cnt_lsb_minus4 <= 12
            && self.pic_height_in_map_units_minus1 < (if self.frame_mbs_only_flag {
            0xffff
        } else {
            0x7fff
        }) && self.visible.min_x
            <= self.visible.max_x && self.visible.min_y <= self.visible.max_y
    }

    /// `MaxFrameNum`: two to the power of `log2_max_frame_num`.
    pub open spec fn spec_max_frame_num(self) -> nat {
        vstd::arithmetic::power2::pow2((self.log2_max_frame_num_minus4 + 4) as nat)
    }

    /// Returns `MaxFrameNum`.
    pub fn max_frame_num(&self) -> (n: u32)
        requires
            self.valid(),
        ensures
            n == self.spec_max_frame_num(),
            n == vstd::arithmetic::power2::pow2((self.log2_max_frame_num_minus4 + 4) as nat),
            16 <= n <= 65536,
    {
        power_of_two(self.log2_max_frame_num_minus4 + 4)
    }

    /// `MaxPicOrderCntLsb`: two to the power of `log2_max_pic_order_cnt_lsb`.
    pub open spec fn spec_max_pic_order_cnt_lsb(self) -> nat {
        vstd::arithmetic::power2::pow2((self.log2_max_pic_order_cnt_lsb_minus4 + 4) as nat)
    }

    /// Returns `MaxPicOrderCntLsb`.
    pub fn max_pic_order_cnt_lsb(&self) -> (n: u32)
        requires
            self.valid(),
        ensures
            n == self.spec_max_pic_order_cnt_lsb(),
            n == vstd::arithmetic::power2::pow2(
                (self.log2_max_pic_order_cnt_lsb_minus4 + 4) as nat,
            ),
            16 <= n <= 65536,
    {
        power_of_two(self.log2_max_pic_order_cnt_lsb_minus4 + 4)
    }

    /// `ChromaArrayType`: the chroma format, or zero where the planes are coded
    /// separately.
    pub open spec fn spec_chroma_array_type(self) -> u8 {
        if self.separate_colour_plane_flag {
            0
        } else {
            self.chroma_format_idc
        }
    }

    /// Returns `ChromaArrayType`.
    pub fn chroma_array_type(&self) -> (t: u8)
        ensures
            t == self.spec_chroma_array_type(),
            self.separate_colour_plane_flag ==> t == 0,
            !self.separate_colour_plane_flag ==> t == self.chroma_format_idc,
    {
        if self.separate_colour_plane_flag {
            0
        } else {
            self.chroma_format_idc
        }
    }
}

/// Returns two to the power of `exponent`.
fn power_of_two(exponent: u8) -> (n: u32)
    requires
        4 <= exponent <= 16,
    ensures
        n == vstd::arithmetic::power2::pow2(exponent as nat),
        16 <= n <= 65536,
{
    let mut n: u32 = 16;
    let mut e: u8 = 4;
    proof {
        vstd::arithmetic::power2::lemma2_to64();
    }
    while e < exponent
        invariant
            4 <= e <= exponent <= 16,
            n == vstd::arithmetic::power2::pow2(e as nat),
            n >= 16,
            vstd::arithmetic::power2::pow2(16) == 65536,
        decreases exponent - e,
    {
        proof {
            vstd::arithmetic::power2::lemma_pow2_unfold((e + 1) as nat);
            if e + 1 < 16 {
                vstd::arithmetic::power2::lemma_pow2_strictly_increases((e + 1) as nat, 16);
            }
        }
        n = n * 2;
        e = e + 1;
    }
    proof {
        if exponent < 16 {
            vstd::arithmetic::power2::lemma_pow2_strictly_increases(exponent as nat, 16);
        }
    }
    n
}

/// A picture parameter set, with the sequence parameter set it refers to.
#[derive(Debug)]
pub struct Pps {
    pub sps: Rc<Sps>,
    pub pic_parameter_set_id: u8,
    pub entropy_coding_mode_flag: bool,
    pub bottom_field_pic_order_in_frame_present_flag: bool,
    pub weighted_pred_flag: bool,
    pub weighted_bipred_idc: u8,
    pub pic_init_qp_minus26: i8,
    pub pic_init_qs_minus26: i8,
    pub chroma_qp_index_offset: i8,
    pub deblocking_filter_control_present_flag: bool,
    pub constrained_intra_pred_flag: bool,
    pub redundant_pic_cnt_present_flag: bool,
    pub transform_8x8_mode_flag: bool,
    /// Scaling lists in zig-zag order.
    pub scaling_lists_4x4: [[u8; 16]; 6],
    pub scaling_lists_8x8: [[u8; 64]; 6],
    pub second_chroma_qp_index_offset: i8,
}

/// The coding type of a slice.
#[derive(Clone, Copy, Debug, PartialEq, Eq, Structural)]
pub enum SliceType {
    P,
    B,
    I,
    Sp,
    Si,
}

impl SliceType {
    /// The `slice_type` code point of Table 7-6.
    pub open spec fn spec_code(self) -> u8 {
        match self {
            SliceType::P => 0,
            SliceType::B => 1,
            SliceType::I => 2,
            SliceType::Sp => 3,
            SliceType::Si => 4,
        }
    }

    /// Returns the `slice_type` code point of Table 7-6.
    pub fn code(self) -> (c: u8)
        ensures
            c == self.spec_code(),
            c == 0 <==> self is P,
            c == 1 <==> self is B,
            c == 2 <==> self is I,
            c == 3 <==> self is Sp,
            c == 4 <==> self is Si,
    {
        match self {
            SliceType::P => 0,
            SliceType::B => 1,
            SliceType::I => 2,
            SliceType::Sp => 3,
            SliceType::Si => 4,
        }
    }
}

/// One entry of `ref_pic_list_modification()` (7.3.3.1).
#[derive(Clone, Copy, Debug, PartialEq, Eq, Structural)]
pub struct RefPicListModification {
    pub modification_of_pic_nums_idc: u8,
    pub abs_diff_pic_num_minus1: u32,
    pub long_term_pic_num: u32,
}

/// `pred_weight_table()` (7.3.3.2).
#[derive(Debug)]
pub struct PredWeightTable {
    pub luma_log2_weight_denom: u8,
    pub chroma_log2_weight_denom: u8,
    pub luma_weight_l0: [i16; 32],
    pub luma_offset_l0: [i8; 32],
    pub chroma_weight_l0: [[i16; 2]; 32],
    pub chroma_offset_l0: [[i8; 2]; 32],
    pub luma_weight_l1: [i16; 32],
    pub luma_offset_l1: [i8; 32],
    pub chroma_weight_l1: [[i16; 2]; 32],
    pub chroma_offset_l1: [[i8; 2]; 32],
}

/// `MaxLongTermFrameIdx` (8.2.5.4).
#[derive(Clone, Copy, Debug, PartialEq, Eq, Structural)]
pub enum MaxLongTermFrameIdx {
    NoLongTermFrameIndices,
    Idx(u32),
}

/// One memory management control operation of `dec_ref_pic_marking()` (7.3.3.3).
#[derive(Clone, Copy, Debug, PartialEq, Eq, Structural)]
pub struct RefPicMarkingInner {
    pub memory_management_control_operation: u8,
    pub difference_of_pic_nums_minus1: u32,
    pub long_term_pic_num: u32,
    pub long_term_frame_idx: u32,
    pub max_long_term_frame_idx: MaxLongTermFrameIdx,
}

/// `dec_ref_pic_marking()` (7.3.3.3).
#[derive(Debug)]
pub struct RefPicMarking {
    pub no_output_of_prior_pics_flag: bool,
    pub long_term_reference_flag: bool,
    pub adaptive_ref_pic_marking_mode_flag: bool,
    pub inner: Vec<RefPicMarkingInner>,
}

/// A slice header.
#[derive(Debug)]
pub struct SliceHeader {
    pub first_mb_in_slice: u32,
    pub slice_type: SliceType,
    pub pic_parameter_set_id: u8,
    pub frame_num: u16,
    pub field_pic_flag: bool,
    pub bottom_field_flag: bool,
    pub idr_pic_id: u16,
    pub pic_order_cnt_lsb: u16,
    pub delta_pic_order_cnt_bottom: i32,
    pub delta_pic_order_cnt: [i32; 2],
    pub direct_spatial_mv_pred_flag: bool,
    pub num_ref_idx_l0_active_minus1: u8,
    pub num_ref_idx_l1_active_minus1: u8,
    pub ref_pic_list_modification_flag_l0: bool,
    pub ref_pic_list_modification_l0: Vec<RefPicListModification>,
    pub ref_pic_list_modification_flag_l1: bool,
    pub ref_pic_list_modification_l1: Vec<RefPicListModification>,
    pub pred_weight_table: PredWeightTable,
    pub dec_ref_pic_marking: RefPicMarking,
    pub cabac_init_idc: u8,
    pub slice_qp_delta: i8,
    pub disable_deblocking_filter_idc: u8,
    pub slice_alpha_c0_offset_div2: i8,
    pub slice_beta_offset_div2: i8,
    /// `MaxPicNum`, derived from the sequence parameter set.
    pub max_pic_num: u32,
    /// Bits the header takes up, from the start of the NAL unit.
    pub header_bit_size: usize,
}

/// One slice: its parsed header and the NAL unit it came in.
#[derive(Debug)]
pub struct Slice {
    pub header: SliceHeader,
    pub nal_ref_idc: u8,
    pub idr_pic_flag: bool,
    /// The whole NAL unit, header byte included.
    pub data: Vec<u8>,
}

impl Slice {
    /// Whether the header obeys the ranges its sequence parameter set `sps` puts
    /// on it, as far as the decoder relies on them.
    pub open spec fn valid_for(self, sps: Sps) -> bool {
        &&& self.header.frame_num < sps.spec_max_frame_num()
        &&& !(sps.frame_mbs_only_flag && self.header.field_pic_flag)
        &&& self.header.num_ref_idx_l0_active_minus1 < 32
        &&& self.header.num_ref_idx_l1_active_minus1 < 32
    }

    /// Tests [`Slice::valid_for`].
    pub fn is_valid_for(&self, sps: &Sps) -> (ok: bool)
        requires
            sps.valid(),
        ensures
            ok == self.valid_for(*sps),
            ok <==> {
                &&& self.header.frame_num < vstd::arithmetic::power2::pow2(
                    (sps.log2_max_frame_num_minus4 + 4) as nat,
                )
                &&& sps.frame_mbs_only_flag ==> !self.header.field_pic_flag
                &&& self.header.num_ref_idx_l0_active_minus1 <= 31
                &&& self.header.num_ref_idx_l1_active_minus1 <= 31
            },
    {
        (self.header.frame_num as u32) < sps.max_frame_num() && !(sps.frame_mbs_only_flag
            && self.header.field_pic_flag) && self.header.num_ref_idx_l0_active_minus1 < 32
            && self.header.num_ref_idx_l1_active_minus1 < 32
    }
}

} // verus!
