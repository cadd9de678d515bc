//! The decoding state of one picture.

use vstd::prelude::*;

use crate::h264::syntax::{MaxLongTermFrameIdx, Slice, Sps};

verus! {

/// Which lines of a frame a picture covers.
#[derive(Clone, Copy, Debug, PartialEq, Eq, Structural)]
pub enum Field {
    Frame,
    Top,
    Bottom,
}

/// How a picture is marked for reference.
#[derive(Clone, Copy, Debug, PartialEq, Eq, Structural)]
pub enum Reference {
    /// Not used for reference.
    Unused,
    ShortTerm,
    LongTerm,
}

/// Whether a picture is an instantaneous decoding refresh.
#[derive(Clone, Copy, Debug, PartialEq, Eq, Structural)]
pub enum IsIdr {
    No,
    Yes { idr_pic_id: u16 },
}

/// The decoding state of one picture, under the names of clause 8.2.
#[derive(Clone, Copy, Debug, PartialEq, Eq, Structural)]
pub struct PictureData {
    pub pic_order_cnt_type: u8,
    pub top_field_order_cnt: i32,
    pub bottom_field_order_cnt: i32,
    pub pic_order_cnt: i32,
    pub pic_order_cnt_msb: i32,
    pub pic_order_cnt_lsb: i32,
    pub delta_pic_order_cnt_bottom: i32,
    pub delta_pic_order_cnt0: i32,
    pub delta_pic_order_cnt1: i32,
    pub pic_num: i32,
    pub long_term_pic_num: u32,
    pub frame_num: u32,
    pub frame_num_offset: u32,
    pub frame_num_wrap: i32,
    pub long_term_frame_idx: u32,
    pub nal_ref_idc: u8,
    pub is_idr: IsIdr,
    pub field: Field,
    pub reference: Reference,
    pub has_mmco_5: bool,
    /// Invented to fill a gap in `frame_num`; never decoded, never output.
    pub nonexisting: bool,
    pub needed_for_output: bool,
    pub timestamp: u64,
}

impl PictureData {
    /// Whether the picture is used for reference.
    pub open spec fn spec_is_ref(self) -> bool {
        self.reference != Reference::Unused
    }

    /// Returns whether the picture is used for reference.
    pub fn is_ref(&self) -> (b: bool)
        ensures
            b == self.spec_is_ref(),
            b <==> self.reference == Reference::ShortTerm || self.reference == Reference::LongTerm,
    {
        match self.reference {
            Reference::Unused => false,
            _ => true,
        }
    }

    /// Whether the picture is an instantaneous decoding refresh.
    pub open spec fn spec_idr(self) -> bool {
        self.is_idr is Yes
    }

    /// Returns whether the picture is an instantaneous decoding refresh.
    pub fn idr(&self) -> (b: bool)
        ensures
            b == self.spec_idr(),
            b <==> self.is_idr != IsIdr::No,
    {
        match self.is_idr {
            IsIdr::Yes { .. } => true,
            IsIdr::No => false,
        }
    }

    /// The picture a slice starts: everything its header says, nothing derived yet.
    pub open spec fn of_slice(slice: Slice, sps: Sps, timestamp: u64) -> PictureData {
        let hdr = slice.header;
        PictureData {
            pic_order_cnt_type: sps.pic_order_cnt_type,
            top_field_order_cnt: 0,
            bottom_field_order_cnt: 0,
            pic_order_cnt: 0,
            pic_order_cnt_msb: 0,
            pic_order_cnt_lsb: if sps.pic_order_cnt_type == 0 {
                hdr.pic_order_cnt_lsb as i32
            } else {
                0
            },
            delta_pic_order_cnt_bottom: if sps.pic_order_cnt_type == 0 {
                hdr.delta_pic_order_cnt_bottom
            } else {
                0
            },
            delta_pic_order_cnt0: if sps.pic_order_cnt_type == 1 {
                hdr.delta_pic_order_cnt[0]
            } else {
                0
            },
            delta_pic_order_cnt1: if sps.pic_order_cnt_type == 1 {
                hdr.delta_pic_order_cnt[1]
            } else {
                0
            },
            pic_num: if hdr.field_pic_flag {
                (2 * hdr.frame_num + 1) as i32
            } else {
                hdr.frame_num as i32
            },
            long_term_pic_num: 0,
            frame_num: hdr.frame_num as u32,
            frame_num_offset: 0,
            frame_num_wrap: 0,
            long_term_frame_idx: 0,
            nal_ref_idc: slice.nal_ref_idc,
            is_idr: if slice.idr_pic_flag {
                IsIdr::Yes { idr_pic_id: hdr.idr_pic_id }
            } else {
                IsIdr::No
            },
            field: if !hdr.field_pic_flag {
                Field::Frame
            } else if hdr.bottom_field_flag {
                Field::Bottom
            } else {
                Field::Top
            },
            reference: if slice.nal_ref_idc != 0 {
                Reference::ShortTerm
            } else {
                Reference::Unused
            },
            has_mmco_5: false,
            nonexisting: false,
            needed_for_output: false,
            timestamp,
        }
    }

    /// Builds the picture `slice` starts.
    pub fn new_from_slice(slice: &Slice, sps: &Sps, timestamp: u64) -> (pic: PictureData)
        ensures
            pic == PictureData::of_slice(*slice, *sps, timestamp),
            pic.timestamp == timestamp,
            pic.frame_num == slice.header.frame_num,
            pic.nal_ref_idc == slice.nal_ref_idc,
            pic.pic_order_cnt_type == sps.pic_order_cnt_type,
            sps.pic_order_cnt_type == 0 ==> pic.pic_order_cnt_lsb == slice.header.pic_order_cnt_lsb
                && pic.delta_pic_order_cnt_bottom == slice.header.delta_pic_order_cnt_bottom,
            sps.pic_order_cnt_type == 1 ==> pic.delta_pic_order_cnt0
                == slice.header.delta_pic_order_cnt[0] && pic.delta_pic_order_cnt1
                == slice.header.delta_pic_order_cnt[1],
            !slice.header.field_pic_flag ==> pic.field == Field::Frame && pic.pic_num
                == slice.header.frame_num,
            slice.header.field_pic_flag ==> pic.pic_num == 2 * slice.header.frame_num + 1
                && pic.field == if slice.header.bottom_field_flag {
                Field::Bottom
            } else {
                Field::Top
            },
            slice.idr_pic_flag ==> pic.is_idr == (IsIdr::Yes {
                idr_pic_id: slice.header.idr_pic_id,
            }),
            !slice.idr_pic_flag ==> pic.is_idr is No,
            slice.nal_ref_idc == 0 <==> pic.reference == Reference::Unused,
            pic.reference != Reference::LongTerm,
            !pic.nonexisting && !pic.has_mmco_5,
            pic.top_field_order_cnt == 0 && pic.bottom_field_order_cnt == 0,
            pic.pic_order_cnt == 0 && pic.pic_order_cnt_msb == 0,
            sps.pic_order_cnt_type != 0 ==> pic.pic_order_cnt_lsb == 0
                && pic.delta_pic_order_cnt_bottom == 0,
            sps.pic_order_cnt_type != 1 ==> pic.delta_pic_order_cnt0 == 0
                && pic.delta_pic_order_cnt1 == 0,
            pic.long_term_pic_num == 0 && pic.long_term_frame_idx == 0,
            pic.frame_num_offset == 0 && pic.frame_num_wrap == 0,
            !pic.needed_for_output,
    {
        let hdr = &slice.header;
        let (lsb, bottom): (i32, i32) = if sps.pic_order_cnt_type == 0 {
            (hdr.pic_order_cnt_lsb as i32, hdr.delta_pic_order_cnt_bottom)
        } else {
            (0, 0)
        };
        let (delta0, delta1): (i32, i32) = if sps.pic_order_cnt_type == 1 {
            (hdr.delta_pic_order_cnt[0], hdr.delta_pic_order_cnt[1])
        } else {
            (0, 0)
        };
        let pic_num: i32 = if hdr.field_pic_flag {
            2 * (hdr.frame_num as i32) + 1
        } else {
            hdr.frame_num as i32
        };
        PictureData {
            pic_order_cnt_type: sps.pic_order_cnt_type,
            top_field_order_cnt: 0,
            bottom_field_order_cnt: 0,
            pic_order_cnt: 0,
            pic_order_cnt_msb: 0,
            pic_order_cnt_lsb: lsb,
            delta_pic_order_cnt_bottom: bottom,
            delta_pic_order_cnt0: delta0,
            delta_pic_order_cnt1: delta1,
            pic_num,
            long_term_pic_num: 0,
            frame_num: hdr.frame_num as u32,
            frame_num_offset: 0,
            frame_num_wrap: 0,
            long_term_frame_idx: 0,
            nal_ref_idc: slice.nal_ref_idc,
            is_idr: if slice.idr_pic_flag {
                IsIdr::Yes { idr_pic_id: hdr.idr_pic_id }
            } else {
                IsIdr::No
            },
            field: if !hdr.field_pic_flag {
                Field::Frame
            } else if hdr.bottom_field_flag {
                Field::Bottom
            } else {
                Field::Top
            },
            reference: if slice.nal_ref_idc != 0 {
                Reference::ShortTerm
            } else {
                Reference::Unused
            },
            has_mmco_5: false,
            nonexisting: false,
            needed_for_output: false,
            timestamp,
        }
    }

    /// The short-term reference frame standing in for a skipped `frame_num`.
    pub open spec fn non_existing(frame_num: u32, timestamp: u64) -> PictureData {
        PictureData {
            pic_order_cnt_type: 0,
            top_field_order_cnt: 0,
            bottom_field_order_cnt: 0,
            pic_order_cnt: 0,
            pic_order_cnt_msb: 0,
            pic_order_cnt_lsb: 0,
            delta_pic_order_cnt_bottom: 0,
            delta_pic_order_cnt0: 0,
            delta_pic_order_cnt1: 0,
            pic_num: frame_num as i32,
            long_term_pic_num: 0,
            frame_num,
            frame_num_offset: 0,
            frame_num_wrap: 0,
            long_term_frame_idx: 0,
            nal_ref_idc: 1,
            is_idr: IsIdr::No,
            field: Field::Frame,
            reference: Reference::ShortTerm,
            has_mmco_5: false,
            nonexisting: true,
            needed_for_output: false,
            timestamp,
        }
    }

    /// Builds the reference frame standing in for a skipped `frame_num`.
    pub fn new_non_existing(frame_num: u32, timestamp: u64) -> (pic: PictureData)
        ensures
            pic == PictureData::non_existing(frame_num, timestamp),
            pic.nonexisting,
            pic.frame_num == frame_num,
            frame_num <= i32::MAX ==> pic.pic_num == frame_num,
            pic.reference == Reference::ShortTerm,
            pic.nal_ref_idc != 0,
            pic.is_idr is No,
            !pic.needed_for_output && !pic.has_mmco_5,
            pic.field == Field::Frame,
            pic.timestamp == timestamp,
            pic.pic_order_cnt_type == 0,
            pic.top_field_order_cnt == 0 && pic.bottom_field_order_cnt == 0,
            pic.pic_order_cnt == 0 && pic.pic_order_cnt_msb == 0 && pic.pic_order_cnt_lsb == 0,
            pic.delta_pic_order_cnt_bottom == 0,
            pic.delta_pic_order_cnt0 == 0 && pic.delta_pic_order_cnt1 == 0,
            pic.long_term_pic_num == 0 && pic.long_term_frame_idx == 0,
            pic.frame_num_offset == 0 && pic.frame_num_wrap == 0,
    {
        PictureData {
            pic_order_cnt_type: 0,
            top_field_order_cnt: 0,
            bottom_field_order_cnt: 0,
            pic_order_cnt: 0,
            pic_order_cnt_msb: 0,
            pic_order_cnt_lsb: 0,
            delta_pic_order_cnt_bottom: 0,
            delta_pic_order_cnt0: 0,
            delta_pic_order_cnt1: 0,
            pic_num: #[verifier::truncate]
            (frame_num as i32),
            long_term_pic_num: 0,
            frame_num,
            frame_num_offset: 0,
            frame_num_wrap: 0,
            long_term_frame_idx: 0,
            nal_ref_idc: 1,
            is_idr: IsIdr::No,
            field: Field::Frame,
            reference: Reference::ShortTerm,
            has_mmco_5: false,
            nonexisting: true,
            needed_for_output: false,
            timestamp,
        }
    }

    /// `PicNumF` (8.2.4.3.1): the picture number, or one no short-term picture has.
    pub open spec fn spec_pic_num_f(self, max_pic_num: i32) -> i32 {
        if self.reference == Reference::LongTerm {
            max_pic_num
        } else {
            self.pic_num
        }
    }

    /// Returns `PicNumF` (8.2.4.3.1).
    pub fn pic_num_f(&self, max_pic_num: i32) -> (n: i32)
        ensures
            n == self.spec_pic_num_f(max_pic_num),
            self.reference == Reference::LongTerm ==> n == max_pic_num,
            self.reference != Reference::LongTerm ==> n == self.pic_num,
    {
        match self.reference {
            Reference::LongTerm => max_pic_num,
            _ => self.pic_num,
        }
    }

    /// `LongTermPicNumF` (8.2.4.3.2): the long-term picture number, or one no
    /// long-term picture has.
    pub open spec fn spec_long_term_pic_num_f(self, max: MaxLongTermFrameIdx) -> int {
        if self.reference == Reference::LongTerm {
            self.long_term_pic_num as int
        } else {
            match max {
                MaxLongTermFrameIdx::NoLongTermFrameIndices => 0,
                MaxLongTermFrameIdx::Idx(idx) => 2 * (idx + 1),
            }
        }
    }

    /// Returns `LongTermPicNumF` (8.2.4.3.2).
    pub fn long_term_pic_num_f(&self, max: MaxLongTermFrameIdx) -> (n: u64)
        ensures
            n == self.spec_long_term_pic_num_f(max),
            self.reference == Reference::LongTerm ==> n == self.long_term_pic_num,
            self.reference != Reference::LongTerm ==> match max {
                MaxLongTermFrameIdx::NoLongTermFrameIndices => n == 0,
                MaxLongTermFrameIdx::Idx(idx) => n == 2 * (idx + 1),
            },
    {
        match self.reference {
            Reference::LongTerm => self.long_term_pic_num as u64,
            _ => match max {
                MaxLongTermFrameIdx::NoLongTermFrameIndices => 0,
                MaxLongTermFrameIdx::Idx(idx) => 2 * (idx as u64 + 1),
            },
        }
    }
}

} // verus!
