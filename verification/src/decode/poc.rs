//! Picture order count (8.2.1), which drives output ordering.

pub mod laws;

use vstd::prelude::*;

use crate::decode::error::DecodeError;
use crate::h264::picture::{Field, PictureData};
use crate::h264::syntax::Sps;

verus! {

/// Cached variables from the previous reference picture, needed by 8.2.1.
#[derive(Clone, Copy, Debug, PartialEq, Eq, Structural)]
pub struct PrevReferencePicInfo {
    pub frame_num: u32,
    pub has_mmco_5: bool,
    pub top_field_order_cnt: i32,
    pub pic_order_cnt_msb: i32,
    pub pic_order_cnt_lsb: i32,
    pub field: Field,
}

impl PrevReferencePicInfo {
    /// What is cached before the first picture.
    pub open spec fn initial() -> PrevReferencePicInfo {
        PrevReferencePicInfo {
            frame_num: 0,
            has_mmco_5: false,
            top_field_order_cnt: 0,
            pic_order_cnt_msb: 0,
            pic_order_cnt_lsb: 0,
            field: Field::Frame,
        }
    }

    /// What is cached of `pic`.
    pub open spec fn of(pic: PictureData) -> PrevReferencePicInfo {
        PrevReferencePicInfo {
            frame_num: pic.frame_num,
            has_mmco_5: pic.has_mmco_5,
            top_field_order_cnt: pic.top_field_order_cnt,
            pic_order_cnt_msb: pic.pic_order_cnt_msb,
            pic_order_cnt_lsb: pic.pic_order_cnt_lsb,
            field: pic.field,
        }
    }

    /// Caches `pic`, the reference picture just decoded.
    pub fn fill(&mut self, pic: &PictureData)
        ensures
            *final(self) == PrevReferencePicInfo::of(*pic),
            final(self).frame_num == pic.frame_num,
            final(self).has_mmco_5 == pic.has_mmco_5,
            final(self).top_field_order_cnt == pic.top_field_order_cnt,
            final(self).pic_order_cnt_msb == pic.pic_order_cnt_msb,
            final(self).pic_order_cnt_lsb == pic.pic_order_cnt_lsb,
            final(self).field == pic.field,
    {
        self.has_mmco_5 = pic.has_mmco_5;
        self.top_field_order_cnt = pic.top_field_order_cnt;
        self.pic_order_cnt_msb = pic.pic_order_cnt_msb;
        self.pic_order_cnt_lsb = pic.pic_order_cnt_lsb;
        self.field = pic.field;
        self.frame_num = pic.frame_num;
    }
}

impl Default for PrevReferencePicInfo {
    fn default() -> (info: Self)
        ensures
            info == PrevReferencePicInfo::initial(),
    {
        PrevReferencePicInfo {
            frame_num: 0,
            has_mmco_5: false,
            top_field_order_cnt: 0,
            pic_order_cnt_msb: 0,
            pic_order_cnt_lsb: 0,
            field: Field::Frame,
        }
    }
}

/// Cached variables from the previous picture, needed by 8.2.1.
#[derive(Clone, Copy, Debug, PartialEq, Eq, Structural)]
pub struct PrevPicInfo {
    pub frame_num: u32,
    pub frame_num_offset: u32,
    pub has_mmco_5: bool,
}

impl PrevPicInfo {
    /// What is cached before the first picture.
    pub open spec fn initial() -> PrevPicInfo {
        PrevPicInfo { frame_num: 0, frame_num_offset: 0, has_mmco_5: false }
    }

    /// What is cached of `pic`.
    pub open spec fn of(pic: PictureData) -> PrevPicInfo {
        PrevPicInfo {
            frame_num: pic.frame_num,
            frame_num_offset: pic.frame_num_offset,
            has_mmco_5: pic.has_mmco_5,
        }
    }

    /// The cached variables as 8.2.1.2 and 8.2.1.3 use them: the offset starts
    /// over after a picture that restarted the frame numbers.
    pub open spec fn restarted(self) -> PrevPicInfo {
        if self.has_mmco_5 {
            PrevPicInfo { frame_num_offset: 0, ..self }
        } else {
            self
        }
    }

    /// Caches `pic`, the picture just decoded.
    pub fn fill(&mut self, pic: &PictureData)
        ensures
            *final(self) == PrevPicInfo::of(*pic),
            final(self).frame_num == pic.frame_num,
            final(self).frame_num_offset == pic.frame_num_offset,
            final(self).has_mmco_5 == pic.has_mmco_5,
    {
        self.frame_num = pic.frame_num;
        self.has_mmco_5 = pic.has_mmco_5;
        self.frame_num_offset = pic.frame_num_offset;
    }
}

impl Default for PrevPicInfo {
    fn default() -> (info: Self)
        ensures
            info == PrevPicInfo::initial(),
    {
        PrevPicInfo { frame_num: 0, frame_num_offset: 0, has_mmco_5: false }
    }
}

/// The order counts of a picture, before they are made to fit.
pub struct Order {
    pub msb: int,
    pub frame_num_offset: int,
    pub top: int,
    pub bottom: int,
}

impl Order {
    /// Whether every count fits where the picture keeps it.
    pub open spec fn fits(self) -> bool {
        &&& i32::MIN <= self.msb <= i32::MAX
        &&& 0 <= self.frame_num_offset <= u32::MAX
        &&& i32::MIN <= self.top <= i32::MAX
        &&& i32::MIN <= self.bottom <= i32::MAX
    }
}

/// `pic` with the order counts `o`; the count of a frame is the lower of its fields'.
pub open spec fn with_order(pic: PictureData, o: Order) -> PictureData {
    PictureData {
        pic_order_cnt_msb: o.msb as i32,
        frame_num_offset: o.frame_num_offset as u32,
        top_field_order_cnt: o.top as i32,
        bottom_field_order_cnt: o.bottom as i32,
        pic_order_cnt: match pic.field {
            Field::Frame => if o.top <= o.bottom {
                o.top as i32
            } else {
                o.bottom as i32
            },
            Field::Top => o.top as i32,
            Field::Bottom => o.bottom as i32,
        },
        ..pic
    }
}

/// `prevPicOrderCntMsb` and `prevPicOrderCntLsb` (8.2.1.1).
pub open spec fn previous_order(prev: PrevReferencePicInfo, pic: PictureData) -> (int, int) {
    if pic.spec_idr() {
        (0, 0)
    } else if prev.has_mmco_5 {
        if prev.field == Field::Bottom {
            (0, 0)
        } else {
            (0, prev.top_field_order_cnt as int)
        }
    } else {
        (prev.pic_order_cnt_msb as int, prev.pic_order_cnt_lsb as int)
    }
}

/// `PicOrderCntMsb` (8.2.1.1): the previous one, or the next or last period where
/// the low bits jumped by half a period or more.
pub open spec fn order_msb(prev: PrevReferencePicInfo, pic: PictureData, period: int) -> int {
    let (msb, lsb) = previous_order(prev, pic);
    if pic.pic_order_cnt_lsb < lsb && lsb - pic.pic_order_cnt_lsb >= period / 2 {
        msb + period
    } else if pic.pic_order_cnt_lsb > lsb && pic.pic_order_cnt_lsb - lsb > period / 2 {
        msb - period
    } else {
        msb
    }
}

/// The order counts of type 0 (8.2.1.1): coded low bits under a tracked period.
pub open spec fn order_type_0(prev: PrevReferencePicInfo, pic: PictureData, sps: Sps) -> Order {
    let msb = order_msb(prev, pic, sps.spec_max_pic_order_cnt_lsb() as int);
    let top = if pic.field == Field::Bottom {
        pic.top_field_order_cnt as int
    } else {
        msb + pic.pic_order_cnt_lsb
    };
    let bottom = match pic.field {
        Field::Frame => top + pic.delta_pic_order_cnt_bottom,
        Field::Top => pic.bottom_field_order_cnt as int,
        Field::Bottom => msb + pic.pic_order_cnt_lsb,
    };
    Order { msb, frame_num_offset: pic.frame_num_offset as int, top, bottom }
}

/// `FrameNumOffset` (8.2.1.2): it grows by a period each time the frame numbers wrap.
pub open spec fn frame_num_offset(prev: PrevPicInfo, pic: PictureData, sps: Sps) -> int {
    if pic.spec_idr() {
        0
    } else if prev.frame_num > pic.frame_num {
        prev.restarted().frame_num_offset + sps.spec_max_frame_num()
    } else {
        prev.restarted().frame_num_offset as int
    }
}

/// The sum of `s`.
pub open spec fn total(s: Seq<i32>) -> int
    decreases s.len(),
{
    if s.len() == 0 {
        0
    } else {
        total(s.drop_last()) + s.last()
    }
}

/// `absFrameNum` (8-6): frames counted from the last restart, where the sequence
/// has a cycle to place them in.
pub open spec fn abs_frame_num(offset: int, pic: PictureData, sps: Sps) -> int {
    let n = if sps.num_ref_frames_in_pic_order_cnt_cycle != 0 {
        offset + pic.frame_num
    } else {
        0
    };
    if pic.nal_ref_idc == 0 && n > 0 {
        n - 1
    } else {
        n
    }
}

/// `expectedPicOrderCnt` (8.2.1.2): what the sequence's cycle predicts, so much for
/// each whole cycle and the offsets up to the frame's place in its own.
pub open spec fn expected_order(offset: int, pic: PictureData, sps: Sps) -> int {
    let n = abs_frame_num(offset, pic, sps);
    let cycle = sps.num_ref_frames_in_pic_order_cnt_cycle as int;
    let in_cycle = if n > 0 {
        ((n - 1) / cycle) as i32 * sps.expected_delta_per_pic_order_cnt_cycle + total(
            sps.offset_for_ref_frame@.take((n - 1) % cycle + 1),
        )
    } else {
        0
    };
    in_cycle + if pic.nal_ref_idc == 0 {
        sps.offset_for_non_ref_pic as int
    } else {
        0
    }
}

/// The order counts of type 1 (8.2.1.2): a prediction plus coded corrections.
pub open spec fn order_type_1(prev: PrevPicInfo, pic: PictureData, sps: Sps) -> Order {
    let offset = frame_num_offset(prev, pic, sps);
    let expected = expected_order(offset, pic, sps);
    let top = if pic.field == Field::Bottom {
        pic.top_field_order_cnt as int
    } else {
        expected + pic.delta_pic_order_cnt0
    };
    let bottom = match pic.field {
        Field::Frame => top + sps.offset_for_top_to_bottom_field + pic.delta_pic_order_cnt1,
        Field::Top => pic.bottom_field_order_cnt as int,
        Field::Bottom => expected + sps.offset_for_top_to_bottom_field + pic.delta_pic_order_cnt0,
    };
    Order { msb: pic.pic_order_cnt_msb as int, frame_num_offset: offset, top, bottom }
}

/// The order counts of type 2 (8.2.1.3): decoding order itself.
pub open spec fn order_type_2(prev: PrevPicInfo, pic: PictureData, sps: Sps) -> Order {
    let offset = frame_num_offset(prev, pic, sps);
    let count = if pic.spec_idr() {
        0
    } else if pic.nal_ref_idc == 0 {
        2 * ((offset + pic.frame_num) as i32) - 1
    } else {
        2 * ((offset + pic.frame_num) as i32)
    };
    Order {
        msb: pic.pic_order_cnt_msb as int,
        frame_num_offset: offset,
        top: if pic.field == Field::Bottom {
            pic.top_field_order_cnt as int
        } else {
            count
        },
        bottom: if pic.field == Field::Top {
            pic.bottom_field_order_cnt as int
        } else {
            count
        },
    }
}

/// Whether the count of frames since the last restart fits in its 32 bits, where
/// it is used at all.
pub open spec fn frames_fit(prev: PrevPicInfo, pic: PictureData, sps: Sps) -> bool {
    let used = if pic.pic_order_cnt_type == 1 {
        sps.num_ref_frames_in_pic_order_cnt_cycle != 0
    } else {
        !pic.spec_idr()
    };
    used ==> frame_num_offset(prev, pic, sps) + pic.frame_num <= u32::MAX
}

/// `pic` with its order counts derived (8.2.1), or why they cannot be.
pub open spec fn ordered(
    prev_ref: PrevReferencePicInfo,
    prev: PrevPicInfo,
    pic: PictureData,
    sps: Sps,
) -> Result<PictureData, DecodeError> {
    if pic.pic_order_cnt_type > 2 {
        Err(DecodeError::PicOrderCntType(pic.pic_order_cnt_type))
    } else {
        let o = if pic.pic_order_cnt_type == 0 {
            order_type_0(prev_ref, pic, sps)
        } else if pic.pic_order_cnt_type == 1 {
            order_type_1(prev, pic, sps)
        } else {
            order_type_2(prev, pic, sps)
        };
        if o.fits() && (pic.pic_order_cnt_type != 0 ==> frames_fit(prev, pic, sps)) {
            Ok(with_order(pic, o))
        } else {
            Err(DecodeError::Overflow)
        }
    }
}

/// The cached variables once `pic` has been ordered.
pub open spec fn prev_after(prev: PrevPicInfo, pic: PictureData) -> PrevPicInfo {
    if pic.pic_order_cnt_type == 1 || pic.pic_order_cnt_type == 2 {
        prev.restarted()
    } else {
        prev
    }
}

/// Adds up the first `n` offsets.
fn sum_offsets(offsets: &[i32; 255], n: u8) -> (sum: i64)
    ensures
        sum == total(offsets@.take(n as int)),
        -0x8000_0000 * 255 <= sum <= 0x7fff_ffff * 255,
{
    let mut sum: i64 = 0;
    let mut i: u8 = 0;
    while i < n
        invariant
            i <= n,
            sum == total(offsets@.take(i as int)),
            -0x8000_0000 * i <= sum <= 0x7fff_ffff * i,
        decreases n - i,
    {
        let ghost t = offsets@.take(i as int + 1);
        assert(t.drop_last() =~= offsets@.take(i as int));
        assert(t.last() == offsets@[i as int]);
        sum = sum + offsets[i as usize] as i64;
        i = i + 1;
    }
    sum
}

/// Derives `FrameNumOffset`.
fn derive_frame_num_offset(prev: &PrevPicInfo, pic: &PictureData, sps: &Sps) -> (offset: u64)
    requires
        sps.valid(),
    ensures
        offset == frame_num_offset(*prev, *pic, *sps),
        offset <= u32::MAX + 65536,
{
    let base: u64 = if prev.has_mmco_5 {
        0
    } else {
        prev.frame_num_offset as u64
    };
    if pic.idr() {
        0
    } else if prev.frame_num > pic.frame_num {
        base + sps.max_frame_num() as u64
    } else {
        base
    }
}

/// Derives `expectedPicOrderCnt`.
fn derive_expected_order(offset: u64, pic: &PictureData, sps: &Sps) -> (expected: i64)
    requires
        offset <= u32::MAX + 65536,
        sps.num_ref_frames_in_pic_order_cnt_cycle != 0 ==> offset + pic.frame_num <= u32::MAX,
    ensures
        expected == expected_order(offset as int, *pic, *sps),
        -0x5000_0000_0000_0000 <= expected <= 0x5000_0000_0000_0000,
{
    let mut n: u64 = if sps.num_ref_frames_in_pic_order_cnt_cycle != 0 {
        offset + pic.frame_num as u64
    } else {
        0
    };
    if pic.nal_ref_idc == 0 && n > 0 {
        n = n - 1;
    }
    let mut expected: i64 = 0;
    if n > 0 {
        let cycle: u32 = sps.num_ref_frames_in_pic_order_cnt_cycle as u32;
        let cycles: i32 = #[verifier::truncate]
        ((((n - 1) as u32) / cycle) as i32);
        let place: u32 = ((n - 1) as u32) % cycle;
        let per_cycle: i32 = sps.expected_delta_per_pic_order_cnt_cycle;
        assert(-0x4000_0000_0000_0000 <= cycles * per_cycle <= 0x4000_0000_0000_0000)
            by (nonlinear_arith)
            requires
                -0x8000_0000 <= cycles <= 0x7fff_ffff,
                -0x8000_0000 <= per_cycle <= 0x7fff_ffff,
        ;
        expected = cycles as i64 * per_cycle as i64 + sum_offsets(
            &sps.offset_for_ref_frame,
            (place + 1) as u8,
        );
    }
    if pic.nal_ref_idc == 0 {
        expected = expected + sps.offset_for_non_ref_pic as i64;
    }
    expected
}

fn fits_i32(n: i64) -> (b: bool)
    ensures
        b == (i32::MIN <= n <= i32::MAX),
{
    -0x8000_0000 <= n && n <= 0x7fff_ffff
}

/// Writes the order counts into `pic` where they fit.
fn set_order(pic: &mut PictureData, msb: i64, offset: u64, top: i64, bottom: i64) -> (r: Result<
    (),
    DecodeError,
>)
    ensures
        ({
            let o = Order {
                msb: msb as int,
                frame_num_offset: offset as int,
                top: top as int,
                bottom: bottom as int,
            };
            if o.fits() {
                r == Ok::<(), DecodeError>(()) && *final(pic) == with_order(*old(pic), o)
            } else {
                r == Err::<(), DecodeError>(DecodeError::Overflow) && *final(pic) == *old(pic)
            }
        }),
        r is Ok <==> i32::MIN <= msb <= i32::MAX && offset <= u32::MAX && i32::MIN <= top
            <= i32::MAX && i32::MIN <= bottom <= i32::MAX,
        r is Ok ==> {
            &&& final(pic).pic_order_cnt_msb == msb
            &&& final(pic).frame_num_offset == offset
            &&& final(pic).top_field_order_cnt == top
            &&& final(pic).bottom_field_order_cnt == bottom
        },
{
    if !fits_i32(msb) || !fits_i32(top) || !fits_i32(bottom) || offset > 0xffff_ffff {
        return Err(DecodeError::Overflow);
    }
    pic.pic_order_cnt_msb = msb as i32;
    pic.frame_num_offset = offset as u32;
    pic.top_field_order_cnt = top as i32;
    pic.bottom_field_order_cnt = bottom as i32;
    pic.pic_order_cnt = match pic.field {
        Field::Frame => if top <= bottom {
            top as i32
        } else {
            bottom as i32
        },
        Field::Top => top as i32,
        Field::Bottom => bottom as i32,
    };
    Ok(())
}

/// 8.2.1.1.
fn order_from_lsb(prev: &PrevReferencePicInfo, pic: &mut PictureData, sps: &Sps) -> (r: Result<
    (),
    DecodeError,
>)
    requires
        sps.valid(),
    ensures
        ({
            let o = order_type_0(*prev, *old(pic), *sps);
            if o.fits() {
                r == Ok::<(), DecodeError>(()) && *final(pic) == with_order(*old(pic), o)
            } else {
                r == Err::<(), DecodeError>(DecodeError::Overflow) && *final(pic) == *old(pic)
            }
        }),
{
    let (prev_msb, prev_lsb): (i64, i64) = if pic.idr() {
        (0, 0)
    } else if prev.has_mmco_5 {
        if prev.field == Field::Bottom {
            (0, 0)
        } else {
            (0, prev.top_field_order_cnt as i64)
        }
    } else {
        (prev.pic_order_cnt_msb as i64, prev.pic_order_cnt_lsb as i64)
    };
    let period: i64 = sps.max_pic_order_cnt_lsb() as i64;
    let lsb: i64 = pic.pic_order_cnt_lsb as i64;
    let msb: i64 = if lsb < prev_lsb && prev_lsb - lsb >= period / 2 {
        prev_msb + period
    } else if lsb > prev_lsb && lsb - prev_lsb > period / 2 {
        prev_msb - period
    } else {
        prev_msb
    };
    let top: i64 = if pic.field == Field::Bottom {
        pic.top_field_order_cnt as i64
    } else {
        msb + lsb
    };
    let bottom: i64 = match pic.field {
        Field::Frame => top + pic.delta_pic_order_cnt_bottom as i64,
        Field::Top => pic.bottom_field_order_cnt as i64,
        Field::Bottom => msb + lsb,
    };
    set_order(pic, msb, pic.frame_num_offset as u64, top, bottom)
}

/// 8.2.1.2.
fn order_from_cycle(prev: &PrevPicInfo, pic: &mut PictureData, sps: &Sps) -> (r: Result<
    (),
    DecodeError,
>)
    requires
        sps.valid(),
        old(pic).pic_order_cnt_type == 1,
    ensures
        ({
            let o = order_type_1(*prev, *old(pic), *sps);
            if o.fits() && frames_fit(*prev, *old(pic), *sps) {
                r == Ok::<(), DecodeError>(()) && *final(pic) == with_order(*old(pic), o)
            } else {
                r == Err::<(), DecodeError>(DecodeError::Overflow) && *final(pic) == *old(pic)
            }
        }),
{
    let offset: u64 = derive_frame_num_offset(prev, pic, sps);
    if sps.num_ref_frames_in_pic_order_cnt_cycle != 0 && offset + pic.frame_num as u64
        > 0xffff_ffff {
        return Err(DecodeError::Overflow);
    }
    let expected: i64 = derive_expected_order(offset, pic, sps);
    let top: i64 = if pic.field == Field::Bottom {
        pic.top_field_order_cnt as i64
    } else {
        expected + pic.delta_pic_order_cnt0 as i64
    };
    let bottom: i64 = match pic.field {
        Field::Frame => top + sps.offset_for_top_to_bottom_field as i64
            + pic.delta_pic_order_cnt1 as i64,
        Field::Top => pic.bottom_field_order_cnt as i64,
        Field::Bottom => expected + sps.offset_for_top_to_bottom_field as i64
            + pic.delta_pic_order_cnt0 as i64,
    };
    set_order(pic, pic.pic_order_cnt_msb as i64, offset, top, bottom)
}

/// 8.2.1.3.
fn order_from_decoding(prev: &PrevPicInfo, pic: &mut PictureData, sps: &Sps) -> (r: Result<
    (),
    DecodeError,
>)
    requires
        sps.valid(),
        old(pic).pic_order_cnt_type == 2,
    ensures
        ({
            let o = order_type_2(*prev, *old(pic), *sps);
            if o.fits() && frames_fit(*prev, *old(pic), *sps) {
                r == Ok::<(), DecodeError>(()) && *final(pic) == with_order(*old(pic), o)
            } else {
                r == Err::<(), DecodeError>(DecodeError::Overflow) && *final(pic) == *old(pic)
            }
        }),
{
    let offset: u64 = derive_frame_num_offset(prev, pic, sps);
    let frames: u64 = offset + pic.frame_num as u64;
    if !pic.idr() && frames > 0xffff_ffff {
        return Err(DecodeError::Overflow);
    }
    let signed: i32 = #[verifier::truncate]
    (frames as i32);
    let count: i64 = if pic.idr() {
        0
    } else if pic.nal_ref_idc == 0 {
        2 * (signed as i64) - 1
    } else {
        2 * (signed as i64)
    };
    let top: i64 = if pic.field == Field::Bottom {
        pic.top_field_order_cnt as i64
    } else {
        count
    };
    let bottom: i64 = if pic.field == Field::Top {
        pic.bottom_field_order_cnt as i64
    } else {
        count
    };
    set_order(pic, pic.pic_order_cnt_msb as i64, offset, top, bottom)
}

/// 8.2.1: derives the order counts of `pic`.
///
/// A count that does not fit in its range is refused, and
/// leaves `pic` as it was.
pub fn compute_pic_order_count(
    prev_ref: &PrevReferencePicInfo,
    prev: &mut PrevPicInfo,
    pic: &mut PictureData,
    sps: &Sps,
) -> (r: Result<(), DecodeError>)
    requires
        sps.valid(),
    ensures
        *final(prev) == prev_after(*old(prev), *old(pic)),
        final(prev).frame_num == old(prev).frame_num,
        final(prev).has_mmco_5 == old(prev).has_mmco_5,
        final(prev).frame_num_offset == if old(prev).has_mmco_5 && (old(pic).pic_order_cnt_type
            == 1 || old(pic).pic_order_cnt_type == 2) {
            0
        } else {
            old(prev).frame_num_offset
        },
        match ordered(*prev_ref, *old(prev), *old(pic), *sps) {
            Ok(p) => r == Ok::<(), DecodeError>(()) && *final(pic) == p,
            Err(e) => r == Err::<(), DecodeError>(e) && *final(pic) == *old(pic),
        },
{
    if pic.pic_order_cnt_type == 0 {
        order_from_lsb(prev_ref, pic, sps)
    } else if pic.pic_order_cnt_type == 1 {
        let r = order_from_cycle(prev, pic, sps);
        if prev.has_mmco_5 {
            prev.frame_num_offset = 0;
        }
        r
    } else if pic.pic_order_cnt_type == 2 {
        let r = order_from_decoding(prev, pic, sps);
        if prev.has_mmco_5 {
            prev.frame_num_offset = 0;
        }
        r
    } else {
        Err(DecodeError::PicOrderCntType(pic.pic_order_cnt_type))
    }
}

} // verus!
