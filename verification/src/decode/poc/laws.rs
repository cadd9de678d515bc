//! What order counts promise: where a picture stands among those before it.

use vstd::arithmetic::div_mod::{
    lemma_fundamental_div_mod, lemma_fundamental_div_mod_converse, lemma_small_mod,
};
use vstd::arithmetic::power2::{lemma_pow2_strictly_increases, lemma_pow2_unfold, pow2};
use vstd::prelude::*;

use crate::decode::error::DecodeError;
use crate::decode::poc;
use crate::decode::poc::{PrevPicInfo, PrevReferencePicInfo};
use crate::h264::picture::{Field, PictureData};
use crate::h264::syntax::Sps;

verus! {

////// Type 0: coded low bits

/// The number of values the low bits of an order count have under `sps`.
pub open spec fn low_bits(sps: Sps) -> int {
    pow2((sps.log2_max_pic_order_cnt_lsb_minus4 + 4) as nat) as int
}

proof fn lemma_low_bits(sps: Sps)
    requires
        sps.valid(),
    ensures
        16 <= low_bits(sps) <= 65536,
        low_bits(sps) % 2 == 0,
{
    let n = (sps.log2_max_pic_order_cnt_lsb_minus4 + 4) as nat;
    vstd::arithmetic::power2::lemma2_to64();
    lemma_pow2_unfold(n);
    if n > 4 {
        lemma_pow2_strictly_increases(4, n);
    }
    if n < 16 {
        lemma_pow2_strictly_increases(n, 16);
    }
}

/// The order count a picture is placed from: that of the reference before it, which an
/// IDR picture has none of and an operation 5 has moved to its own top field.
pub open spec fn placed_from(prev: PrevReferencePicInfo, pic: PictureData) -> int {
    if pic.is_idr is Yes || (prev.has_mmco_5 && prev.field == Field::Bottom) {
        0
    } else if prev.has_mmco_5 {
        prev.top_field_order_cnt as int
    } else {
        prev.pic_order_cnt_msb + prev.pic_order_cnt_lsb
    }
}

/// Whether the high part of what is remembered of the reference before is a whole number
/// of periods of `period`, and the low part less than one.
pub open spec fn is_split(prev: PrevReferencePicInfo, period: int) -> bool {
    &&& (prev.pic_order_cnt_msb as int) % period == 0
    &&& 0 <= prev.pic_order_cnt_lsb < period
    &&& prev.has_mmco_5 ==> 0 <= prev.top_field_order_cnt < period
}

/// Of all order counts with the coded low bits, a picture has the one nearest to the
/// reference before it, and the later one of two as near. Its high part is a whole number
/// of periods, and the low part what was coded.
pub proof fn low_bits_name_the_nearest_count(
    prev_ref: PrevReferencePicInfo,
    prev: PrevPicInfo,
    coded: PictureData,
    sps: Sps,
    pic: PictureData,
)
    requires
        sps.valid(),
        coded.pic_order_cnt_type == 0,
        coded.field != Field::Bottom,
        0 <= coded.pic_order_cnt_lsb < low_bits(sps),
        is_split(prev_ref, low_bits(sps)),
        poc::ordered(prev_ref, prev, coded, sps) matches Ok(p) && p == pic,
    ensures
        (pic.top_field_order_cnt as int) % low_bits(sps) == coded.pic_order_cnt_lsb,
        -low_bits(sps) < 2 * (pic.top_field_order_cnt - placed_from(prev_ref, coded))
            <= low_bits(sps),
        (pic.pic_order_cnt_msb as int) % low_bits(sps) == 0,
        pic.pic_order_cnt_msb + coded.pic_order_cnt_lsb == pic.top_field_order_cnt,
        is_split(PrevReferencePicInfo::of(pic), low_bits(sps)) || coded.has_mmco_5,
{
    let m = low_bits(sps);
    lemma_low_bits(sps);
    let msb = if coded.is_idr is Yes || prev_ref.has_mmco_5 {
        0
    } else {
        prev_ref.pic_order_cnt_msb as int
    };
    let lsb = coded.pic_order_cnt_lsb as int;
    lemma_small_mod(lsb as nat, m as nat);
    lemma_small_mod(0, m as nat);
    assert forall|k: int| -1 <= k <= 1 implies #[trigger] ((msb + k * m) % m) == 0 && (msb + k * m
        + lsb) % m == lsb by {
        lemma_fundamental_div_mod(msb, m);
        let q = msb / m + k;
        assert(m * (msb / m) + k * m == q * m) by (nonlinear_arith)
            requires
                q == msb / m + k,
        ;
        lemma_fundamental_div_mod_converse(msb + k * m, m, q, 0);
        lemma_fundamental_div_mod_converse(msb + k * m + lsb, m, q, lsb);
    }
    assert((msb + 0 * m) % m == 0);
    assert((msb + 1 * m) % m == 0);
    assert((msb + (-1) * m) % m == 0);
}

/// Two order counts with the same low bits, as near to the reference before, are the same:
/// nothing else meets [`low_bits_name_the_nearest_count`].
pub proof fn the_nearest_count_is_unique(a: int, b: int, base: int, period: int)
    requires
        period > 0,
        a % period == b % period,
        -period < 2 * (a - base) <= period,
        -period < 2 * (b - base) <= period,
    ensures
        a == b,
{
    lemma_fundamental_div_mod(a, period);
    lemma_fundamental_div_mod(b, period);
    let d = a / period - b / period;
    assert(a - b == period * d) by (nonlinear_arith)
        requires
            a == period * (a / period) + a % period,
            b == period * (b / period) + b % period,
            a % period == b % period,
            d == a / period - b / period,
    ;
    assert(d == 0) by (nonlinear_arith)
        requires
            a - b == period * d,
            -period < a - b < period,
            period > 0,
    ;
}

/// The bottom field of a frame stands as far from its top field as was coded, a frame
/// where its earlier field does, and a field alone where it was placed.
pub proof fn frames_stand_where_their_first_field_does(
    prev_ref: PrevReferencePicInfo,
    prev: PrevPicInfo,
    coded: PictureData,
    sps: Sps,
    pic: PictureData,
)
    requires
        poc::ordered(prev_ref, prev, coded, sps) matches Ok(p) && p == pic,
    ensures
        coded.field == Field::Frame ==> {
            &&& pic.pic_order_cnt <= pic.top_field_order_cnt
            &&& pic.pic_order_cnt <= pic.bottom_field_order_cnt
            &&& pic.pic_order_cnt == pic.top_field_order_cnt || pic.pic_order_cnt
                == pic.bottom_field_order_cnt
        },
        coded.field == Field::Top ==> pic.pic_order_cnt == pic.top_field_order_cnt
            && pic.bottom_field_order_cnt == coded.bottom_field_order_cnt,
        coded.field == Field::Bottom ==> pic.pic_order_cnt == pic.bottom_field_order_cnt
            && pic.top_field_order_cnt == coded.top_field_order_cnt,
        coded.field == Field::Frame && coded.pic_order_cnt_type == 0
            ==> pic.bottom_field_order_cnt - pic.top_field_order_cnt
            == coded.delta_pic_order_cnt_bottom,
        coded.field == Field::Frame && coded.pic_order_cnt_type == 1
            ==> pic.bottom_field_order_cnt - pic.top_field_order_cnt
            == sps.offset_for_top_to_bottom_field + coded.delta_pic_order_cnt1,
        coded.field == Field::Frame && coded.pic_order_cnt_type == 2 ==> pic.bottom_field_order_cnt
            == pic.top_field_order_cnt,
        coded.pic_order_cnt_type <= 2,
{
}

/// A bottom field coded like a top field stands where that would, but for the offset that
/// the sequence puts between the two where it predicts them.
pub proof fn bottom_fields_are_placed_like_top_fields(
    prev_ref: PrevReferencePicInfo,
    prev: PrevPicInfo,
    coded: PictureData,
    sps: Sps,
    top: PictureData,
    bottom: PictureData,
)
    requires
        coded.field == Field::Top,
        poc::ordered(prev_ref, prev, coded, sps) matches Ok(p) && p == top,
        poc::ordered(
            prev_ref,
            prev,
            PictureData { field: Field::Bottom, ..coded },
            sps,
        ) matches Ok(p) && p == bottom,
    ensures
        bottom.bottom_field_order_cnt == top.top_field_order_cnt + if coded.pic_order_cnt_type
            == 1 {
            sps.offset_for_top_to_bottom_field as int
        } else {
            0
        },
        bottom.pic_order_cnt == bottom.bottom_field_order_cnt,
        bottom.pic_order_cnt_msb == top.pic_order_cnt_msb,
{
}

/// Counts are derived wherever they stay well within 32 bits: the low bits never are what
/// a picture is refused for.
pub proof fn counts_in_range_are_derived(
    prev_ref: PrevReferencePicInfo,
    prev: PrevPicInfo,
    coded: PictureData,
    sps: Sps,
)
    requires
        sps.valid(),
        coded.pic_order_cnt_type == 0,
        coded.field == Field::Frame,
        0 <= coded.pic_order_cnt_lsb < low_bits(sps),
        -0x4000_0000 <= prev_ref.pic_order_cnt_msb <= 0x4000_0000,
        -0x2000_0000 <= coded.delta_pic_order_cnt_bottom <= 0x2000_0000,
    ensures
        poc::ordered(prev_ref, prev, coded, sps) is Ok,
{
    lemma_low_bits(sps);
}

/// There are three types of order count, and a picture of any other is refused for its
/// type.
pub proof fn other_types_are_refused(
    prev_ref: PrevReferencePicInfo,
    prev: PrevPicInfo,
    coded: PictureData,
    sps: Sps,
)
    ensures
        coded.pic_order_cnt_type > 2 ==> poc::ordered(prev_ref, prev, coded, sps) == Err::<
            PictureData,
            DecodeError,
        >(DecodeError::PicOrderCntType(coded.pic_order_cnt_type)),
        coded.pic_order_cnt_type <= 2 ==> (poc::ordered(prev_ref, prev, coded, sps) matches Err(e)
            ==> e == DecodeError::Overflow),
{
}

/// Frames counted in decoding order are counted for a long time: the first two to the
/// power of thirty since the last restart are never refused.
pub proof fn frames_in_decoding_order_are_counted(
    prev_ref: PrevReferencePicInfo,
    prev: PrevPicInfo,
    coded: PictureData,
    sps: Sps,
)
    requires
        sps.valid(),
        coded.pic_order_cnt_type == 2,
        coded.frame_num < frame_numbers(sps),
        coded.is_idr is Yes || (if prev.has_mmco_5 {
            0
        } else {
            prev.frame_num_offset as int
        }) + 2 * frame_numbers(sps) <= 0x4000_0000,
    ensures
        poc::ordered(prev_ref, prev, coded, sps) is Ok,
{
    lemma_frame_numbers(sps);
}

/// Where the low bits go on by `step`, up to half of their period and around it, so does
/// the order count, whether they wrap or not.
pub proof fn counts_go_on_with_their_low_bits(
    prev_ref: PrevReferencePicInfo,
    prev: PrevPicInfo,
    coded: PictureData,
    sps: Sps,
    pic: PictureData,
    step: int,
)
    requires
        sps.valid(),
        coded.pic_order_cnt_type == 0,
        coded.field != Field::Bottom,
        is_split(prev_ref, low_bits(sps)),
        -low_bits(sps) < 2 * step <= low_bits(sps),
        coded.pic_order_cnt_lsb == (placed_from(prev_ref, coded) + step) % low_bits(sps),
        poc::ordered(prev_ref, prev, coded, sps) matches Ok(p) && p == pic,
    ensures
        pic.top_field_order_cnt == placed_from(prev_ref, coded) + step,
{
    let m = low_bits(sps);
    lemma_low_bits(sps);
    let goal = placed_from(prev_ref, coded) + step;
    lemma_fundamental_div_mod(goal, m);
    low_bits_name_the_nearest_count(prev_ref, prev, coded, sps, pic);
    lemma_small_mod(coded.pic_order_cnt_lsb as nat, m as nat);
    the_nearest_count_is_unique(
        pic.top_field_order_cnt as int,
        goal,
        placed_from(prev_ref, coded),
        m,
    );
}

/// A stream whose low bits go up by `step` from one reference to the next, around their
/// period, has order counts that go up by `step` for ever.
pub proof fn steady_streams_count_on(
    coded: Seq<PictureData>,
    pics: Seq<PictureData>,
    prevs: Seq<PrevPicInfo>,
    sps: Sps,
    step: int,
    n: int,
)
    requires
        sps.valid(),
        0 < 2 * step <= low_bits(sps),
        coded.len() == pics.len() == prevs.len(),
        forall|i: int|
            0 <= i < coded.len() ==> {
                &&& (#[trigger] coded[i]).pic_order_cnt_type == 0
                &&& coded[i].field == Field::Frame
                &&& !coded[i].has_mmco_5
                &&& coded[i].is_idr is Yes <==> i == 0
                &&& coded[i].pic_order_cnt_lsb == (i * step) % low_bits(sps)
            },
        forall|i: int|
            0 <= i < coded.len() ==> (poc::ordered(
                if i == 0 {
                    PrevReferencePicInfo::initial()
                } else {
                    PrevReferencePicInfo::of(pics[i - 1])
                },
                prevs[i],
                #[trigger] coded[i],
                sps,
            ) matches Ok(p) && p == pics[i]),
        0 <= n < coded.len(),
    ensures
        pics[n].top_field_order_cnt == n * step,
        is_split(PrevReferencePicInfo::of(pics[n]), low_bits(sps)),
        pics[n].pic_order_cnt_msb + pics[n].pic_order_cnt_lsb == n * step,
    decreases n,
{
    let m = low_bits(sps);
    lemma_low_bits(sps);
    let c = coded[n];
    lemma_fundamental_div_mod(n * step, m);
    lemma_small_mod(0, m as nat);
    let before = if n == 0 {
        PrevReferencePicInfo::initial()
    } else {
        PrevReferencePicInfo::of(pics[n - 1])
    };
    if n == 0 {
        assert(n * step == 0) by (nonlinear_arith)
            requires
                n == 0,
        ;
        low_bits_name_the_nearest_count(before, prevs[n], c, sps, pics[n]);
        counts_go_on_with_their_low_bits(before, prevs[n], c, sps, pics[n], 0);
    } else {
        steady_streams_count_on(coded, pics, prevs, sps, step, n - 1);
        assert(!coded[n - 1].has_mmco_5);
        assert(pics[n - 1].has_mmco_5 == coded[n - 1].has_mmco_5);
        assert(placed_from(before, c) == (n - 1) * step);
        assert((n - 1) * step + step == n * step) by (nonlinear_arith);
        low_bits_name_the_nearest_count(before, prevs[n], c, sps, pics[n]);
        counts_go_on_with_their_low_bits(before, prevs[n], c, sps, pics[n], step);
    }
}

////// Frame numbers, counted on

/// The number of frame numbers under `sps`.
pub open spec fn frame_numbers(sps: Sps) -> int {
    pow2((sps.log2_max_frame_num_minus4 + 4) as nat) as int
}

pub proof fn lemma_frame_numbers(sps: Sps)
    requires
        sps.valid(),
    ensures
        16 <= frame_numbers(sps) <= 65536,
{
    let n = (sps.log2_max_frame_num_minus4 + 4) as nat;
    vstd::arithmetic::power2::lemma2_to64();
    if n > 4 {
        lemma_pow2_strictly_increases(4, n);
    }
    if n < 16 {
        lemma_pow2_strictly_increases(n, 16);
    }
}

/// Frames are counted on across a wrap of their numbers: the count of a frame has its
/// number as remainder, and is the first such that is not below the count before. An IDR
/// frame restarts it, and so does an operation 5.
pub proof fn frames_are_counted_on(
    prev_ref: PrevReferencePicInfo,
    prev: PrevPicInfo,
    coded: PictureData,
    sps: Sps,
    pic: PictureData,
)
    requires
        sps.valid(),
        coded.pic_order_cnt_type == 1 || coded.pic_order_cnt_type == 2,
        coded.frame_num < frame_numbers(sps),
        prev.frame_num < frame_numbers(sps),
        (prev.frame_num_offset as int) % frame_numbers(sps) == 0,
        poc::ordered(prev_ref, prev, coded, sps) matches Ok(p) && p == pic,
    ensures
        (pic.frame_num_offset as int) % frame_numbers(sps) == 0,
        coded.is_idr is Yes ==> pic.frame_num_offset == 0,
        !(coded.is_idr is Yes) ==> {
            let before = prev.frame_num + if prev.has_mmco_5 {
                0
            } else {
                prev.frame_num_offset as int
            };
            0 <= pic.frame_num_offset + coded.frame_num - before < frame_numbers(sps)
        },
{
    let m = frame_numbers(sps);
    lemma_frame_numbers(sps);
    let base = if prev.has_mmco_5 {
        0
    } else {
        prev.frame_num_offset as int
    };
    lemma_small_mod(0, m as nat);
    lemma_fundamental_div_mod(base, m);
    let q = base / m;
    assert(m * q + m == (q + 1) * m) by (nonlinear_arith);
    lemma_fundamental_div_mod_converse(base + m, m, q + 1, 0);
}

////// Type 1: a cycle of expected differences

/// The order count `n` frames into a stream of references where nothing is corrected, as
/// the differences from one to the next add up: the offsets of the cycle, over and over.
pub open spec fn added_up(sps: Sps, n: int) -> int
    decreases n,
{
    if n <= 0 {
        0
    } else {
        added_up(sps, n - 1) + sps.offset_for_ref_frame@[(n - 1) % (
        sps.num_ref_frames_in_pic_order_cnt_cycle as int)]
    }
}

proof fn lemma_total_of_cycles(sps: Sps, n: int)
    requires
        n >= 1,
        sps.num_ref_frames_in_pic_order_cnt_cycle > 0,
        sps.expected_delta_per_pic_order_cnt_cycle == added_up(
            sps,
            sps.num_ref_frames_in_pic_order_cnt_cycle as int,
        ),
    ensures
        ({
            let cycle = sps.num_ref_frames_in_pic_order_cnt_cycle as int;
            added_up(sps, n) == ((n - 1) / cycle) * sps.expected_delta_per_pic_order_cnt_cycle
                + poc::total(sps.offset_for_ref_frame@.take((n - 1) % cycle + 1))
        }),
    decreases n,
{
    let cycle = sps.num_ref_frames_in_pic_order_cnt_cycle as int;
    let delta = sps.expected_delta_per_pic_order_cnt_cycle as int;
    let offsets = sps.offset_for_ref_frame@;
    let (q, r) = ((n - 1) / cycle, (n - 1) % cycle);
    lemma_fundamental_div_mod(n - 1, cycle);
    let t = offsets.take(r + 1);
    assert(t.drop_last() =~= offsets.take(r));
    assert(poc::total(t) == poc::total(offsets.take(r)) + offsets[r]);
    if r == 0 {
        assert(poc::total(offsets.take(0)) == 0);
        if n > 1 {
            lemma_total_of_cycles(sps, n - 1);
            assert(cycle * q == q * cycle && (q - 1) * cycle == q * cycle - cycle)
                by (nonlinear_arith);
            lemma_fundamental_div_mod_converse(n - 2, cycle, q - 1, cycle - 1);
            lemma_one_cycle(sps, cycle);
            assert((q - 1) * delta + delta == q * delta) by (nonlinear_arith);
        } else {
            lemma_small_mod(0, cycle as nat);
            lemma_fundamental_div_mod_converse(0, cycle, 0, 0);
            assert(q * delta == 0) by (nonlinear_arith)
                requires
                    q == 0,
            ;
            assert(added_up(sps, 0) == 0);
        }
    } else {
        assert(n > 1) by {
            if n == 1 {
                lemma_small_mod(0, cycle as nat);
            }
        }
        lemma_total_of_cycles(sps, n - 1);
        assert(cycle * q == q * cycle) by (nonlinear_arith);
        lemma_fundamental_div_mod_converse(n - 2, cycle, q, r - 1);
    }
}

proof fn lemma_one_cycle(sps: Sps, k: int)
    requires
        0 <= k <= sps.num_ref_frames_in_pic_order_cnt_cycle,
    ensures
        poc::total(sps.offset_for_ref_frame@.take(k)) == added_up(sps, k),
    decreases k,
{
    let offsets = sps.offset_for_ref_frame@;
    if k > 0 {
        lemma_one_cycle(sps, k - 1);
        let t = offsets.take(k);
        assert(t.drop_last() =~= offsets.take(k - 1));
        lemma_small_mod(
            (k - 1) as nat,
            sps.num_ref_frames_in_pic_order_cnt_cycle as nat,
        );
    }
}

/// A stream of type 1 comes out where the offsets of its cycle add up to, one for each
/// reference before it and its own, plus what was coded as a correction. A picture that is
/// no reference stands where the reference before it does, plus an offset of its own.
pub proof fn offsets_of_the_cycle_add_up(
    prev_ref: PrevReferencePicInfo,
    prev: PrevPicInfo,
    coded: PictureData,
    sps: Sps,
    pic: PictureData,
)
    requires
        coded.pic_order_cnt_type == 1,
        coded.field != Field::Bottom,
        sps.num_ref_frames_in_pic_order_cnt_cycle > 0,
        sps.expected_delta_per_pic_order_cnt_cycle == added_up(
            sps,
            sps.num_ref_frames_in_pic_order_cnt_cycle as int,
        ),
        poc::ordered(prev_ref, prev, coded, sps) matches Ok(p) && p == pic,
        pic.frame_num_offset + coded.frame_num <= i32::MAX,
    ensures
        coded.nal_ref_idc != 0 ==> pic.top_field_order_cnt == added_up(
            sps,
            pic.frame_num_offset + coded.frame_num,
        ) + coded.delta_pic_order_cnt0,
        coded.nal_ref_idc == 0 ==> pic.top_field_order_cnt == added_up(
            sps,
            pic.frame_num_offset + coded.frame_num - 1,
        ) + sps.offset_for_non_ref_pic + coded.delta_pic_order_cnt0,
{
    let n = pic.frame_num_offset + coded.frame_num - if coded.nal_ref_idc == 0 {
        1int
    } else {
        0int
    };
    if n >= 1 {
        lemma_total_of_cycles(sps, n);
        let cycle = sps.num_ref_frames_in_pic_order_cnt_cycle as int;
        lemma_fundamental_div_mod(n - 1, cycle);
        assert(0 <= (n - 1) / cycle <= n - 1) by (nonlinear_arith)
            requires
                cycle > 0,
                n >= 1,
        ;
    }
}

/// Without a cycle, every picture stands at its correction.
pub proof fn corrections_alone_count_without_a_cycle(
    prev_ref: PrevReferencePicInfo,
    prev: PrevPicInfo,
    coded: PictureData,
    sps: Sps,
    pic: PictureData,
)
    requires
        coded.pic_order_cnt_type == 1,
        coded.field != Field::Bottom,
        sps.num_ref_frames_in_pic_order_cnt_cycle == 0,
        poc::ordered(prev_ref, prev, coded, sps) matches Ok(p) && p == pic,
    ensures
        pic.top_field_order_cnt == coded.delta_pic_order_cnt0 + if coded.nal_ref_idc == 0 {
            sps.offset_for_non_ref_pic as int
        } else {
            0
        },
{
}

////// Type 2: decoding order

/// Output order is decoding order: of two pictures, the one of the later frame comes later,
/// by two for each frame, and a picture that is no reference comes just before a reference
/// of the same number would. An IDR picture stands at zero.
pub proof fn decoding_order_is_output_order(
    prev_a: PrevPicInfo,
    a: PictureData,
    prev_b: PrevPicInfo,
    b: PictureData,
    prev_ref: PrevReferencePicInfo,
    sps: Sps,
    first: PictureData,
    second: PictureData,
)
    requires
        a.pic_order_cnt_type == 2,
        b.pic_order_cnt_type == 2,
        a.field == Field::Frame,
        b.field == Field::Frame,
        a.is_idr is Yes ==> a.frame_num == 0 && a.nal_ref_idc != 0,
        b.is_idr is Yes ==> b.frame_num == 0 && b.nal_ref_idc != 0,
        poc::ordered(prev_ref, prev_a, a, sps) matches Ok(p) && p == first,
        poc::ordered(prev_ref, prev_b, b, sps) matches Ok(p) && p == second,
        first.frame_num_offset + a.frame_num <= i32::MAX,
        second.frame_num_offset + b.frame_num <= i32::MAX,
    ensures
        a.is_idr is Yes ==> first.pic_order_cnt == 0,
        second.pic_order_cnt - first.pic_order_cnt == 2 * ((second.frame_num_offset + b.frame_num)
            - (first.frame_num_offset + a.frame_num)) + (if a.nal_ref_idc == 0 {
            1int
        } else {
            0
        }) - (if b.nal_ref_idc == 0 {
            1int
        } else {
            0
        }),
        first.frame_num_offset + a.frame_num < second.frame_num_offset + b.frame_num
            ==> first.pic_order_cnt < second.pic_order_cnt,
{
}

/// What is derived goes nowhere but into the counts.
pub proof fn counting_changes_nothing_else(
    prev_ref: PrevReferencePicInfo,
    prev: PrevPicInfo,
    coded: PictureData,
    sps: Sps,
    pic: PictureData,
)
    requires
        poc::ordered(prev_ref, prev, coded, sps) matches Ok(p) && p == pic,
    ensures
        pic == (PictureData {
            pic_order_cnt: pic.pic_order_cnt,
            pic_order_cnt_msb: pic.pic_order_cnt_msb,
            top_field_order_cnt: pic.top_field_order_cnt,
            bottom_field_order_cnt: pic.bottom_field_order_cnt,
            frame_num_offset: pic.frame_num_offset,
            ..coded
        }),
        coded.pic_order_cnt_type == 0 ==> pic.frame_num_offset == coded.frame_num_offset,
        coded.pic_order_cnt_type != 0 ==> pic.pic_order_cnt_msb == coded.pic_order_cnt_msb,
{
}

} // verus!
