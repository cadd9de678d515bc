//! What picture numbers and reference marking promise.

use vstd::arithmetic::div_mod::{
    lemma_fundamental_div_mod_converse, lemma_small_mod,
};
use vstd::prelude::*;

use crate::h264::dpb;
use crate::h264::dpb::mmco;
use crate::h264::dpb::mmco::Marking;
use crate::h264::dpb::{DpbEntry, DpbState, MmcoError};
use crate::h264::picture::{PictureData, Reference};
use crate::h264::syntax::{MaxLongTermFrameIdx, RefPicMarkingInner};
use crate::surface::Handle;

verus! {

////// Picture numbers

/// The number of a short-term reference, as a frame numbered `current` sees it, is its
/// frame number moved down by whole rounds of the frame numbers to where it is not above
/// the current one: the latest it can be. That of a long-term one is its frame index.
pub proof fn picture_numbers_look_back(d: DpbState, i: int, current: u32, max_frame_num: u32)
    requires
        0 <= i < d.entries.len(),
        current < max_frame_num <= 0x10000,
        d.entries[i].pic.frame_num < max_frame_num,
    ensures
        ({
            let (e, n) = (d.entries[i], d.renumbered(current, max_frame_num).entries[i]);
            &&& e.pic.reference == Reference::ShortTerm ==> {
                &&& (n.pic.frame_num_wrap as int) % (max_frame_num as int) == e.pic.frame_num
                &&& current - max_frame_num < n.pic.frame_num_wrap <= current
                &&& n.pic.pic_num == n.pic.frame_num_wrap
            }
            &&& e.pic.reference == Reference::LongTerm ==> n.pic.long_term_pic_num
                == e.pic.long_term_frame_idx
            &&& e.pic.reference == Reference::Unused ==> n == e
            &&& n == (DpbEntry {
                pic: PictureData {
                    frame_num_wrap: n.pic.frame_num_wrap,
                    pic_num: n.pic.pic_num,
                    long_term_pic_num: n.pic.long_term_pic_num,
                    ..e.pic
                },
                ..e
            })
        }),
        d.renumbered(current, max_frame_num).entries.len() == d.entries.len(),
{
    let m = max_frame_num as int;
    let f = d.entries[i].pic.frame_num as int;
    lemma_small_mod(f as nat, m as nat);
    lemma_fundamental_div_mod_converse(f - m, m, -1, f);
}

////// Counting references

/// A reference more counts one more, of either kind, and anything else none.
pub proof fn references_are_counted_once(s: Seq<DpbEntry>, e: DpbEntry)
    ensures
        dpb::reference_count(Seq::empty()) == 0,
        dpb::reference_count(s.push(e)) == dpb::reference_count(s) + (if e.pic.reference
            == Reference::Unused {
            0nat
        } else {
            1nat
        }),
{
    assert(s.push(e).drop_last() =~= s);
}

/// `e` without its mark.
pub open spec fn without_mark(e: DpbEntry) -> DpbEntry {
    DpbEntry { pic: PictureData { reference: Reference::Unused, ..e.pic }, ..e }
}

/// The sliding window takes the mark off short-term references, the oldest first, until
/// fewer than `max` references are left or none of them is a short-term one; and off no
/// more than that.
pub proof fn the_window_drops_the_oldest(s: Seq<DpbEntry>, max: nat)
    requires
        max > 0,
    ensures
        dpb::slid(s, max).len() == s.len(),
        forall|i: int|
            0 <= i < s.len() ==> #[trigger] dpb::slid(s, max)[i] == s[i] || (s[i].pic.reference
                == Reference::ShortTerm && dpb::slid(s, max)[i] == without_mark(s[i])),
        dpb::reference_count(dpb::slid(s, max)) < max || forall|i: int|
            0 <= i < s.len() ==> (#[trigger] dpb::slid(s, max)[i]).pic.reference
                != Reference::ShortTerm,
        dpb::reference_count(s) < max ==> dpb::slid(s, max) == s,
        dpb::reference_count(s) >= max ==> dpb::reference_count(dpb::slid(s, max)) >= max - 1,
        forall|i: int, j: int|
            0 <= i < s.len() && 0 <= j < s.len() && s[i].pic.reference == Reference::ShortTerm
                && (#[trigger] dpb::slid(s, max)[i]).pic.reference == Reference::Unused && (
            #[trigger] dpb::slid(s, max)[j]).pic.reference == Reference::ShortTerm
                ==> s[i].pic.frame_num_wrap <= s[j].pic.frame_num_wrap,
    decreases dpb::reference_count(s),
{
    if dpb::reference_count(s) >= max && dpb::any_short_term(s) {
        dpb::lemma_oldest_exists(s);
        let k = dpb::oldest(s);
        let e = dpb::marked(s[k], Reference::Unused);
        let t = s.update(k, e);
        dpb::lemma_reference_count_update(s, k, e);
        the_window_drops_the_oldest(t, max);
        let u = dpb::slid(s, max);
        assert(u == dpb::slid(t, max));
        assert forall|i: int| 0 <= i < s.len() implies #[trigger] u[i] == s[i] || (
        s[i].pic.reference == Reference::ShortTerm && u[i] == without_mark(s[i])) by {
            assert(dpb::slid(t, max)[i] == t[i] || dpb::slid(t, max)[i] == without_mark(t[i]));
        }
        assert forall|i: int, j: int|
            0 <= i < s.len() && 0 <= j < s.len() && s[i].pic.reference == Reference::ShortTerm && (
            #[trigger] u[i]).pic.reference == Reference::Unused && (
            #[trigger] u[j]).pic.reference == Reference::ShortTerm implies s[i].pic.frame_num_wrap
            <= s[j].pic.frame_num_wrap by {
            assert(dpb::slid(t, max)[j] == t[j]);
            assert(dpb::short_term(s[j]));
        }
    }
}

/// What a sequence calls its number of references is at least one to the window.
pub proof fn the_window_holds_one_at_least(d: DpbState, max_num_ref_frames: u8)
    ensures
        d.slid(max_num_ref_frames).entries == dpb::slid(
            d.entries,
            if max_num_ref_frames > 1 {
                max_num_ref_frames as nat
            } else {
                1
            },
        ),
        d.slid(max_num_ref_frames).max_num_pics == d.max_num_pics,
        d.slid(max_num_ref_frames).max_num_reorder_frames == d.max_num_reorder_frames,
{
}

////// Memory management control operations

/// Whether `t` is `s` but for entry `k`.
pub open spec fn differs_at(s: Seq<DpbEntry>, t: Seq<DpbEntry>, k: int) -> bool {
    &&& s.len() == t.len()
    &&& forall|i: int| 0 <= i < s.len() && i != k ==> #[trigger] t[i] == s[i]
}

/// Operation 1 takes the mark off the short-term reference numbered so far below the
/// current picture, and touches nothing else. Where no reference is numbered so, it fails.
pub proof fn operation_1_unmarks_by_picture_number(s: Marking, m: RefPicMarkingInner)
    requires
        m.memory_management_control_operation == 1,
    ensures
        ({
            let number = s.pic.pic_num - m.difference_of_pic_nums_minus1 - 1;
            match mmco::operated(s, m) {
                Ok(t) => exists|k: int|
                    {
                        &&& 0 <= k < s.dpb.entries.len()
                        &&& s.dpb.entries[k].pic.reference == Reference::ShortTerm
                        &&& s.dpb.entries[k].pic.pic_num == number
                        &&& t.dpb.entries[k] == without_mark(s.dpb.entries[k])
                        &&& #[trigger] differs_at(s.dpb.entries, t.dpb.entries, k)
                        &&& t.pic == s.pic
                        &&& t.max_long_term_frame_idx == s.max_long_term_frame_idx
                    },
                Err(e) => e == MmcoError::NoShortTermPic && forall|k: int|
                    0 <= k < s.dpb.entries.len() ==> !((
                    #[trigger] s.dpb.entries[k]).pic.reference == Reference::ShortTerm
                        && s.dpb.entries[k].pic.pic_num == number),
            }
        }),
{
    let number = dpb::pic_num_x(s.pic, m);
    lemma_first_short_term(s.dpb.entries, number);
    match dpb::short_term_numbered(s.dpb.entries, number) {
        Some(k) => {
            let t = mmco::operated(s, m)->Ok_0;
            assert(differs_at(s.dpb.entries, t.dpb.entries, k));
        },
        None => {},
    }
}

pub proof fn lemma_first_short_term(s: Seq<DpbEntry>, number: int)
    ensures
        match dpb::short_term_numbered(s, number) {
            Some(k) => 0 <= k < s.len() && s[k].pic.reference == Reference::ShortTerm
                && s[k].pic.pic_num == number,
            None => forall|k: int|
                0 <= k < s.len() ==> !((#[trigger] s[k]).pic.reference == Reference::ShortTerm
                    && s[k].pic.pic_num == number),
        },
{
    if dpb::short_term_numbered(s, number) is None {
        assert forall|k: int| 0 <= k < s.len() implies !((#[trigger] s[k]).pic.reference
            == Reference::ShortTerm && s[k].pic.pic_num == number) by {
            lemma_no_short_term(s, number, k);
        }
    }
}

proof fn lemma_no_short_term(s: Seq<DpbEntry>, number: int, k: int)
    requires
        0 <= k < s.len(),
        forall|i: int| !dpb::is_short_term_numbered(s, number, i),
    ensures
        !(s[k].pic.reference == Reference::ShortTerm && s[k].pic.pic_num == number),
    decreases k,
{
    if s[k].pic.reference == Reference::ShortTerm && s[k].pic.pic_num == number {
        assert forall|j: int| 0 <= j < k implies !(dpb::short_term(#[trigger] s[j])
            && s[j].pic.pic_num == number) by {
            lemma_no_short_term(s, number, j);
        }
        assert(dpb::is_short_term_numbered(s, number, k));
    }
}

pub proof fn lemma_first_long_term(s: Seq<DpbEntry>, number: u32)
    ensures
        match dpb::long_term_numbered(s, number) {
            Some(k) => 0 <= k < s.len() && s[k].pic.reference == Reference::LongTerm
                && s[k].pic.long_term_pic_num == number,
            None => forall|k: int|
                0 <= k < s.len() ==> !((#[trigger] s[k]).pic.reference == Reference::LongTerm
                    && s[k].pic.long_term_pic_num == number),
        },
{
    if dpb::long_term_numbered(s, number) is None {
        assert forall|k: int| 0 <= k < s.len() implies !((#[trigger] s[k]).pic.reference
            == Reference::LongTerm && s[k].pic.long_term_pic_num == number) by {
            lemma_no_long_term(s, number, k);
        }
    }
}

proof fn lemma_no_long_term(s: Seq<DpbEntry>, number: u32, k: int)
    requires
        0 <= k < s.len(),
        forall|i: int| !dpb::is_long_term_numbered(s, number, i),
    ensures
        !(s[k].pic.reference == Reference::LongTerm && s[k].pic.long_term_pic_num == number),
    decreases k,
{
    if s[k].pic.reference == Reference::LongTerm && s[k].pic.long_term_pic_num == number {
        assert forall|j: int| 0 <= j < k implies !(dpb::long_term(#[trigger] s[j])
            && s[j].pic.long_term_pic_num == number) by {
            lemma_no_long_term(s, number, j);
        }
        assert(dpb::is_long_term_numbered(s, number, k));
    }
}

/// Operation 2 takes the mark off the long-term reference of the number it names, and
/// touches nothing else. Where no reference is numbered so, it fails.
pub proof fn operation_2_unmarks_by_long_term_number(s: Marking, m: RefPicMarkingInner)
    requires
        m.memory_management_control_operation == 2,
    ensures
        match mmco::operated(s, m) {
            Ok(t) => exists|k: int|
                {
                    &&& 0 <= k < s.dpb.entries.len()
                    &&& s.dpb.entries[k].pic.reference == Reference::LongTerm
                    &&& s.dpb.entries[k].pic.long_term_pic_num == m.long_term_pic_num
                    &&& t.dpb.entries[k] == without_mark(s.dpb.entries[k])
                    &&& #[trigger] differs_at(s.dpb.entries, t.dpb.entries, k)
                    &&& t.pic == s.pic
                    &&& t.max_long_term_frame_idx == s.max_long_term_frame_idx
                },
            Err(e) => e == MmcoError::NoLongTermPic && forall|k: int|
                0 <= k < s.dpb.entries.len() ==> !((#[trigger] s.dpb.entries[k]).pic.reference
                    == Reference::LongTerm && s.dpb.entries[k].pic.long_term_pic_num
                    == m.long_term_pic_num),
        },
{
    lemma_first_long_term(s.dpb.entries, m.long_term_pic_num);
    match dpb::long_term_numbered(s.dpb.entries, m.long_term_pic_num) {
        Some(k) => {
            let t = mmco::operated(s, m)->Ok_0;
            assert(differs_at(s.dpb.entries, t.dpb.entries, k));
        },
        None => {},
    }
}

/// Whether `e` holds the long-term frame index `idx`.
pub open spec fn holds_index(e: DpbEntry, idx: u32) -> bool {
    e.pic.reference == Reference::LongTerm && e.pic.long_term_frame_idx == idx
}

/// Operation 3 makes a short-term reference the long-term one of the index it names, and
/// leaves no other holder of that index. Nothing else changes.
pub proof fn operation_3_moves_a_reference_to_an_index(s: Marking, m: RefPicMarkingInner)
    requires
        m.memory_management_control_operation == 3,
    ensures
        ({
            let number = s.pic.pic_num - m.difference_of_pic_nums_minus1 - 1;
            let idx = m.long_term_frame_idx;
            mmco::operated(s, m) matches Ok(t) ==> {
                &&& t.pic == s.pic
                &&& t.max_long_term_frame_idx == s.max_long_term_frame_idx
                &&& t.dpb.entries.len() == s.dpb.entries.len()
                &&& exists|k: int|
                    {
                        &&& 0 <= k < s.dpb.entries.len()
                        &&& s.dpb.entries[k].pic.reference == Reference::ShortTerm
                        &&& s.dpb.entries[k].pic.pic_num == number
                        &&& !s.dpb.entries[k].pic.nonexisting
                        &&& holds_index(t.dpb.entries[k], idx)
                        &&& t.dpb.entries[k].reference == s.dpb.entries[k].reference
                        &&& t.dpb.entries[k].pic.pic_order_cnt == s.dpb.entries[k].pic.pic_order_cnt
                        &&& t.dpb.entries[k].pic.needed_for_output
                            == s.dpb.entries[k].pic.needed_for_output
                        &&& #[trigger] is_only_holder(s.dpb.entries, t.dpb.entries, k, idx)
                    }
            }
        }),
        mmco::operated(s, m) matches Err(e) ==> e == MmcoError::NoShortTermPic || e
            == MmcoError::ExpectedExisting,
{
    let number = dpb::pic_num_x(s.pic, m);
    lemma_first_short_term(s.dpb.entries, number);
    match dpb::short_term_numbered(s.dpb.entries, number) {
        Some(k) => {
            if !s.dpb.entries[k].pic.nonexisting {
                let t = mmco::operated(s, m)->Ok_0;
                assert(is_only_holder(s.dpb.entries, t.dpb.entries, k, m.long_term_frame_idx));
            }
        },
        None => {},
    }
}

/// Whether entry `k` alone holds the index `idx` in `t`, and every other entry is as in `s`
/// but for holding it.
pub open spec fn is_only_holder(s: Seq<DpbEntry>, t: Seq<DpbEntry>, k: int, idx: u32) -> bool {
    &&& s.len() == t.len()
    &&& forall|i: int|
        0 <= i < s.len() && i != k ==> #[trigger] t[i] == if holds_index(s[i], idx) {
            without_mark(s[i])
        } else {
            s[i]
        }
}

/// Operation 4 leaves no long-term reference of an index above the new limit, and every
/// other reference as it was.
pub proof fn operation_4_caps_the_indices(s: Marking, m: RefPicMarkingInner, i: int)
    requires
        m.memory_management_control_operation == 4,
        0 <= i < s.dpb.entries.len(),
    ensures
        mmco::operated(s, m) matches Ok(t) && {
            let (e, n) = (s.dpb.entries[i], t.dpb.entries[i]);
            &&& t.max_long_term_frame_idx == m.max_long_term_frame_idx
            &&& t.pic == s.pic
            &&& e.pic.reference != Reference::LongTerm ==> n == e
            &&& e.pic.reference == Reference::LongTerm ==> match m.max_long_term_frame_idx {
                MaxLongTermFrameIdx::NoLongTermFrameIndices => n == without_mark(e),
                MaxLongTermFrameIdx::Idx(max) => if e.pic.long_term_frame_idx <= max {
                    n == e
                } else {
                    n == without_mark(e)
                },
            }
        },
{
}

/// Operation 5 leaves no reference and no index, and has the picture start over: frame
/// number zero, its earlier field at count zero, and its fields as far apart as they were.
pub proof fn operation_5_starts_over(s: Marking, m: RefPicMarkingInner)
    requires
        m.memory_management_control_operation == 5,
    ensures
        mmco::operated(s, m) matches Ok(t) ==> {
            &&& t.dpb.entries.len() == s.dpb.entries.len()
            &&& forall|i: int|
                0 <= i < s.dpb.entries.len() ==> #[trigger] t.dpb.entries[i] == without_mark(
                    s.dpb.entries[i],
                )
            &&& t.max_long_term_frame_idx is NoLongTermFrameIndices
            &&& t.pic.has_mmco_5
            &&& t.pic.frame_num == 0
            &&& t.pic.pic_order_cnt == 0
            &&& t.pic.bottom_field_order_cnt - t.pic.top_field_order_cnt
                == s.pic.bottom_field_order_cnt - s.pic.top_field_order_cnt
            &&& s.pic.pic_order_cnt == s.pic.top_field_order_cnt ==> t.pic.top_field_order_cnt == 0
            &&& s.pic.pic_order_cnt == s.pic.bottom_field_order_cnt
                ==> t.pic.bottom_field_order_cnt == 0
            &&& t.pic.reference == s.pic.reference
        },
        -0x4000_0000 <= s.pic.pic_order_cnt <= 0x3fff_ffff && -0x4000_0000
            <= s.pic.top_field_order_cnt <= 0x3fff_ffff && -0x4000_0000
            <= s.pic.bottom_field_order_cnt <= 0x3fff_ffff ==> mmco::operated(s, m) is Ok,
{
}

/// Operation 6 makes the picture itself the long-term reference of the index it names, and
/// leaves no other holder of that index.
pub proof fn operation_6_keeps_the_picture(s: Marking, m: RefPicMarkingInner)
    requires
        m.memory_management_control_operation == 6,
    ensures
        mmco::operated(s, m) matches Ok(t) && {
            &&& t.pic == (PictureData {
                reference: Reference::LongTerm,
                long_term_frame_idx: m.long_term_frame_idx,
                ..s.pic
            })
            &&& is_only_holder(s.dpb.entries, t.dpb.entries, -1, m.long_term_frame_idx)
            &&& t.max_long_term_frame_idx == s.max_long_term_frame_idx
        },
{
}

/// There are six operations, and zero ends them: any other is refused.
pub proof fn there_are_six_operations(s: Marking, ops: Seq<RefPicMarkingInner>)
    requires
        ops.len() > 0,
    ensures
        ops[0].memory_management_control_operation == 0 ==> mmco::all_operated(s, ops).0 == s
            && mmco::all_operated(s, ops).1 is Ok,
        ops[0].memory_management_control_operation > 6 ==> mmco::all_operated(s, ops).0 == s
            && mmco::all_operated(s, ops).1 == Err::<(), MmcoError>(
            MmcoError::UnknownMmco(ops[0].memory_management_control_operation),
        ),
{
}

/// Whether no two references hold one long-term frame index.
pub open spec fn indices_are_apart(s: Seq<DpbEntry>) -> bool {
    forall|i: int, j: int|
        0 <= i < j < s.len() && (#[trigger] s[i]).pic.reference == Reference::LongTerm && (
        #[trigger] s[j]).pic.reference == Reference::LongTerm ==> s[i].pic.long_term_frame_idx
            != s[j].pic.long_term_frame_idx
}

/// No operation ever has two references hold one long-term frame index.
pub proof fn operations_keep_indices_apart(s: Marking, ops: Seq<RefPicMarkingInner>)
    requires
        indices_are_apart(s.dpb.entries),
    ensures
        indices_are_apart(mmco::all_operated(s, ops).0.dpb.entries),
    decreases ops.len(),
{
    if ops.len() > 0 && ops[0].memory_management_control_operation != 0 {
        match mmco::operated(s, ops[0]) {
            Ok(t) => {
                lemma_operation_keeps_apart(s, ops[0], t);
                operations_keep_indices_apart(t, ops.drop_first());
            },
            Err(_) => {},
        }
    }
}

proof fn lemma_operation_keeps_apart(s: Marking, m: RefPicMarkingInner, t: Marking)
    requires
        indices_are_apart(s.dpb.entries),
        mmco::operated(s, m) == Ok::<Marking, MmcoError>(t),
    ensures
        indices_are_apart(t.dpb.entries),
{
    let (a, b) = (s.dpb.entries, t.dpb.entries);
    let op = m.memory_management_control_operation;
    if op == 3 {
        operation_3_moves_a_reference_to_an_index(s, m);
        let idx = m.long_term_frame_idx;
        let k = choose|k: int|
            0 <= k < a.len() && holds_index(b[k], idx) && #[trigger] is_only_holder(a, b, k, idx);
        assert forall|i: int, j: int|
            0 <= i < j < b.len() && (#[trigger] b[i]).pic.reference == Reference::LongTerm && (
            #[trigger] b[j]).pic.reference == Reference::LongTerm implies
            b[i].pic.long_term_frame_idx != b[j].pic.long_term_frame_idx by {
            assert(i != k ==> b[i] == a[i]);
            assert(j != k ==> b[j] == a[j]);
        }
    } else {
        assert forall|i: int|
            0 <= i < b.len() && (#[trigger] b[i]).pic.reference
                == Reference::LongTerm implies b[i] == a[i] by {}
    }
}

////// Pushing pictures out

/// A picture pushes another out only of a full buffer, and then where it is a reference
/// that needs the frame buffer or was invented, or where a picture still waiting comes
/// before it.
pub proof fn pictures_push_out_only_where_they_must(d: DpbState, pic: PictureData)
    requires
        d.max_num_reorder_frames <= d.max_num_pics,
    ensures
        d.entries.len() < d.max_num_pics ==> !d.bumps(pic),
        d.entries.len() >= d.max_num_pics ==> {
            let waiting = exists|i: int|
                0 <= i < d.entries.len() && (#[trigger] d.entries[i]).pic.needed_for_output;
            let earlier = exists|i: int|
                0 <= i < d.entries.len() && (#[trigger] d.entries[i]).pic.needed_for_output
                    && d.entries[i].pic.pic_order_cnt < pic.pic_order_cnt;
            &&& pic.nonexisting ==> (d.bumps(pic) <==> waiting)
            &&& pic.reference != Reference::Unused && pic.is_idr is No ==> (d.bumps(pic)
                <==> waiting)
            &&& !pic.nonexisting && (pic.reference == Reference::Unused || pic.is_idr is Yes) ==> (
            d.bumps(pic) <==> earlier)
        },
{
    let s = d.entries;
    if dpb::any_waiting(s) {
        dpb::lemma_next_output_exists(s);
        let n = dpb::next_output(s);
        let w = choose|i: int| 0 <= i < s.len() && dpb::waiting(#[trigger] s[i]);
        assert(s[w].pic.needed_for_output);
        assert(s[n].pic.needed_for_output);
        if s[n].pic.pic_order_cnt >= pic.pic_order_cnt {
            assert forall|i: int| 0 <= i < s.len() && (
            #[trigger] s[i]).pic.needed_for_output implies s[i].pic.pic_order_cnt
                >= pic.pic_order_cnt by {
                assert(dpb::waiting(s[i]));
                assert(dpb::output_before(s, n, i));
            }
        }
    } else {
        assert forall|i: int| 0 <= i < s.len() implies !(
        #[trigger] s[i]).pic.needed_for_output by {
            assert(!dpb::waiting(s[i]));
        }
    }
}

/// A picture stored goes to the end, in the surface it was decoded into, and waits for its
/// output unless it was invented. The others stay.
pub proof fn storing_adds_the_picture(
    d: DpbState,
    pic: PictureData,
    reference: Option<Handle>,
)
    ensures
        ({
            let t = d.stored(pic, reference);
            let e = t.entries[d.entries.len() as int];
            &&& t.entries.len() == d.entries.len() + 1
            &&& forall|i: int| 0 <= i < d.entries.len() ==> #[trigger] t.entries[i] == d.entries[i]
            &&& e.reference == reference
            &&& e.pic.needed_for_output != pic.nonexisting
            &&& e.pic.reference == pic.reference && e.pic.frame_num == pic.frame_num
                && e.pic.pic_order_cnt == pic.pic_order_cnt
            &&& t.max_num_pics == d.max_num_pics
        }),
{
}

/// An entry leaves the buffer unasked only where it is neither to be output nor a
/// reference.
pub proof fn entries_in_use_are_kept(d: DpbState, e: DpbEntry)
    ensures
        d.pruned().entries.contains(e) <==> d.entries.contains(e) && (e.pic.needed_for_output
            || e.pic.reference != Reference::Unused),
{
    let p = |e: DpbEntry| dpb::in_use(e);
    if d.entries.contains(e) && dpb::in_use(e) {
        let i = choose|i: int| 0 <= i < d.entries.len() && d.entries[i] == e;
        d.entries.lemma_filter_contains(p, i);
    }
    if d.pruned().entries.contains(e) {
        d.entries.lemma_filter_contains_rev(p, e);
        let f = d.entries.filter(p);
        let i = choose|i: int| 0 <= i < f.len() && f[i] == e;
        d.entries.lemma_filter_pred(p, i);
    }
}

} // verus!
