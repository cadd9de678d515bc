//! What the decoded picture buffer promises about output: every picture stored
//! comes out exactly once, lowest order count first.

use vstd::multiset::Multiset;
use vstd::prelude::*;

use crate::h264::dpb;
use crate::h264::dpb::mmco;
use crate::h264::dpb::mmco::Marking;
use crate::h264::dpb::{DpbEntry, DpbState};
use crate::h264::picture::{PictureData, Reference};
use crate::h264::syntax::{MaxLongTermFrameIdx, RefPicMarkingInner};
use crate::surface::Handle;

verus! {

/// The picture `e` still owes its output, if any.
pub open spec fn owed(e: DpbEntry) -> Multiset<Handle> {
    if dpb::waiting(e) {
        match e.reference {
            Some(h) => Multiset::singleton(h),
            None => Multiset::empty(),
        }
    } else {
        Multiset::empty()
    }
}

/// The pictures the entries `s` still owe their output.
pub open spec fn pending(s: Seq<DpbEntry>) -> Multiset<Handle>
    decreases s.len(),
{
    if s.len() == 0 {
        Multiset::empty()
    } else {
        pending(s.drop_last()).add(owed(s.last()))
    }
}

/// Whether `t` owes what `s` owes, entry by entry.
pub open spec fn owes_alike(s: Seq<DpbEntry>, t: Seq<DpbEntry>) -> bool {
    &&& s.len() == t.len()
    &&& forall|i: int|
        0 <= i < s.len() ==> owed(#[trigger] s[i]) == owed(t[i])
}

/// Entries that owe alike owe the same in all.
pub proof fn lemma_pending_alike(s: Seq<DpbEntry>, t: Seq<DpbEntry>)
    requires
        owes_alike(s, t),
    ensures
        pending(s) == pending(t),
    decreases s.len(),
{
    if s.len() > 0 {
        assert forall|i: int| 0 <= i < s.drop_last().len() implies owed(
            #[trigger] s.drop_last()[i],
        ) == owed(t.drop_last()[i]) by {
            assert(owed(s[i]) == owed(t[i]));
        }
        lemma_pending_alike(s.drop_last(), t.drop_last());
        assert(owed(s[s.len() - 1]) == owed(t[s.len() - 1]));
    }
}

/// The entries `s` owe at most one picture each.
pub proof fn each_entry_owes_at_most_one(s: Seq<DpbEntry>)
    ensures
        pending(s).len() <= s.len(),
    decreases s.len(),
{
    if s.len() > 0 {
        each_entry_owes_at_most_one(s.drop_last());
        assert(owed(s.last()).len() <= 1);
    }
}

proof fn lemma_pending_update(s: Seq<DpbEntry>, i: int, e: DpbEntry)
    requires
        0 <= i < s.len(),
    ensures
        pending(s.update(i, e)).add(owed(s[i])) == pending(s).add(owed(e)),
    decreases s.len(),
{
    let u = s.update(i, e);
    if i == s.len() - 1 {
        assert(u.drop_last() =~= s.drop_last());
        assert(u.last() == e);
    } else {
        lemma_pending_update(s.drop_last(), i, e);
        assert(u.drop_last() =~= s.drop_last().update(i, e));
        assert(u.last() == s.last());
        let a = pending(u.drop_last());
        let b = pending(s.drop_last());
        assert(a.add(owed(s[i])) == b.add(owed(e)));
        assert(a.add(owed(s.last())).add(owed(s[i])) =~= a.add(owed(s[i])).add(owed(s.last())));
        assert(b.add(owed(s.last())).add(owed(e)) =~= b.add(owed(e)).add(owed(s.last())));
    }
    assert(pending(u).add(owed(s[i])) =~= pending(s).add(owed(e)));
}

proof fn lemma_pending_remove(s: Seq<DpbEntry>, i: int)
    requires
        0 <= i < s.len(),
    ensures
        pending(s.remove(i)).add(owed(s[i])) == pending(s),
    decreases s.len(),
{
    let r = s.remove(i);
    if i == s.len() - 1 {
        assert(r =~= s.drop_last());
    } else {
        lemma_pending_remove(s.drop_last(), i);
        assert(r.drop_last() =~= s.drop_last().remove(i));
        assert(r.last() == s.last());
        assert(pending(r).add(owed(s[i])) =~= pending(s));
    }
}

proof fn lemma_pending_bump(s: Seq<DpbEntry>)
    requires
        dpb::any_waiting(s),
    ensures
        pending(dpb::after_bump(s)).add(owed(s[dpb::next_output(s)])) == pending(s),
{
    dpb::lemma_next_output_exists(s);
    let i = dpb::next_output(s);
    if s[i].pic.spec_is_ref() {
        lemma_pending_update(s, i, dpb::shown(s[i]));
        assert(pending(s).add(owed(dpb::shown(s[i]))) =~= pending(s));
    } else {
        lemma_pending_remove(s, i);
    }
}

proof fn lemma_nothing_pending(s: Seq<DpbEntry>)
    requires
        !dpb::any_waiting(s),
    ensures
        pending(s) == Multiset::<Handle>::empty(),
    decreases s.len(),
{
    if s.len() > 0 {
        assert(!dpb::any_waiting(s.drop_last())) by {
            if dpb::any_waiting(s.drop_last()) {
                let i = choose|i: int|
                    0 <= i < s.drop_last().len() && dpb::waiting(#[trigger] s.drop_last()[i]);
                assert(dpb::waiting(s[i]));
            }
        }
        lemma_nothing_pending(s.drop_last());
        assert(!dpb::waiting(s[s.len() - 1]));
        assert(pending(s) =~= Multiset::<Handle>::empty());
    }
}

proof fn lemma_handles_cons(e: DpbEntry, s: Seq<DpbEntry>)
    requires
        dpb::waiting(e),
    ensures
        dpb::handles(seq![e] + s).to_multiset() == owed(e).add(dpb::handles(s).to_multiset()),
{
    broadcast use vstd::seq_lib::group_to_multiset_ensures;

    let t = seq![e] + s;
    assert(t.drop_first() =~= s);
    assert(t[0] == e);
    match e.reference {
        Some(h) => {
            assert(dpb::handles(t) == seq![h] + dpb::handles(s));
            vstd::seq_lib::lemma_multiset_commutative(seq![h], dpb::handles(s));
            assert(seq![h] =~= Seq::<Handle>::empty().push(h));
            assert(seq![h].to_multiset() =~= Multiset::singleton(h));
        },
        None => {
            assert(owed(e).add(dpb::handles(s).to_multiset()) =~= dpb::handles(s).to_multiset());
        },
    }
}

/// Draining a buffer outputs every picture it owes exactly once, and nothing else.
pub proof fn draining_outputs_each_picture_once(s: Seq<DpbEntry>)
    ensures
        dpb::handles(dpb::output_sequence(s)).to_multiset() == pending(s),
    decreases dpb::waiting_count(s),
{
    broadcast use vstd::seq_lib::group_to_multiset_ensures;

    if dpb::any_waiting(s) {
        dpb::lemma_bump_counts_down(s);
        dpb::lemma_next_output_exists(s);
        draining_outputs_each_picture_once(dpb::after_bump(s));
        let e = s[dpb::next_output(s)];
        lemma_handles_cons(e, dpb::output_sequence(dpb::after_bump(s)));
        lemma_pending_bump(s);
        assert(owed(e).add(pending(dpb::after_bump(s))) =~= pending(dpb::after_bump(s)).add(owed(e)));
    } else {
        lemma_nothing_pending(s);
        assert(dpb::handles(dpb::output_sequence(s)) =~= Seq::<Handle>::empty());
        assert(Seq::<Handle>::empty().to_multiset() =~= Multiset::empty());
    }
}

/// Making room for a picture outputs pictures, but loses none: what came out and
/// what is still owed are together what was owed before.
pub proof fn bumping_loses_no_picture(d: DpbState, pic: PictureData)
    ensures
        dpb::handles(dpb::bumped(d, pic)).to_multiset().add(
            pending(dpb::left_after_bumping(d, pic).entries),
        ) == pending(d.entries),
    decreases dpb::waiting_count(d.entries),
{
    broadcast use vstd::seq_lib::group_to_multiset_ensures;

    if d.bumps(pic) {
        let s = d.entries;
        dpb::lemma_bump_counts_down(s);
        dpb::lemma_next_output_exists(s);
        bumping_loses_no_picture(d.bumped_once(), pic);
        let e = s[dpb::next_output(s)];
        lemma_handles_cons(e, dpb::bumped(d.bumped_once(), pic));
        lemma_pending_bump(s);
        let rest = dpb::handles(dpb::bumped(d.bumped_once(), pic)).to_multiset();
        let left = pending(dpb::left_after_bumping(d, pic).entries);
        assert(owed(e).add(rest).add(left) =~= rest.add(left).add(owed(e)));
    } else {
        assert(dpb::handles(dpb::bumped(d, pic)) =~= Seq::<Handle>::empty());
        assert(Multiset::<Handle>::empty().add(pending(d.entries)) =~= pending(d.entries));
        assert(Seq::<Handle>::empty().to_multiset() =~= Multiset::empty());
    }
}

/// Dropping what nothing needs any more loses no output.
pub proof fn pruning_loses_no_picture(d: DpbState)
    ensures
        pending(d.pruned().entries) == pending(d.entries),
    decreases d.entries.len(),
{
    let p = |e: DpbEntry| dpb::in_use(e);
    let s = d.entries;
    reveal(Seq::filter);
    if s.len() > 0 {
        pruning_loses_no_picture(d.with(s.drop_last()));
        let f = s.drop_last().filter(p);
        if dpb::in_use(s.last()) {
            assert(s.filter(p) == f.push(s.last()));
            assert(f.push(s.last()).drop_last() =~= f);
        } else {
            assert(s.filter(p) == f);
            assert(pending(s) =~= pending(s.drop_last()));
        }
    }
}

/// A picture stored is owed its output, unless it was invented.
pub proof fn storing_owes_the_picture(d: DpbState, pic: PictureData, handle: Handle)
    ensures
        pending(d.stored(pic, Some(handle)).entries) == if pic.nonexisting {
            pending(d.entries)
        } else {
            pending(d.entries).insert(handle)
        },
{
    let t = d.stored(pic, Some(handle)).entries;
    assert(t.drop_last() =~= d.entries);
    if pic.nonexisting {
        assert(pending(t) =~= pending(d.entries));
    } else {
        assert(pending(t) =~= pending(d.entries).insert(handle));
    }
}

/// An invented picture is never output.
pub proof fn inventing_owes_nothing(d: DpbState, pic: PictureData)
    ensures
        pending(d.stored(pic, None).entries) == pending(d.entries),
{
    let t = d.stored(pic, None).entries;
    assert(t.drop_last() =~= d.entries);
    assert(pending(t) =~= pending(d.entries));
}

/// Renumbering the references owes nothing more and nothing less.
pub proof fn renumbering_loses_no_picture(d: DpbState, frame_num: u32, max_frame_num: u32)
    ensures
        pending(d.renumbered(frame_num, max_frame_num).entries) == pending(d.entries),
{
    lemma_pending_alike(d.entries, d.renumbered(frame_num, max_frame_num).entries);
}

/// Marking every picture unused owes nothing more and nothing less.
pub proof fn unmarking_loses_no_picture(d: DpbState)
    ensures
        pending(d.all_unused().entries) == pending(d.entries),
{
    lemma_pending_alike(d.entries, d.all_unused().entries);
}

proof fn lemma_slid_alike(s: Seq<DpbEntry>, max: nat)
    ensures
        owes_alike(s, dpb::slid(s, max)),
    decreases dpb::reference_count(s),
{
    if dpb::reference_count(s) >= max && dpb::any_short_term(s) {
        dpb::lemma_oldest_exists(s);
        let i = dpb::oldest(s);
        let e = dpb::marked(s[i], Reference::Unused);
        dpb::lemma_reference_count_update(s, i, e);
        lemma_slid_alike(s.update(i, e), max);
        assert forall|k: int| 0 <= k < s.len() implies owed(#[trigger] s[k]) == owed(
            dpb::slid(s, max)[k],
        ) by {
            assert(owed(s.update(i, e)[k]) == owed(dpb::slid(s, max)[k]));
        }
    }
}

/// The sliding window owes nothing more and nothing less.
pub proof fn sliding_loses_no_picture(d: DpbState, max_num_ref_frames: u8)
    ensures
        pending(d.slid(max_num_ref_frames).entries) == pending(d.entries),
{
    let max = if max_num_ref_frames == 0 {
        1nat
    } else {
        max_num_ref_frames as nat
    };
    lemma_slid_alike(d.entries, max);
    lemma_pending_alike(d.entries, d.slid(max_num_ref_frames).entries);
}

proof fn lemma_operated_pending(s: Marking, m: RefPicMarkingInner)
    ensures
        mmco::operated(s, m) matches Ok(t) ==> pending(t.dpb.entries) == pending(s.dpb.entries),
{
    match mmco::operated(s, m) {
        Ok(t) => {
            lemma_pending_alike(s.dpb.entries, t.dpb.entries);
        },
        Err(_) => {},
    }
}

/// The memory management control operations owe nothing more and nothing less.
pub proof fn memory_management_loses_no_picture(s: Marking, ops: Seq<RefPicMarkingInner>)
    ensures
        pending(mmco::all_operated(s, ops).0.dpb.entries) == pending(s.dpb.entries),
    decreases ops.len(),
{
    if ops.len() > 0 && ops[0].memory_management_control_operation != 0 {
        match mmco::operated(s, ops[0]) {
            Ok(t) => {
                lemma_operated_pending(s, ops[0]);
                memory_management_loses_no_picture(t, ops.drop_first());
            },
            Err(_) => {},
        }
    }
}

/// Whether the entries of `s` are in output order.
pub open spec fn in_output_order(s: Seq<DpbEntry>) -> bool {
    forall|i: int, j: int|
        0 <= i < j < s.len() ==> (#[trigger] s[i]).pic.pic_order_cnt <= (#[trigger] s[j]).pic.pic_order_cnt
}

proof fn lemma_output_is_later(s: Seq<DpbEntry>, bound: i32)
    requires
        forall|i: int|
            0 <= i < s.len() && dpb::waiting(#[trigger] s[i]) ==> bound <= s[i].pic.pic_order_cnt,
    ensures
        forall|k: int|
            0 <= k < dpb::output_sequence(s).len() ==> bound <= (#[trigger] dpb::output_sequence(
                s,
            )[k]).pic.pic_order_cnt,
    decreases dpb::waiting_count(s),
{
    if dpb::any_waiting(s) {
        dpb::lemma_bump_counts_down(s);
        dpb::lemma_next_output_exists(s);
        let i = dpb::next_output(s);
        let t = dpb::after_bump(s);
        assert forall|k: int| 0 <= k < t.len() && dpb::waiting(#[trigger] t[k]) implies bound
            <= t[k].pic.pic_order_cnt by {
            if s[i].pic.spec_is_ref() {
                assert(k != i ==> t[k] == s[k]);
            } else if k < i {
                assert(t[k] == s[k]);
            } else {
                assert(t[k] == s[k + 1]);
            }
        }
        lemma_output_is_later(t, bound);
        assert forall|k: int| 0 <= k < dpb::output_sequence(s).len() implies bound <= (
        #[trigger] dpb::output_sequence(s)[k]).pic.pic_order_cnt by {
            if k > 0 {
                assert(dpb::output_sequence(s)[k] == dpb::output_sequence(t)[k - 1]);
            } else {
                assert(dpb::output_sequence(s)[0] == s[i]);
                assert(dpb::waiting(s[i]));
            }
        }
    }
}

/// A buffer is drained in order of picture order count.
pub proof fn draining_follows_output_order(s: Seq<DpbEntry>)
    ensures
        in_output_order(dpb::output_sequence(s)),
    decreases dpb::waiting_count(s),
{
    if dpb::any_waiting(s) {
        dpb::lemma_bump_counts_down(s);
        dpb::lemma_next_output_exists(s);
        let i = dpb::next_output(s);
        let t = dpb::after_bump(s);
        draining_follows_output_order(t);
        let bound = s[i].pic.pic_order_cnt;
        assert forall|k: int| 0 <= k < t.len() && dpb::waiting(#[trigger] t[k]) implies bound
            <= t[k].pic.pic_order_cnt by {
            if s[i].pic.spec_is_ref() {
                assert(t[k] == s[k]);
                assert(dpb::output_before(s, i, k));
            } else if k < i {
                assert(t[k] == s[k]);
                assert(dpb::output_before(s, i, k));
            } else {
                assert(t[k] == s[k + 1]);
                assert(dpb::output_before(s, i, k + 1));
            }
        }
        lemma_output_is_later(t, bound);
        let o = dpb::output_sequence(s);
        assert forall|a: int, b: int| 0 <= a < b < o.len() implies (
        #[trigger] o[a]).pic.pic_order_cnt <= (#[trigger] o[b]).pic.pic_order_cnt by {
            assert(o[b] == dpb::output_sequence(t)[b - 1]);
            if a > 0 {
                assert(o[a] == dpb::output_sequence(t)[a - 1]);
            } else {
                assert(o[0] == s[i]);
            }
        }
    }
}

/// Pictures pushed out to make room are the first in output order: what follows
/// them is what draining the rest would output.
pub proof fn bumping_follows_output_order(d: DpbState, pic: PictureData)
    ensures
        dpb::output_sequence(d.entries) == dpb::bumped(d, pic) + dpb::output_sequence(
            dpb::left_after_bumping(d, pic).entries,
        ),
    decreases dpb::waiting_count(d.entries),
{
    if d.bumps(pic) {
        dpb::lemma_bump_counts_down(d.entries);
        bumping_follows_output_order(d.bumped_once(), pic);
        let e = d.entries[dpb::next_output(d.entries)];
        let rest = dpb::bumped(d.bumped_once(), pic);
        let left = dpb::output_sequence(dpb::left_after_bumping(d, pic).entries);
        assert(seq![e] + (rest + left) =~= (seq![e] + rest) + left);
    } else {
        assert(Seq::<DpbEntry>::empty() + dpb::output_sequence(d.entries) =~= dpb::output_sequence(
            d.entries,
        ));
    }
}

/// An empty buffer has nothing to output.
pub proof fn draining_twice_outputs_nothing(d: DpbState)
    ensures
        dpb::handles(dpb::output_sequence(d.with(Seq::empty()).entries)) == Seq::<Handle>::empty(),
{
    let s = Seq::<DpbEntry>::empty();
    assert(!dpb::any_waiting(s));
    assert(dpb::output_sequence(s) =~= Seq::<DpbEntry>::empty());
    assert(dpb::handles(dpb::output_sequence(s)) =~= Seq::<Handle>::empty());
}

/// No picture is output before the one that needs its frame buffer: while one is
/// free, nothing leaves.
pub proof fn pictures_stay_while_a_buffer_is_free(d: DpbState, pic: PictureData)
    requires
        d.has_room(),
    ensures
        dpb::bumped(d, pic) == Seq::<DpbEntry>::empty(),
        dpb::left_after_bumping(d, pic) == d,
{
}

proof fn lemma_bumping_shrinks(d: DpbState, pic: PictureData)
    ensures
        dpb::left_after_bumping(d, pic).entries.len() <= d.entries.len(),
        dpb::left_after_bumping(d, pic).max_num_pics == d.max_num_pics,
    decreases dpb::waiting_count(d.entries),
{
    if d.bumps(pic) {
        dpb::lemma_bump_counts_down(d.entries);
        dpb::lemma_next_output_exists(d.entries);
        lemma_bumping_shrinks(d.bumped_once(), pic);
    }
}

proof fn lemma_sliding_keeps_length(s: Seq<DpbEntry>, max: nat)
    ensures
        dpb::slid(s, max).len() == s.len(),
    decreases dpb::reference_count(s),
{
    lemma_slid_alike(s, max);
}

proof fn lemma_operations_keep_length(s: Marking, ops: Seq<RefPicMarkingInner>)
    ensures
        mmco::all_operated(s, ops).0.dpb.entries.len() == s.dpb.entries.len(),
        mmco::all_operated(s, ops).0.dpb.max_num_pics == s.dpb.max_num_pics,
    decreases ops.len(),
{
    if ops.len() > 0 && ops[0].memory_management_control_operation != 0 {
        match mmco::operated(s, ops[0]) {
            Ok(t) => {
                lemma_operations_keep_length(t, ops.drop_first());
            },
            Err(_) => {},
        }
    }
}

/// Nothing but storing a picture takes up a frame buffer.
pub proof fn only_storing_takes_a_buffer(
    d: DpbState,
    pic: PictureData,
    max: MaxLongTermFrameIdx,
    ops: Seq<RefPicMarkingInner>,
    frame_num: u32,
    max_frame_num: u32,
    max_num_ref_frames: u8,
)
    ensures
        d.pruned().entries.len() <= d.entries.len(),
        dpb::left_after_bumping(d.pruned(), pic).entries.len() <= d.entries.len(),
        dpb::left_after_bumping(d.pruned(), pic).max_num_pics == d.max_num_pics,
        d.renumbered(frame_num, max_frame_num).entries.len() == d.entries.len(),
        d.all_unused().entries.len() == d.entries.len(),
        d.slid(max_num_ref_frames).entries.len() == d.entries.len(),
        mmco::all_operated(
            Marking { dpb: d, pic, max_long_term_frame_idx: max },
            ops,
        ).0.dpb.entries.len() == d.entries.len(),
        mmco::all_operated(
            Marking { dpb: d, pic, max_long_term_frame_idx: max },
            ops,
        ).0.dpb.max_num_pics == d.max_num_pics,
{
    d.entries.lemma_filter_len(|e: DpbEntry| dpb::in_use(e));
    lemma_bumping_shrinks(d.pruned(), pic);
    lemma_sliding_keeps_length(
        d.entries,
        if max_num_ref_frames == 0 {
            1
        } else {
            max_num_ref_frames as nat
        },
    );
    lemma_operations_keep_length(
        Marking { dpb: d, pic, max_long_term_frame_idx: max },
        ops,
    );
}

pub proof fn lemma_bumping_ends(d: DpbState, pic: PictureData)
    ensures
        !dpb::left_after_bumping(d, pic).bumps(pic),
        dpb::left_after_bumping(d, pic).max_num_pics == d.max_num_pics,
        dpb::left_after_bumping(d, pic).max_num_reorder_frames == d.max_num_reorder_frames,
    decreases dpb::waiting_count(d.entries),
{
    if d.bumps(pic) {
        dpb::lemma_bump_counts_down(d.entries);
        lemma_bumping_ends(d.bumped_once(), pic);
    }
}

/// A picture that finds no room, and so is output at once, comes before every
/// picture left waiting.
pub proof fn direct_output_keeps_the_order(d: DpbState, pic: PictureData)
    requires
        !pic.spec_is_ref(),
        d.max_num_reorder_frames <= d.max_num_pics,
        !dpb::left_after_bumping(d, pic).has_room(),
    ensures
        forall|i: int|
            0 <= i < dpb::left_after_bumping(d, pic).entries.len() && dpb::waiting(
                #[trigger] dpb::left_after_bumping(d, pic).entries[i],
            ) ==> pic.pic_order_cnt <= dpb::left_after_bumping(
                d,
                pic,
            ).entries[i].pic.pic_order_cnt,
{
    lemma_bumping_ends(d, pic);
    let s = dpb::left_after_bumping(d, pic).entries;
    if dpb::any_waiting(s) {
        dpb::lemma_next_output_exists(s);
    }
}

////// Which pictures the buffer holds

/// The pictures in the entries `s`, whether still to be output or not; an invented
/// picture is none.
pub open spec fn held(s: Seq<DpbEntry>) -> Multiset<Handle>
    decreases s.len(),
{
    if s.len() == 0 {
        Multiset::empty()
    } else {
        held(s.drop_last()).add(
            match s.last().reference {
                Some(h) => Multiset::singleton(h),
                None => Multiset::empty(),
            },
        )
    }
}

/// Whether the entries `s` and `t` hold the same pictures, one by one.
pub open spec fn holds_alike(s: Seq<DpbEntry>, t: Seq<DpbEntry>) -> bool {
    &&& s.len() == t.len()
    &&& forall|i: int| 0 <= i < s.len() ==> (#[trigger] s[i]).reference == t[i].reference
}

proof fn lemma_held_alike(s: Seq<DpbEntry>, t: Seq<DpbEntry>)
    requires
        holds_alike(s, t),
    ensures
        held(s) == held(t),
    decreases s.len(),
{
    if s.len() > 0 {
        assert forall|i: int| 0 <= i < s.drop_last().len() implies (
        #[trigger] s.drop_last()[i]).reference == t.drop_last()[i].reference by {
            assert(s[i].reference == t[i].reference);
        }
        lemma_held_alike(s.drop_last(), t.drop_last());
        assert(s[s.len() - 1].reference == t[s.len() - 1].reference);
    }
}

proof fn lemma_held_remove(s: Seq<DpbEntry>, i: int)
    requires
        0 <= i < s.len(),
    ensures
        held(s.remove(i)).subset_of(held(s)),
    decreases s.len(),
{
    if i == s.len() - 1 {
        assert(s.remove(i) =~= s.drop_last());
    } else {
        lemma_held_remove(s.drop_last(), i);
        assert(s.remove(i).drop_last() =~= s.drop_last().remove(i));
        assert(s.remove(i).last() == s.last());
    }
}

proof fn lemma_bumping_holds_no_more(d: DpbState, pic: PictureData)
    ensures
        held(dpb::left_after_bumping(d, pic).entries).subset_of(held(d.entries)),
    decreases dpb::waiting_count(d.entries),
{
    if d.bumps(pic) {
        let s = d.entries;
        dpb::lemma_bump_counts_down(s);
        dpb::lemma_next_output_exists(s);
        let i = dpb::next_output(s);
        if s[i].pic.spec_is_ref() {
            lemma_held_alike(s, dpb::after_bump(s));
        } else {
            lemma_held_remove(s, i);
        }
        lemma_bumping_holds_no_more(d.bumped_once(), pic);
    }
}

proof fn lemma_pruning_holds_no_more(s: Seq<DpbEntry>)
    ensures
        held(s.filter(|e: DpbEntry| dpb::in_use(e))).subset_of(held(s)),
    decreases s.len(),
{
    let p = |e: DpbEntry| dpb::in_use(e);
    reveal(Seq::filter);
    if s.len() > 0 {
        lemma_pruning_holds_no_more(s.drop_last());
        let f = s.drop_last().filter(p);
        if dpb::in_use(s.last()) {
            assert(s.filter(p) == f.push(s.last()));
            assert(f.push(s.last()).drop_last() =~= f);
        } else {
            assert(s.filter(p) == f);
        }
    }
}

proof fn lemma_sliding_holds_alike(s: Seq<DpbEntry>, max: nat)
    ensures
        holds_alike(s, dpb::slid(s, max)),
    decreases dpb::reference_count(s),
{
    if dpb::reference_count(s) >= max && dpb::any_short_term(s) {
        dpb::lemma_oldest_exists(s);
        let i = dpb::oldest(s);
        let t = s.update(i, dpb::marked(s[i], Reference::Unused));
        dpb::lemma_reference_count_update(s, i, dpb::marked(s[i], Reference::Unused));
        lemma_sliding_holds_alike(t, max);
        assert forall|k: int| 0 <= k < s.len() implies (#[trigger] s[k]).reference == dpb::slid(
            s,
            max,
        )[k].reference by {
            assert(t[k].reference == dpb::slid(t, max)[k].reference);
        }
    }
}

proof fn lemma_operations_hold_alike(s: Marking, ops: Seq<RefPicMarkingInner>)
    ensures
        holds_alike(s.dpb.entries, mmco::all_operated(s, ops).0.dpb.entries),
    decreases ops.len(),
{
    if ops.len() > 0 && ops[0].memory_management_control_operation != 0 {
        match mmco::operated(s, ops[0]) {
            Ok(t) => {
                lemma_operations_hold_alike(t, ops.drop_first());
                let u = mmco::all_operated(t, ops.drop_first()).0.dpb.entries;
                assert(holds_alike(s.dpb.entries, t.dpb.entries));
                assert forall|k: int| 0 <= k < s.dpb.entries.len() implies (
                #[trigger] s.dpb.entries[k]).reference == u[k].reference by {
                    assert(s.dpb.entries[k].reference == t.dpb.entries[k].reference);
                    assert(t.dpb.entries[k].reference == u[k].reference);
                }
            },
            Err(_) => {},
        }
    }
}

/// Nothing but storing a picture brings one into the buffer.
pub proof fn only_storing_brings_a_picture(
    d: DpbState,
    pic: PictureData,
    max: MaxLongTermFrameIdx,
    ops: Seq<RefPicMarkingInner>,
    frame_num: u32,
    max_frame_num: u32,
    max_num_ref_frames: u8,
    reference: Option<Handle>,
)
    ensures
        held(dpb::left_after_bumping(d.pruned(), pic).entries).subset_of(held(d.entries)),
        held(d.renumbered(frame_num, max_frame_num).entries) == held(d.entries),
        held(d.all_unused().entries) == held(d.entries),
        held(d.slid(max_num_ref_frames).entries) == held(d.entries),
        held(
            mmco::all_operated(
                Marking { dpb: d, pic, max_long_term_frame_idx: max },
                ops,
            ).0.dpb.entries,
        ) == held(d.entries),
        held(d.stored(pic, reference).entries) == match reference {
            Some(h) => held(d.entries).insert(h),
            None => held(d.entries),
        },
{
    lemma_pruning_holds_no_more(d.entries);
    lemma_bumping_holds_no_more(d.pruned(), pic);
    lemma_held_alike(d.entries, d.renumbered(frame_num, max_frame_num).entries);
    lemma_held_alike(d.entries, d.all_unused().entries);
    lemma_sliding_holds_alike(
        d.entries,
        if max_num_ref_frames == 0 {
            1
        } else {
            max_num_ref_frames as nat
        },
    );
    lemma_held_alike(d.entries, d.slid(max_num_ref_frames).entries);
    let s = Marking { dpb: d, pic, max_long_term_frame_idx: max };
    lemma_operations_hold_alike(s, ops);
    lemma_held_alike(d.entries, mmco::all_operated(s, ops).0.dpb.entries);
    let t = d.stored(pic, reference).entries;
    assert(t.drop_last() =~= d.entries);
    assert(held(t) =~= match reference {
        Some(h) => held(d.entries).insert(h),
        None => held(d.entries),
    });
}

/// The pictures still to be output are among those the buffer holds.
pub proof fn pending_pictures_are_held(s: Seq<DpbEntry>)
    ensures
        pending(s).subset_of(held(s)),
    decreases s.len(),
{
    if s.len() > 0 {
        pending_pictures_are_held(s.drop_last());
    }
}

} // verus!
