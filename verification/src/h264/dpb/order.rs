//! The order pictures leave the buffer in, told from the entries alone.

use vstd::prelude::*;

use crate::h264::dpb;
use crate::h264::dpb::laws;
use crate::h264::dpb::mmco;
use crate::h264::dpb::mmco::Marking;
use crate::h264::dpb::{DpbEntry, DpbState};
use crate::h264::picture::{PictureData, Reference};
use crate::h264::syntax::RefPicMarkingInner;
use crate::surface::Handle;

verus! {

/// The pictures still to be output, in output order.
pub open spec fn outputs(s: Seq<DpbEntry>) -> Seq<Handle> {
    dpb::handles(dpb::output_sequence(s))
}

/// What the place of an entry in the output order depends on, and its picture.
pub struct Ticket {
    pub pic_order_cnt: i32,
    pub reference: Option<Handle>,
}

/// The ticket of `e`.
pub open spec fn ticket(e: DpbEntry) -> Ticket {
    Ticket { pic_order_cnt: e.pic.pic_order_cnt, reference: e.reference }
}

/// The queue `q` once `t` has joined it, behind everything that is not after it.
pub open spec fn joined(q: Seq<Ticket>, t: Ticket) -> Seq<Ticket>
    decreases q.len(),
{
    if q.len() == 0 || q.last().pic_order_cnt <= t.pic_order_cnt {
        q.push(t)
    } else {
        joined(q.drop_last(), t).push(q.last())
    }
}

/// The queue of the entries of `s` still to be output, joined in decoding order.
pub open spec fn queue(s: Seq<DpbEntry>) -> Seq<Ticket>
    decreases s.len(),
{
    if s.len() == 0 {
        Seq::empty()
    } else if dpb::waiting(s.last()) {
        joined(queue(s.drop_last()), ticket(s.last()))
    } else {
        queue(s.drop_last())
    }
}

/// The pictures of the queue `q`.
pub open spec fn pictures(q: Seq<Ticket>) -> Seq<Handle>
    decreases q.len(),
{
    if q.len() == 0 {
        Seq::empty()
    } else {
        match q[0].reference {
            Some(h) => seq![h] + pictures(q.drop_first()),
            None => pictures(q.drop_first()),
        }
    }
}

proof fn lemma_joins_behind(k: Ticket, q: Seq<Ticket>, t: Ticket)
    requires
        k.pic_order_cnt <= t.pic_order_cnt,
    ensures
        joined(seq![k] + q, t) == seq![k] + joined(q, t),
    decreases q.len(),
{
    let all = seq![k] + q;
    if q.len() == 0 {
        assert(all =~= seq![k]);
        assert(joined(all, t) =~= seq![k] + joined(q, t));
    } else {
        assert(all.last() == q.last());
        assert(all.drop_last() =~= seq![k] + q.drop_last());
        if q.last().pic_order_cnt > t.pic_order_cnt {
            lemma_joins_behind(k, q.drop_last(), t);
        }
        assert(joined(all, t) =~= seq![k] + joined(q, t));
    }
}

proof fn lemma_joins_first(q: Seq<Ticket>, t: Ticket)
    requires
        forall|i: int| 0 <= i < q.len() ==> t.pic_order_cnt < (#[trigger] q[i]).pic_order_cnt,
    ensures
        joined(q, t) == seq![t] + q,
    decreases q.len(),
{
    if q.len() > 0 {
        lemma_joins_first(q.drop_last(), t);
    }
    assert(joined(q, t) =~= seq![t] + q);
}

/// A bound on the tickets of the entries still to be output bounds the queue.
proof fn lemma_queue_bounded(s: Seq<DpbEntry>, low: int, high: int)
    requires
        forall|i: int|
            0 <= i < s.len() && dpb::waiting(#[trigger] s[i]) ==> low <= s[i].pic.pic_order_cnt
                <= high,
    ensures
        forall|i: int|
            0 <= i < queue(s).len() ==> low <= (#[trigger] queue(s)[i]).pic_order_cnt <= high,
    decreases s.len(),
{
    if s.len() > 0 {
        let rest = s.drop_last();
        assert forall|i: int| 0 <= i < rest.len() && dpb::waiting(#[trigger] rest[i]) implies low
            <= rest[i].pic.pic_order_cnt <= high by {
            assert(rest[i] == s[i]);
        }
        lemma_queue_bounded(rest, low, high);
        if dpb::waiting(s.last()) {
            assert(dpb::waiting(s[s.len() - 1]));
            lemma_joined_bounded(queue(rest), ticket(s.last()), low, high);
        }
    }
}

proof fn lemma_joined_bounded(q: Seq<Ticket>, t: Ticket, low: int, high: int)
    requires
        low <= t.pic_order_cnt <= high,
        forall|i: int| 0 <= i < q.len() ==> low <= (#[trigger] q[i]).pic_order_cnt <= high,
    ensures
        forall|i: int|
            0 <= i < joined(q, t).len() ==> low <= (#[trigger] joined(q, t)[i]).pic_order_cnt
                <= high,
    decreases q.len(),
{
    if q.len() > 0 && q.last().pic_order_cnt > t.pic_order_cnt {
        lemma_joined_bounded(q.drop_last(), t, low, high);
    }
}

/// The entry to be output next is the first of the queue, and outputting it takes it
/// from there.
proof fn lemma_queue_bumps(s: Seq<DpbEntry>, i: int)
    requires
        dpb::is_next_output(s, i),
    ensures
        queue(s) == seq![ticket(s[i])] + queue(
            if s[i].pic.spec_is_ref() {
                s.update(i, dpb::shown(s[i]))
            } else {
                s.remove(i)
            },
        ),
    decreases s.len(),
{
    let left = if s[i].pic.spec_is_ref() {
        s.update(i, dpb::shown(s[i]))
    } else {
        s.remove(i)
    };
    let rest = s.drop_last();
    let last = s.len() - 1;
    if i == last {
        if s[i].pic.spec_is_ref() {
            assert(left.drop_last() =~= rest);
        } else {
            assert(left =~= rest);
        }
        assert(queue(left) == queue(rest));
        let bound = s[i].pic.pic_order_cnt as int;
        assert forall|j: int| 0 <= j < rest.len() && dpb::waiting(#[trigger] rest[j]) implies bound
            + 1 <= rest[j].pic.pic_order_cnt <= i32::MAX by {
            assert(rest[j] == s[j]);
            assert(dpb::output_before(s, i, j));
        }
        lemma_queue_bounded(rest, bound + 1, i32::MAX as int);
        lemma_joins_first(queue(rest), ticket(s[i]));
    } else {
        assert forall|j: int| 0 <= j < rest.len() && dpb::waiting(
            #[trigger] rest[j],
        ) implies dpb::output_before(rest, i, j) by {
            assert(rest[j] == s[j]);
            assert(dpb::output_before(s, i, j));
        }
        assert(dpb::is_next_output(rest, i));
        lemma_queue_bumps(rest, i);
        let rest_left = if s[i].pic.spec_is_ref() {
            rest.update(i, dpb::shown(rest[i]))
        } else {
            rest.remove(i)
        };
        assert(left.drop_last() =~= rest_left);
        assert(left.last() == s.last());
        if dpb::waiting(s.last()) {
            assert(dpb::waiting(s[last]));
            assert(dpb::output_before(s, i, last));
            lemma_joins_behind(ticket(s[i]), queue(rest_left), ticket(s.last()));
        }
    }
}

/// The pictures leave in the order of the queue.
pub proof fn outputs_follow_the_queue(s: Seq<DpbEntry>)
    ensures
        outputs(s) == pictures(queue(s)),
    decreases dpb::waiting_count(s),
{
    if dpb::any_waiting(s) {
        dpb::lemma_bump_counts_down(s);
        dpb::lemma_next_output_exists(s);
        let i = dpb::next_output(s);
        let left = dpb::after_bump(s);
        outputs_follow_the_queue(left);
        lemma_queue_bumps(s, i);
        let o = dpb::output_sequence(s);
        assert(o.drop_first() =~= dpb::output_sequence(left));
        assert(queue(s).drop_first() =~= queue(left));
        assert(o[0] == s[i]);
        assert(queue(s)[0] == ticket(s[i]));
    } else {
        lemma_empty_queue(s);
    }
}

pub proof fn lemma_empty_queue(s: Seq<DpbEntry>)
    requires
        !dpb::any_waiting(s),
    ensures
        queue(s).len() == 0,
    decreases s.len(),
{
    if s.len() > 0 {
        let rest = s.drop_last();
        assert(!dpb::waiting(s[s.len() - 1]));
        assert forall|i: int| 0 <= i < rest.len() implies !dpb::waiting(#[trigger] rest[i]) by {
            assert(!dpb::waiting(s[i]));
        }
        lemma_empty_queue(rest);
    }
}

////// What leaves the order alone

/// Whether the entries of `s` and `t` wait alike, for the same output.
pub open spec fn waits_alike(s: Seq<DpbEntry>, t: Seq<DpbEntry>) -> bool {
    &&& s.len() == t.len()
    &&& forall|i: int|
        0 <= i < s.len() ==> dpb::waiting(#[trigger] s[i]) == dpb::waiting(t[i]) && ticket(s[i])
            == ticket(t[i])
}

pub proof fn lemma_queues_alike(s: Seq<DpbEntry>, t: Seq<DpbEntry>)
    requires
        waits_alike(s, t),
    ensures
        queue(s) == queue(t),
    decreases s.len(),
{
    if s.len() > 0 {
        let (a, b) = (s.drop_last(), t.drop_last());
        assert forall|i: int| 0 <= i < a.len() implies dpb::waiting(#[trigger] a[i])
            == dpb::waiting(b[i]) && ticket(a[i]) == ticket(b[i]) by {
            assert(a[i] == s[i]);
        }
        lemma_queues_alike(a, b);
        assert(ticket(s[s.len() - 1]) == ticket(t[s.len() - 1]));
    }
}

/// Entries that wait alike leave alike.
pub proof fn waiting_alike_leaves_alike(s: Seq<DpbEntry>, t: Seq<DpbEntry>)
    requires
        waits_alike(s, t),
    ensures
        outputs(s) == outputs(t),
{
    lemma_queues_alike(s, t);
    outputs_follow_the_queue(s);
    outputs_follow_the_queue(t);
}

/// Dropping the entries nothing needs leaves the order alone.
pub proof fn pruning_keeps_the_order(d: DpbState)
    ensures
        outputs(d.pruned().entries) == outputs(d.entries),
{
    lemma_pruned_queue(d);
    outputs_follow_the_queue(d.pruned().entries);
    outputs_follow_the_queue(d.entries);
}

pub proof fn lemma_pruned_queue(d: DpbState)
    ensures
        queue(d.pruned().entries) == queue(d.entries),
    decreases d.entries.len(),
{
    let p = |e: DpbEntry| dpb::in_use(e);
    let s = d.entries;
    reveal(Seq::filter);
    if s.len() > 0 {
        lemma_pruned_queue(d.with(s.drop_last()));
        let f = s.drop_last().filter(p);
        if dpb::in_use(s.last()) {
            assert(s.filter(p) == f.push(s.last()));
            assert(f.push(s.last()).drop_last() =~= f);
        } else {
            assert(s.filter(p) == f);
        }
    }
}

proof fn lemma_sliding_waits_alike(s: Seq<DpbEntry>, max: nat)
    ensures
        waits_alike(s, dpb::slid(s, max)),
    decreases dpb::reference_count(s),
{
    if dpb::reference_count(s) >= max && dpb::any_short_term(s) {
        dpb::lemma_oldest_exists(s);
        let i = dpb::oldest(s);
        let e = dpb::marked(s[i], Reference::Unused);
        let t = s.update(i, e);
        dpb::lemma_reference_count_update(s, i, e);
        lemma_sliding_waits_alike(t, max);
        assert forall|k: int| 0 <= k < s.len() implies dpb::waiting(#[trigger] s[k])
            == dpb::waiting(dpb::slid(s, max)[k]) && ticket(s[k]) == ticket(
            dpb::slid(s, max)[k],
        ) by {
            assert(ticket(t[k]) == ticket(dpb::slid(t, max)[k]));
        }
    }
}

proof fn lemma_operations_wait_alike(s: Marking, ops: Seq<RefPicMarkingInner>)
    ensures
        waits_alike(s.dpb.entries, mmco::all_operated(s, ops).0.dpb.entries),
        mmco::all_operated(s, ops).0.pic.has_mmco_5 || mmco::all_operated(
            s,
            ops,
        ).0.pic.pic_order_cnt == s.pic.pic_order_cnt,
        s.pic.has_mmco_5 ==> mmco::all_operated(s, ops).0.pic.has_mmco_5,
        mmco::all_operated(s, ops).0.pic.is_idr == s.pic.is_idr,
        mmco::all_operated(s, ops).0.dpb.max_num_pics == s.dpb.max_num_pics,
        mmco::all_operated(s, ops).0.dpb.max_num_reorder_frames == s.dpb.max_num_reorder_frames,
    decreases ops.len(),
{
    if ops.len() > 0 && ops[0].memory_management_control_operation != 0 {
        match mmco::operated(s, ops[0]) {
            Ok(t) => {
                lemma_operations_wait_alike(t, ops.drop_first());
                let u = mmco::all_operated(t, ops.drop_first()).0.dpb.entries;
                assert(waits_alike(s.dpb.entries, t.dpb.entries));
                assert forall|k: int| 0 <= k < s.dpb.entries.len() implies dpb::waiting(
                    #[trigger] s.dpb.entries[k],
                ) == dpb::waiting(u[k]) && ticket(s.dpb.entries[k]) == ticket(u[k]) by {
                    assert(ticket(t.dpb.entries[k]) == ticket(u[k]));
                }
            },
            Err(_) => {},
        }
    }
}

/// Numbering, unmarking, sliding the window, and the memory management control
/// operations leave waiting what waits.
pub proof fn marking_keeps_what_waits(
    s: Marking,
    ops: Seq<RefPicMarkingInner>,
    frame_num: u32,
    max_frame_num: u32,
    max_num_ref_frames: u8,
)
    ensures
        waits_alike(s.dpb.entries, s.dpb.renumbered(frame_num, max_frame_num).entries),
        waits_alike(s.dpb.entries, s.dpb.all_unused().entries),
        waits_alike(s.dpb.entries, s.dpb.slid(max_num_ref_frames).entries),
        waits_alike(s.dpb.entries, mmco::all_operated(s, ops).0.dpb.entries),
        mmco::all_operated(s, ops).0.pic.has_mmco_5 || mmco::all_operated(
            s,
            ops,
        ).0.pic.pic_order_cnt == s.pic.pic_order_cnt,
        mmco::all_operated(s, ops).0.pic.is_idr == s.pic.is_idr,
        mmco::all_operated(s, ops).0.dpb.max_num_pics == s.dpb.max_num_pics,
        mmco::all_operated(s, ops).0.dpb.max_num_reorder_frames == s.dpb.max_num_reorder_frames,
{
    lemma_sliding_waits_alike(
        s.dpb.entries,
        if max_num_ref_frames == 0 {
            1
        } else {
            max_num_ref_frames as nat
        },
    );
    lemma_operations_wait_alike(s, ops);
}

/// Making room outputs the first of the order and leaves the rest of it.
pub proof fn bumping_keeps_the_order(d: DpbState, pic: PictureData)
    ensures
        outputs(d.entries) == dpb::handles(dpb::bumped(d, pic)) + outputs(
            dpb::left_after_bumping(d, pic).entries,
        ),
{
    laws::bumping_follows_output_order(d, pic);
    lemma_handles_concat(
        dpb::bumped(d, pic),
        dpb::output_sequence(dpb::left_after_bumping(d, pic).entries),
    );
}

proof fn lemma_handles_concat(s: Seq<DpbEntry>, t: Seq<DpbEntry>)
    ensures
        dpb::handles(s + t) == dpb::handles(s) + dpb::handles(t),
    decreases s.len(),
{
    if s.len() == 0 {
        assert(s + t =~= t);
        assert(dpb::handles(s) + dpb::handles(t) =~= dpb::handles(t));
    } else {
        assert((s + t).drop_first() =~= s.drop_first() + t);
        lemma_handles_concat(s.drop_first(), t);
        assert(dpb::handles(s + t) =~= dpb::handles(s) + dpb::handles(t));
    }
}

////// What joins the order

/// Whether every entry of `s` still to be output comes before `pic_order_cnt`.
pub open spec fn waits_before(s: Seq<DpbEntry>, pic_order_cnt: int) -> bool {
    forall|i: int|
        0 <= i < s.len() && dpb::waiting(#[trigger] s[i]) ==> s[i].pic.pic_order_cnt
            < pic_order_cnt
}

proof fn lemma_pictures_push(q: Seq<Ticket>, t: Ticket)
    ensures
        pictures(q.push(t)) == match t.reference {
            Some(h) => pictures(q).push(h),
            None => pictures(q),
        },
    decreases q.len(),
{
    let all = q.push(t);
    if q.len() == 0 {
        assert(all.drop_first() =~= Seq::<Ticket>::empty());
        assert(pictures(all.drop_first()) =~= Seq::<Handle>::empty());
        match t.reference {
            Some(h) => {
                assert(pictures(all) =~= pictures(q).push(h));
            },
            None => {},
        }
    } else {
        assert(all.drop_first() =~= q.drop_first().push(t));
        lemma_pictures_push(q.drop_first(), t);
        match t.reference {
            Some(h) => {
                assert(pictures(all) =~= pictures(q).push(h));
            },
            None => {},
        }
    }
}

/// A picture that comes after everything waiting leaves last.
pub proof fn later_pictures_leave_last(d: DpbState, pic: PictureData, handle: Handle)
    requires
        !pic.nonexisting,
        waits_before(d.entries, pic.pic_order_cnt as int),
    ensures
        outputs(d.stored(pic, Some(handle)).entries) == outputs(d.entries).push(handle),
{
    let t = d.stored(pic, Some(handle)).entries;
    outputs_follow_the_queue(d.entries);
    outputs_follow_the_queue(t);
    assert(t.drop_last() =~= d.entries);
    assert forall|i: int| 0 <= i < d.entries.len() && dpb::waiting(
        #[trigger] d.entries[i],
    ) implies i32::MIN <= d.entries[i].pic.pic_order_cnt <= pic.pic_order_cnt by {}
    lemma_queue_bounded(d.entries, i32::MIN as int, pic.pic_order_cnt as int);
    lemma_pictures_push(queue(d.entries), ticket(t.last()));
}

/// An invented picture leaves the order alone.
pub proof fn invented_pictures_take_no_place(d: DpbState, pic: PictureData)
    requires
        pic.nonexisting,
    ensures
        outputs(d.stored(pic, None).entries) == outputs(d.entries),
        queue(d.stored(pic, None).entries) == queue(d.entries),
{
    let t = d.stored(pic, None).entries;
    outputs_follow_the_queue(d.entries);
    outputs_follow_the_queue(t);
    assert(t.drop_last() =~= d.entries);
}

/// Making room leaves nothing waiting that was not.
pub proof fn bumping_waits_for_no_more(d: DpbState, pic: PictureData, pic_order_cnt: int)
    requires
        waits_before(d.entries, pic_order_cnt),
    ensures
        waits_before(d.pruned().entries, pic_order_cnt),
        waits_before(dpb::left_after_bumping(d.pruned(), pic).entries, pic_order_cnt),
{
    let p = |e: DpbEntry| dpb::in_use(e);
    let f = d.entries.filter(p);
    assert forall|i: int| 0 <= i < f.len() && dpb::waiting(#[trigger] f[i]) implies
        f[i].pic.pic_order_cnt < pic_order_cnt by {
        d.entries.lemma_filter_contains_rev(p, f[i]);
        assert(d.entries.contains(f[i]));
        let k = choose|k: int| 0 <= k < d.entries.len() && d.entries[k] == f[i];
        assert(dpb::waiting(d.entries[k]));
    }
    lemma_bumped_waits_before(d.pruned(), pic, pic_order_cnt);
}

proof fn lemma_bumped_waits_before(d: DpbState, pic: PictureData, pic_order_cnt: int)
    requires
        waits_before(d.entries, pic_order_cnt),
    ensures
        waits_before(dpb::left_after_bumping(d, pic).entries, pic_order_cnt),
    decreases dpb::waiting_count(d.entries),
{
    if d.bumps(pic) {
        dpb::lemma_bump_counts_down(d.entries);
        dpb::lemma_next_output_exists(d.entries);
        let s = d.entries;
        let i = dpb::next_output(s);
        let t = dpb::after_bump(s);
        assert forall|k: int| 0 <= k < t.len() && dpb::waiting(#[trigger] t[k]) implies
            t[k].pic.pic_order_cnt < pic_order_cnt by {
            if s[i].pic.spec_is_ref() || k < i {
                assert(dpb::waiting(s[k]));
            } else {
                assert(dpb::waiting(s[k + 1]));
            }
        }
        lemma_bumped_waits_before(d.bumped_once(), pic, pic_order_cnt);
    }
}

/// A picture that comes after everything waiting and yet finds no room leaves nothing
/// waiting behind.
pub proof fn later_pictures_find_nothing_waiting(d: DpbState, pic: PictureData)
    requires
        !pic.spec_is_ref(),
        d.max_num_reorder_frames <= d.max_num_pics,
        waits_before(d.entries, pic.pic_order_cnt as int),
        !dpb::left_after_bumping(d.pruned(), pic).has_room(),
    ensures
        outputs(dpb::left_after_bumping(d.pruned(), pic).entries) == Seq::<Handle>::empty(),
{
    bumping_waits_for_no_more(d, pic, pic.pic_order_cnt as int);
    laws::direct_output_keeps_the_order(d.pruned(), pic);
    let s = dpb::left_after_bumping(d.pruned(), pic).entries;
    if dpb::any_waiting(s) {
        let i = choose|i: int| 0 <= i < s.len() && dpb::waiting(#[trigger] s[i]);
        assert(dpb::waiting(s[i]));
    }
}

/// Where every entry waits with a picture, every one of them is output.
pub proof fn full_buffers_output_every_entry(s: Seq<DpbEntry>)
    requires
        forall|i: int| 0 <= i < s.len() ==> dpb::waiting(#[trigger] s[i]) && s[i].reference is Some,
    ensures
        outputs(s).len() == s.len(),
{
    outputs_follow_the_queue(s);
    lemma_full_queue(s);
    lemma_pictures_counted(queue(s));
}

proof fn lemma_full_queue(s: Seq<DpbEntry>)
    requires
        forall|i: int| 0 <= i < s.len() ==> dpb::waiting(#[trigger] s[i]) && s[i].reference is Some,
    ensures
        queue(s).len() == s.len(),
        forall|i: int| 0 <= i < queue(s).len() ==> (#[trigger] queue(s)[i]).reference is Some,
    decreases s.len(),
{
    if s.len() > 0 {
        let rest = s.drop_last();
        assert forall|i: int| 0 <= i < rest.len() implies dpb::waiting(#[trigger] rest[i])
            && rest[i].reference is Some by {
            assert(rest[i] == s[i]);
        }
        lemma_full_queue(rest);
        assert(dpb::waiting(s[s.len() - 1]));
        lemma_joined_full(queue(rest), ticket(s.last()));
    }
}

proof fn lemma_joined_full(q: Seq<Ticket>, t: Ticket)
    requires
        t.reference is Some,
        forall|i: int| 0 <= i < q.len() ==> (#[trigger] q[i]).reference is Some,
    ensures
        joined(q, t).len() == q.len() + 1,
        forall|i: int| 0 <= i < joined(q, t).len() ==> (#[trigger] joined(q, t)[i]).reference is Some,
    decreases q.len(),
{
    if q.len() > 0 && q.last().pic_order_cnt > t.pic_order_cnt {
        lemma_joined_full(q.drop_last(), t);
    }
}

proof fn lemma_pictures_counted(q: Seq<Ticket>)
    requires
        forall|i: int| 0 <= i < q.len() ==> (#[trigger] q[i]).reference is Some,
    ensures
        pictures(q).len() == q.len(),
    decreases q.len(),
{
    if q.len() > 0 {
        lemma_pictures_counted(q.drop_first());
    }
}

////// The order of the queue

/// The tickets of the entries `s`, in order.
pub open spec fn tickets(s: Seq<DpbEntry>) -> Seq<Ticket> {
    s.map_values(|e: DpbEntry| ticket(e))
}

/// Whether `a` is the end of `b`.
pub open spec fn is_end_of(a: Seq<Ticket>, b: Seq<Ticket>) -> bool {
    a.len() <= b.len() && a == b.skip(b.len() - a.len())
}

/// Whether the counts of `q` ascend.
pub open spec fn ascends(q: Seq<Ticket>) -> bool {
    forall|i: int, j: int|
        0 <= i < j < q.len() ==> (#[trigger] q[i]).pic_order_cnt < (#[trigger] q[j]).pic_order_cnt
}

/// The end of an end is an end.
pub proof fn lemma_ends(a: Seq<Ticket>, b: Seq<Ticket>, c: Seq<Ticket>)
    requires
        is_end_of(a, b),
        is_end_of(b, c),
    ensures
        is_end_of(a, c),
{
    assert(a =~= c.skip(c.len() - a.len()));
}

/// Making room takes the first of the queue.
pub proof fn bumping_takes_the_first(d: DpbState, pic: PictureData)
    ensures
        queue(d.entries) == tickets(dpb::bumped(d, pic)) + queue(
            dpb::left_after_bumping(d, pic).entries,
        ),
    decreases dpb::waiting_count(d.entries),
{
    let gone = dpb::bumped(d, pic);
    if d.bumps(pic) {
        dpb::lemma_bump_counts_down(d.entries);
        dpb::lemma_next_output_exists(d.entries);
        let e = d.entries[dpb::next_output(d.entries)];
        let rest = dpb::bumped(d.bumped_once(), pic);
        bumping_takes_the_first(d.bumped_once(), pic);
        lemma_queue_bumps(d.entries, dpb::next_output(d.entries));
        assert(tickets(gone) =~= seq![ticket(e)] + tickets(rest));
        let left = queue(dpb::left_after_bumping(d, pic).entries);
        assert(seq![ticket(e)] + (tickets(rest) + left) =~= (seq![ticket(e)] + tickets(rest))
            + left);
    } else {
        assert(tickets(gone) + queue(d.entries) =~= queue(d.entries));
    }
}

/// The pictures of two queues, one after the other.
pub proof fn lemma_pictures_concat(a: Seq<Ticket>, b: Seq<Ticket>)
    ensures
        pictures(a + b) == pictures(a) + pictures(b),
    decreases a.len(),
{
    if a.len() == 0 {
        assert(a + b =~= b);
        assert(pictures(a) + pictures(b) =~= pictures(b));
    } else {
        assert((a + b).drop_first() =~= a.drop_first() + b);
        lemma_pictures_concat(a.drop_first(), b);
        assert(pictures(a + b) =~= pictures(a) + pictures(b));
    }
}

/// The pictures of entries are those of their tickets.
pub proof fn lemma_pictures_of_entries(s: Seq<DpbEntry>)
    ensures
        pictures(tickets(s)) == dpb::handles(s),
    decreases s.len(),
{
    if s.len() > 0 {
        assert(tickets(s).drop_first() =~= tickets(s.drop_first()));
        lemma_pictures_of_entries(s.drop_first());
    }
}

/// What comes after all of `a` joins behind it.
pub proof fn lemma_joins_after(a: Seq<Ticket>, q: Seq<Ticket>, t: Ticket)
    requires
        forall|i: int| 0 <= i < a.len() ==> (#[trigger] a[i]).pic_order_cnt < t.pic_order_cnt,
    ensures
        joined(a + q, t) == a + joined(q, t),
    decreases a.len(),
{
    if a.len() == 0 {
        assert(a + q =~= q);
        assert(a + joined(q, t) =~= joined(q, t));
    } else {
        let rest = a.drop_first();
        assert(a + q =~= seq![a[0]] + (rest + q));
        lemma_joins_behind(a[0], rest + q, t);
        lemma_joins_after(rest, q, t);
        assert(seq![a[0]] + (rest + joined(q, t)) =~= a + joined(q, t));
    }
}

/// What comes before all of `q` joins in front of it.
pub proof fn lemma_joins_in_front(q: Seq<Ticket>, t: Ticket)
    requires
        forall|i: int| 0 <= i < q.len() ==> t.pic_order_cnt < (#[trigger] q[i]).pic_order_cnt,
    ensures
        joined(q, t) == seq![t] + q,
{
    lemma_joins_first(q, t);
}

/// A queue that ascends goes on ascending, where the counts differ.
pub proof fn joining_keeps_the_order(q: Seq<Ticket>, t: Ticket)
    requires
        ascends(q),
        forall|i: int| 0 <= i < q.len() ==> (#[trigger] q[i]).pic_order_cnt != t.pic_order_cnt,
    ensures
        ascends(joined(q, t)),
        joined(q, t).len() == q.len() + 1,
        forall|i: int|
            0 <= i < joined(q, t).len() ==> q.contains(#[trigger] joined(q, t)[i]) || joined(
                q,
                t,
            )[i] == t,
    decreases q.len(),
{
    if q.len() > 0 {
        let rest = q.drop_last();
        let last = q[q.len() - 1];
        if last.pic_order_cnt > t.pic_order_cnt {
            joining_keeps_the_order(rest, t);
            let j = joined(rest, t);
            assert forall|i: int| 0 <= i < j.len() implies (#[trigger] j[i]).pic_order_cnt
                < last.pic_order_cnt && (q.contains(j[i]) || j[i] == t) by {
                if rest.contains(j[i]) {
                    let k = choose|k: int| 0 <= k < rest.len() && rest[k] == j[i];
                    assert(q[k] == j[i]);
                }
            }
            assert(q.contains(last));
        } else {
            assert forall|i: int| 0 <= i < q.len() implies q.contains(#[trigger] q[i]) by {}
        }
    }
}

/// An empty queue leaves nothing waiting.
pub proof fn lemma_nothing_queued(s: Seq<DpbEntry>)
    requires
        queue(s).len() == 0,
    ensures
        !dpb::any_waiting(s),
{
    if dpb::any_waiting(s) {
        dpb::lemma_next_output_exists(s);
        lemma_queue_bumps(s, dpb::next_output(s));
    }
}

/// Where nothing waits before `pic_order_cnt`, nothing is queued before it.
pub proof fn lemma_queued_from(s: Seq<DpbEntry>, pic_order_cnt: i32)
    requires
        forall|i: int|
            0 <= i < s.len() && dpb::waiting(#[trigger] s[i]) ==> pic_order_cnt
                <= s[i].pic.pic_order_cnt,
    ensures
        forall|i: int|
            0 <= i < queue(s).len() ==> pic_order_cnt <= (#[trigger] queue(s)[i]).pic_order_cnt,
{
    assert forall|i: int| 0 <= i < s.len() && dpb::waiting(#[trigger] s[i]) implies pic_order_cnt
        <= s[i].pic.pic_order_cnt <= i32::MAX by {}
    lemma_queue_bounded(s, pic_order_cnt as int, i32::MAX as int);
}

} // verus!
