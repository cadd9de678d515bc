//! Which surfaces the decoder's pictures are in: no two pictures share one, and an
//! exported one is the caller's for good.

use std::rc::Rc;

use vstd::multiset::Multiset;
use vstd::prelude::*;

use crate::decode::laws;
use crate::decode::laws::Event;
use crate::decode::machine;
use crate::decode::machine::{CurrentPicture, Delivery, Output, Reply, Turn, Unit, Wait, Work};
use crate::decode::poc;
use crate::decode::sequence;
use crate::decode::sequence::SequenceState;
use crate::decode::state;
use crate::decode::state::MemoryState;
use crate::h264::dpb;
use crate::h264::dpb::laws as dpb_laws;
use crate::h264::dpb::DpbEntry;
use crate::h264::picture::PictureData;
use crate::h264::syntax::{Pps, RefPicMarking, Slice, Sps};
use crate::surface::Handle;
use crate::va::VaFailure;

verus! {

////// Where pictures are

/// The picture the driver is decoding, if any.
pub open spec fn in_flight(work: Work) -> Multiset<Handle> {
    match work {
        Work::Decoding { unit: _, wait: Wait::Picture { slice: _, current } }
        | Work::Decoding { unit: _, wait: Wait::Slice { current } }
        | Work::Decoding { unit: _, wait: Wait::Submit { current, .. } } => Multiset::singleton(
            current.handle,
        ),
        _ => Multiset::empty(),
    }
}

/// The pictures on their way out that have not been delivered yet.
pub open spec fn on_the_way(work: Work) -> Multiset<Handle> {
    match work {
        Work::Delivering(d) => d.handles@.skip(d.next as int).to_multiset(),
        _ => Multiset::empty(),
    }
}

/// The pictures that are yet to be delivered: in flight, in the buffer, in the ready
/// queue, or on their way out.
pub open spec fn undelivered(t: Turn) -> Multiset<Handle> {
    laws::owes(t.memory).add(in_flight(t.work)).add(on_the_way(t.work))
}

/// The pictures the decoder has any business with: those yet to be delivered, and
/// those the buffer keeps as references.
pub open spec fn has_picture(t: Turn, h: Handle) -> bool {
    undelivered(t).count(h) > 0 || dpb_laws::held(t.memory.dpb.entries).count(h) > 0
}

/// The surfaces of the pool of `sequence`.
pub open spec fn pool(sequence: Option<SequenceState>) -> Set<u32> {
    match sequence {
        Some(s) => s.surfaces.to_set(),
        None => Set::empty(),
    }
}

/// Whether `surface` belongs to the pool of the active sequence.
pub open spec fn pooled(m: MemoryState, surface: u32) -> bool {
    pool(m.sequence).contains(surface)
}

/// Whether no two pictures are in the same surface: neither in flight, in the buffer,
/// in the ready queue, nor on their way out.
pub open spec fn pictures_apart(t: Turn) -> bool {
    &&& forall|a: Handle, b: Handle|
        #[trigger] has_picture(t, a) && #[trigger] has_picture(t, b) && a.surface == b.surface
            ==> a == b
    &&& forall|h: Handle| #[trigger] undelivered(t).count(h) <= 1
    &&& forall|h: Handle| #[trigger] dpb_laws::held(t.memory.dpb.entries).count(h) <= 1
    &&& forall|h: Handle| #[trigger]
        in_flight(t.work).count(h) > 0 ==> dpb_laws::held(t.memory.dpb.entries).count(h) == 0
}

////// What the operations on the memory do

/// Whether `n` has no picture that `m` has not, nor another pool.
spec fn no_more(m: MemoryState, n: MemoryState) -> bool {
    &&& laws::owes(n).subset_of(laws::owes(m))
    &&& dpb_laws::held(n.dpb.entries).subset_of(dpb_laws::held(m.dpb.entries))
    &&& same_pool(m, n)
}

/// Whether the pools of `m` and `n` have the same surfaces.
pub open spec fn same_pool(m: MemoryState, n: MemoryState) -> bool {
    &&& m.sequence is Some <==> n.sequence is Some
    &&& pool(n.sequence) == pool(m.sequence)
}

/// Giving surfaces back changes no more than the order they are used in.
pub proof fn freeing_keeps_the_pool(m: MemoryState, gone: Seq<Handle>)
    ensures
        same_pool(m, m.freed(gone)),
{
    match m.sequence {
        Some(s) => {
            sequence::pools_keep_what_is_given_back(s.surfaces, gone, m.dpb.entries, m.ready);
        },
        None => {},
    }
    assert(pool(m.freed(gone).sequence) =~= pool(m.sequence));
}

proof fn lemma_draining(m: MemoryState)
    ensures
        no_more(m, m.drained()),
        no_more(m, m.reset()),
{
    laws::draining_keeps_every_picture(m);
    let emptied = MemoryState {
        dpb: m.dpb.with(Seq::empty()),
        ready: m.ready + dpb::handles(dpb::output_sequence(m.dpb.entries)),
        ..m
    };
    freeing_keeps_the_pool(emptied, state::let_go(m.dpb.entries, true));
}

proof fn lemma_bumping(m: MemoryState, pic: PictureData)
    ensures
        no_more(m, m.bumped(pic)),
{
    laws::lemma_bumping_keeps(m, pic);
    dpb_laws::only_storing_brings_a_picture(
        m.dpb,
        pic,
        m.max_long_term_frame_idx,
        Seq::empty(),
        0,
        0,
        0,
        None,
    );
    let pushed = MemoryState {
        dpb: dpb::left_after_bumping(m.dpb.pruned(), pic),
        ready: m.ready + dpb::handles(dpb::bumped(m.dpb.pruned(), pic)),
        ..m
    };
    freeing_keeps_the_pool(pushed, state::let_go(m.dpb.entries, false));
}

proof fn lemma_filling(m: MemoryState, sps: Sps, unused: int, frame_num: int, timestamp: u64)
    requires
        0 <= unused < sps.spec_max_frame_num(),
        0 <= frame_num < sps.spec_max_frame_num(),
    ensures
        no_more(m, m.filled(sps, unused, frame_num, timestamp).0),
    decreases state::frame_num_distance(unused, frame_num, sps.spec_max_frame_num() as int),
{
    laws::lemma_filled_keeps(m, sps, unused, frame_num, timestamp);
    if unused != frame_num {
        let max = sps.spec_max_frame_num();
        let invented = PictureData::non_existing(unused as u32, timestamp);
        let ordering = MemoryState { prev: poc::prev_after(m.prev, invented), ..m };
        match poc::ordered(m.prev_ref, m.prev, invented, sps) {
            Err(_) => {},
            Ok(pic) => {
                let renumbered = m.dpb.renumbered(unused as u32, max as u32);
                let idx = m.max_long_term_frame_idx;
                dpb_laws::only_storing_brings_a_picture(
                    m.dpb,
                    pic,
                    idx,
                    Seq::empty(),
                    unused as u32,
                    max as u32,
                    0,
                    None,
                );
                dpb_laws::only_storing_brings_a_picture(
                    renumbered,
                    pic,
                    idx,
                    Seq::empty(),
                    0,
                    0,
                    sps.max_num_ref_frames,
                    None,
                );
                let marked = MemoryState {
                    dpb: renumbered.slid(sps.max_num_ref_frames),
                    ..ordering
                };
                lemma_bumping(marked, pic);
                let bumped = marked.bumped(pic);
                if bumped.dpb.has_room() {
                    dpb_laws::only_storing_brings_a_picture(
                        bumped.dpb,
                        pic,
                        idx,
                        Seq::empty(),
                        0,
                        0,
                        0,
                        None,
                    );
                    lemma_filling(
                        bumped.stored(pic, None),
                        sps,
                        state::next_frame_num(unused, max as int),
                        frame_num,
                        timestamp,
                    );
                }
            },
        }
    }
}

proof fn lemma_initiating(m: MemoryState, slice: Slice, sps: Sps, timestamp: u64)
    ensures
        no_more(m, m.initiated(slice, sps, timestamp).0),
{
    let coded = PictureData::of_slice(slice, sps, timestamp);
    let ordering = MemoryState { prev: poc::prev_after(m.prev, coded), ..m };
    lemma_draining(ordering);
    let emptied = if !slice.idr_pic_flag {
        ordering
    } else if slice.header.dec_ref_pic_marking.no_output_of_prior_pics_flag {
        ordering.discarded()
    } else {
        ordering.drained()
    };
    let cleared = MemoryState { dpb: ordering.dpb.with(Seq::empty()), ..ordering };
    freeing_keeps_the_pool(cleared, state::let_go(ordering.dpb.entries, true));
    let frame_num = slice.header.frame_num as u32;
    let max = sps.spec_max_frame_num() as u32;
    dpb_laws::only_storing_brings_a_picture(
        emptied.dpb,
        coded,
        m.max_long_term_frame_idx,
        Seq::empty(),
        frame_num,
        max,
        0,
        None,
    );
    dpb_laws::renumbering_loses_no_picture(emptied.dpb, frame_num, max);
}

proof fn lemma_preparing(m: MemoryState, slice: Slice, sps: Sps, timestamp: u64)
    requires
        slice.header.frame_num < sps.spec_max_frame_num(),
    ensures
        no_more(m, m.prepared(slice, sps, timestamp).0),
{
    let s = m.renumbering(slice.idr_pic_flag);
    let frame_num = slice.header.frame_num as int;
    let max = sps.spec_max_frame_num() as int;
    lemma_filling(s, sps, (s.prev_ref.frame_num + 1) % max, frame_num, timestamp);
    lemma_initiating(s.gap_handled(sps, frame_num, timestamp).0, slice, sps, timestamp);
    lemma_initiating(s, slice, sps, timestamp);
}

proof fn lemma_finishing(
    m: MemoryState,
    pic: PictureData,
    handle: Handle,
    marks: RefPicMarking,
    max_num_ref_frames: u8,
)
    requires
        !pic.nonexisting,
    ensures
        ({
            let n = m.finished(pic, handle, marks, max_num_ref_frames).0;
            &&& laws::owes(n).subset_of(laws::owes(m).insert(handle))
            &&& dpb_laws::held(n.dpb.entries).subset_of(
                dpb_laws::held(m.dpb.entries).insert(handle),
            )
            &&& same_pool(m, n)
            &&& n.pps == m.pps
        }),
{
    laws::finishing_owes_the_picture_once(m, pic, handle, marks, max_num_ref_frames);
    dpb_laws::only_storing_brings_a_picture(
        m.dpb,
        pic,
        m.max_long_term_frame_idx,
        marks.inner@,
        0,
        0,
        max_num_ref_frames,
        None,
    );
    let (t, marked, r) = m.marked(pic, marks, max_num_ref_frames);
    if r is Ok {
        let cached = MemoryState { prev: poc::PrevPicInfo::of(marked), ..t };
        lemma_draining(cached);
        let emptied = if marked.has_mmco_5 {
            cached.drained()
        } else {
            cached
        };
        lemma_bumping(emptied, marked);
        dpb_laws::only_storing_brings_a_picture(
            emptied.bumped(marked).dpb,
            marked,
            m.max_long_term_frame_idx,
            Seq::empty(),
            0,
            0,
            0,
            Some(handle),
        );
    }
}

/// A picture owed or held is in a surface that is referred to.
proof fn lemma_surfaces_are_referred_to(m: MemoryState, h: Handle)
    requires
        laws::owes(m).count(h) > 0 || dpb_laws::held(m.dpb.entries).count(h) > 0,
    ensures
        sequence::referred_to(m.dpb.entries, m.ready, h.surface),
{
    broadcast use vstd::seq_lib::group_to_multiset_ensures;

    dpb_laws::pending_pictures_are_held(m.dpb.entries);
    if dpb_laws::held(m.dpb.entries).count(h) > 0 {
        lemma_held_entry(m.dpb.entries, h);
    } else {
        assert(m.ready.to_multiset().count(h) > 0);
        assert(m.ready.contains(h));
        let i = choose|i: int| 0 <= i < m.ready.len() && m.ready[i] == h;
        assert(m.ready[i].surface == h.surface);
    }
}

proof fn lemma_held_entry(s: Seq<DpbEntry>, h: Handle)
    requires
        dpb_laws::held(s).count(h) > 0,
    ensures
        exists|i: int|
            0 <= i < s.len() && (#[trigger] s[i]).reference is Some
                && s[i].reference.unwrap().surface == h.surface,
    decreases s.len(),
{
    if s.len() > 0 {
        if s.last().reference == Some(h) {
            assert(s[s.len() - 1].reference is Some);
        } else {
            lemma_held_entry(s.drop_last(), h);
            let i = choose|i: int|
                0 <= i < s.drop_last().len() && (#[trigger] s.drop_last()[i]).reference is Some
                    && s.drop_last()[i].reference.unwrap().surface == h.surface;
            assert(s[i].reference is Some);
        }
    }
}

////// What a turn does

/// Whether every picture of `t` is one that `m` has, or one just started in a surface
/// that no other is in: of the pool, or the `created` one.
spec fn brings_at_most_one(m: MemoryState, created: Option<u32>, t: Turn) -> bool {
    &&& laws::owes(t.memory).add(on_the_way(t.work)).subset_of(laws::owes(m))
    &&& dpb_laws::held(t.memory.dpb.entries).subset_of(dpb_laws::held(m.dpb.entries))
    &&& t.work matches Work::Decoding { unit: _, wait } ==> {
        match wait {
            Wait::Picture { slice: _, current } => {
                &&& !sequence::referred_to(
                    t.memory.dpb.entries,
                    t.memory.ready,
                    current.handle.surface,
                ) || created == Some(current.handle.surface)
                &&& pooled(m, current.handle.surface) || created == Some(current.handle.surface)
            },
            Wait::Sequence { sequence, .. } => sequence@.surfaces.len() == 0,
            Wait::Surface { .. } => true,
            _ => false,
        }
    }
    &&& forall|s: u32| #[trigger]
        pooled(t.memory, s) ==> pooled(m, s) || created == Some(s)
}

proof fn lemma_prepares(
    m: MemoryState,
    unit: Unit,
    slice: Rc<Slice>,
    pps: Rc<Pps>,
    t: Turn,
)
    requires
        m.sequence is Some,
        slice.header.frame_num < pps.sps.spec_max_frame_num(),
        machine::prepares(m, unit, slice, pps, t),
    ensures
        brings_at_most_one(m, None, t),
{
    lemma_preparing(m, laws::slice_of(slice), laws::sps_of(pps), unit.timestamp);
    let n = m.prepared(laws::slice_of(slice), laws::sps_of(pps), unit.timestamp).0;
    sequence::allocated_surfaces_hold_no_picture(
        n.sequence.unwrap().surfaces,
        n.dpb.entries,
        n.ready,
    );
    assert(laws::owes(t.memory).add(on_the_way(t.work)) =~= laws::owes(n));
}

proof fn lemma_begins(m: MemoryState, unit: Unit, slice: Rc<Slice>, t: Turn)
    requires
        machine::conforms(m.pps, *slice),
        machine::begins(m, unit, slice, t),
    ensures
        brings_at_most_one(m, None, t),
{
    let id = slice.header.pic_parameter_set_id;
    if m.pps.contains_key(id) {
        let pps = m.pps[id];
        let sps = laws::sps_of(pps);
        let limited = m.limited(sps);
        laws::draining_keeps_every_picture(limited);
        if machine::serves(limited, sps) {
            let shown = limited.cropped(sps);
            lemma_prepares(shown, unit, slice, pps, t);
            assert(laws::owes(shown) == laws::owes(m));
            assert forall|s: u32| #[trigger] pooled(t.memory, s) implies pooled(m, s) by {
                assert(pooled(shown, s));
            }
        } else {
            lemma_draining(limited);
            assert(laws::owes(t.memory).add(on_the_way(t.work)) =~= laws::owes(m));
        }
    } else {
        assert(laws::owes(t.memory).add(on_the_way(t.work)) =~= laws::owes(m));
    }
}

proof fn lemma_delivers(m: MemoryState, output: Output, t: Turn)
    requires
        machine::delivers(m, output, t),
    ensures
        laws::owes(t.memory).add(on_the_way(t.work)) == laws::owes(m),
        t.memory.dpb == m.dpb,
        t.memory.sequence == m.sequence,
        in_flight(t.work) == Multiset::<Handle>::empty(),
        !(t.work is Decoding),
{
    broadcast use vstd::seq_lib::group_to_multiset_ensures;

    if m.ready.len() == 0 {
        assert(m.ready =~= t.memory.ready);
    } else {
        let d = t.work->Delivering_0;
        assert(d.handles@.skip(0) =~= d.handles@);
    }
    assert(laws::owes(t.memory).add(on_the_way(t.work)) =~= laws::owes(m));
}

/// The pictures of `t` that are yet to be delivered, but for the one in flight.
pub open spec fn landed(t: Turn) -> Multiset<Handle> {
    laws::owes(t.memory).add(on_the_way(t.work))
}

/// Whether the pictures of `t` are among those of `before` and, at most, one that has
/// just been started in a surface of its own.
pub open spec fn turns_over(before: Turn, created: Option<u32>, t: Turn) -> bool {
    &&& landed(t).subset_of(undelivered(before))
    &&& dpb_laws::held(t.memory.dpb.entries).subset_of(
        dpb_laws::held(before.memory.dpb.entries).add(in_flight(before.work)),
    )
    &&& keeps_flying(before, t) || has_started(before, created, t)
    &&& forall|s: u32| #[trigger]
        pooled(t.memory, s) ==> pooled(before.memory, s) || created == Some(s)
    &&& t.work matches Work::Decoding { unit: _, wait: Wait::Sequence { sequence, .. } }
        ==> sequence@.surfaces.len() == 0
}

/// Whether nothing was started: what is in flight stays in flight.
pub open spec fn keeps_flying(before: Turn, t: Turn) -> bool {
    &&& in_flight(t.work) == in_flight(before.work)
    &&& undelivered(t).subset_of(undelivered(before))
    &&& dpb_laws::held(t.memory.dpb.entries).subset_of(
        dpb_laws::held(before.memory.dpb.entries),
    )
}

/// Whether what is in flight, if anything, has just been started: in a surface of the
/// pool that no picture is in, or in the `created` one.
pub open spec fn has_started(before: Turn, created: Option<u32>, t: Turn) -> bool {
    forall|h: Handle| #[trigger]
        in_flight(t.work).count(h) > 0 ==> {
            &&& on_the_way(t.work) == Multiset::<Handle>::empty()
            &&& in_flight(t.work) == Multiset::singleton(h)
            &&& created == Some(h.surface) || (pooled(before.memory, h.surface)
                && !sequence::referred_to(t.memory.dpb.entries, t.memory.ready, h.surface))
        }
}

/// The surface the event `e` brings, if any.
pub open spec fn created_by(e: Event) -> Option<u32> {
    match e {
        Event::Answer(Reply::Surface(surface)) => Some(surface),
        _ => None,
    }
}

proof fn lemma_advances(m: MemoryState, unit: Unit, current: Option<CurrentPicture>, t: Turn)
    requires
        machine::advances(m, unit, current, t),
    ensures
        current is None ==> brings_at_most_one(m, None, t),
        current matches Some(c) ==> t.memory.dpb == m.dpb && t.memory.ready == m.ready
            && same_pool(m, t.memory) && (t.work is Idle || (in_flight(t.work)
            == Multiset::singleton(c.handle) && on_the_way(t.work) == Multiset::<Handle>::empty()
            && t.work is Decoding && !(t.work->wait is Sequence))),
{
    laws::lemma_stop(unit.nals@, unit.next as int, m.pps);
    let (i, pps, e) = machine::stop(unit.nals@, unit.next as int, m.pps);
    let n = MemoryState { pps, ..m };
    assert(laws::owes(n) == laws::owes(m));
    if current is None {
        match e {
            Some(_) => {
                assert(landed(t) =~= laws::owes(m));
            },
            None => {
                if i >= unit.nals@.len() {
                    lemma_delivers(n, unit.output, t);
                } else {
                    let slice = unit.nals@[i]->Slice_0.unwrap();
                    let past = Unit { next: (i + 1) as usize, ..unit };
                    lemma_begins(n, past, slice, t);
                    assert forall|s: u32| #[trigger] pooled(t.memory, s) implies pooled(m, s) by {
                        assert(pooled(n, s));
                    }
                }
            },
        }
    } else {
        let gone = seq![current.unwrap().handle];
        freeing_keeps_the_pool(n, gone);
    }
}

/// What a picture brought at most amounts to, where the decoder before had the
/// pictures of `m` and, possibly, one in flight that `m` has meanwhile taken in.
proof fn lemma_brought(before: Turn, m: MemoryState, t: Turn)
    requires
        brings_at_most_one(m, None, t),
        laws::owes(m).subset_of(undelivered(before)),
        dpb_laws::held(m.dpb.entries).subset_of(
            dpb_laws::held(before.memory.dpb.entries).add(in_flight(before.work)),
        ),
        forall|s: u32| #[trigger] pooled(m, s) ==> pooled(before.memory, s),
    ensures
        turns_over(before, None, t),
{
    assert forall|h: Handle| #[trigger] in_flight(t.work).count(h) > 0 implies {
        &&& on_the_way(t.work) == Multiset::<Handle>::empty()
        &&& in_flight(t.work) == Multiset::singleton(h)
        &&& pooled(before.memory, h.surface)
        &&& !sequence::referred_to(t.memory.dpb.entries, t.memory.ready, h.surface)
    } by {
        let current = t.work->wait->Picture_current;
        assert(current.handle == h);
        assert(pooled(m, h.surface));
    }
    assert forall|s: u32| #[trigger] pooled(t.memory, s) implies pooled(before.memory, s) by {
        assert(pooled(m, s));
    }
}

proof fn lemma_delivery(before: Turn, d: Delivery, reply: Reply, t: Turn)
    requires
        before.work == Work::Delivering(d),
        machine::delivery_wf(d),
        machine::answers(before.work, reply),
        machine::delivery_resumed(before.memory, d, reply, t),
    ensures
        turns_over(before, None, t),
        keeps_flying(before, t),
{
    broadcast use vstd::seq_lib::group_to_multiset_ensures;

    let all = d.handles@;
    let next = d.next as int;
    let rest = all.skip(next);
    assert(rest =~= seq![all[next]] + all.skip(next + 1));
    vstd::seq_lib::lemma_multiset_commutative(seq![all[next]], all.skip(next + 1));
    assert(all.skip(next + 1).to_multiset().subset_of(rest.to_multiset()));
    assert(laws::owes(t.memory) == laws::owes(before.memory));
    match t.work {
        Work::Delivering(n) => {
            if n.next != d.next {
                assert(n.handles@.skip(n.next as int) =~= all.skip(next + 1));
            }
        },
        _ => {},
    }
    assert(on_the_way(t.work).subset_of(rest.to_multiset()));
    assert(t.memory.dpb == before.memory.dpb);
    let retired = machine::surface_retired(before.memory, machine::due(d).surface);
    freeing_keeps_the_pool(before.memory, all);
    freeing_keeps_the_pool(retired, all);
    match before.memory.sequence {
        Some(s) => {
            sequence::retired_surfaces_never_return(s.surfaces, machine::due(d).surface);
            assert forall|x: u32| #[trigger] pooled(t.memory, x) implies pooled(
                before.memory,
                x,
            ) by {
                let left = sequence::retired(s.surfaces, machine::due(d).surface);
                assert(left.contains(x) ==> s.surfaces.contains(x));
                assert(pooled(retired, x) ==> left.contains(x));
            }
        },
        None => {},
    }
}

pub proof fn lemma_turns_over(before: Turn, e: Event, t: Turn)
    requires
        machine::machine_wf(before.memory, before.work),
        laws::leads(before, e, t),
    ensures
        turns_over(before, created_by(e), t),
{
    reveal(laws::leads);
    let m = before.memory;
    assert(laws::owes(m).subset_of(undelivered(before)));
    match e {
        Event::Feed(unit) => {
            lemma_advances(m, unit, None, t);
            lemma_brought(before, m, t);
        },
        Event::Flush(output) => {
            lemma_draining(m);
            lemma_delivers(m.reset(), output, t);
        },
        Event::Answer(reply) => match before.work {
            Work::Idle => {},
            Work::Decoding { unit, wait } => {
                lemma_decoding(before, unit, wait, reply, t);
            },
            Work::Delivering(d) => {
                lemma_delivery(before, d, reply, t);
            },
        },
    }
}

proof fn lemma_decoding(before: Turn, unit: Unit, wait: Wait, reply: Reply, t: Turn)
    requires
        before.work == (Work::Decoding { unit, wait }),
        machine::machine_wf(before.memory, before.work),
        machine::answers(before.work, reply),
        machine::resumed(before.memory, before.work, reply, t),
    ensures
        turns_over(before, created_by(Event::Answer(reply)), t),
{
    let m = before.memory;
    assert(laws::owes(m).subset_of(undelivered(before)));
    match (wait, reply) {
        (_, Reply::Failed(_)) => {
            if machine::flying(wait) is Some {
                let gone = seq![machine::flying(wait).unwrap()];
                freeing_keeps_the_pool(m, gone);
            }
            assert(laws::owes(t.memory) == laws::owes(m));
            assert(landed(t) =~= laws::owes(m));
        },
        (Wait::Sequence { slice, pps, sequence }, Reply::Done) => {
            let n = MemoryState { sequence: Some(sequence@), ..m };
            assert(laws::owes(n) == laws::owes(m));
            lemma_prepares(n, unit, slice, pps, t);
            lemma_brought(before, n, t);
        },
        (Wait::Surface { slice, pps, pic, .. }, Reply::Surface(surface)) => {
            let n = machine::adopted(m, surface);
            assert(laws::owes(n) == laws::owes(m));
            assert(landed(t) =~= laws::owes(m));
            assert forall|s: u32| #[trigger] pooled(t.memory, s) implies pooled(m, s) || surface
                == s by {
                let was = m.sequence.unwrap().surfaces;
                let i = choose|i: int|
                    0 <= i < was.push(surface).len() && was.push(surface)[i] == s;
                if i < was.len() {
                    assert(was[i] == s);
                }
            }
        },
        (Wait::Picture { slice, current }, Reply::Done) => {
            freeing_keeps_the_pool(m, seq![current.handle]);
            assert(laws::owes(t.memory) == laws::owes(m));
            assert(landed(t) =~= laws::owes(m));
        },
        (Wait::Slice { current }, Reply::Done) => {
            lemma_advances(m, unit, Some(current), t);
            assert(laws::owes(t.memory) == laws::owes(m));
            assert(landed(t) =~= laws::owes(m));
        },
        (Wait::Submit { current, following }, Reply::Done) => {
            let marks = current.first.header.dec_ref_pic_marking;
            let max = current.pps.sps.max_num_ref_frames;
            lemma_finishing(m, current.pic, current.handle, marks, max);
            let (n, r) = m.finished(current.pic, current.handle, marks, max);
            assert(laws::owes(m).insert(current.handle) =~= undelivered(before));
            assert(dpb_laws::held(m.dpb.entries).insert(current.handle) =~= dpb_laws::held(
                m.dpb.entries,
            ).add(in_flight(before.work)));
            if r is Ok {
                match following {
                    Some(slice) => {
                        lemma_begins(n, unit, slice, t);
                        lemma_brought(before, n, t);
                    },
                    None => {
                        lemma_delivers(n, unit.output, t);
                    },
                }
            } else {
                freeing_keeps_the_pool(n, seq![current.handle]);
                assert(laws::owes(t.memory) == laws::owes(n));
                assert(landed(t) =~= laws::owes(n));
            }
        },
        _ => {},
    }
}

////// Laws

/// A picture that has just been started is in a surface no other picture is in.
proof fn lemma_started_apart(before: Turn, e: Event, after: Turn, a: Handle, b: Handle)
    requires
        turns_over(before, created_by(e), after),
        has_started(before, created_by(e), after),
        created_by(e) matches Some(surface) ==> forall|h: Handle| #[trigger]
            has_picture(before, h) ==> h.surface != surface,
        in_flight(after.work).count(a) > 0,
        landed(after).count(b) > 0 || dpb_laws::held(after.memory.dpb.entries).count(b) > 0,
    ensures
        a.surface != b.surface,
{
    if created_by(e) == Some(a.surface) {
        assert(in_flight(before.work).count(b) <= undelivered(before).count(b));
        assert(has_picture(before, b));
    } else {
        assert(on_the_way(after.work).count(b) == 0);
        lemma_surfaces_are_referred_to(after.memory, b);
    }
}

/// No two pictures are ever in the same surface: where none are, no event brings two
/// together, as long as a surface the driver creates is a new one.
pub proof fn pictures_never_share_a_surface(before: Turn, e: Event, after: Turn)
    requires
        machine::machine_wf(before.memory, before.work),
        laws::leads(before, e, after),
        pictures_apart(before),
        created_by(e) matches Some(surface) ==> forall|h: Handle| #[trigger]
            has_picture(before, h) ==> h.surface != surface,
    ensures
        pictures_apart(after),
{
    lemma_turns_over(before, e, after);
    let held = dpb_laws::held(after.memory.dpb.entries);
    let flying = in_flight(after.work);
    assert forall|h: Handle| landed(after).count(h) > 0 || held.count(h) > 0 implies #[trigger]
        has_picture(before, h) by {
        assert(in_flight(before.work).count(h) <= undelivered(before).count(h));
    }
    assert forall|h: Handle| #[trigger] held.count(h) <= 1 by {
        assert(in_flight(before.work).count(h) > 0 ==> dpb_laws::held(
            before.memory.dpb.entries,
        ).count(h) == 0);
        assert(dpb_laws::held(before.memory.dpb.entries).count(h) <= 1);
        assert(undelivered(before).count(h) <= 1);
    }
    if keeps_flying(before, after) {
        assert forall|a: Handle, b: Handle| #[trigger]
            has_picture(after, a) && #[trigger] has_picture(after, b) && a.surface
                == b.surface implies a == b by {
            assert(has_picture(before, a) && has_picture(before, b));
        }
        assert forall|h: Handle| #[trigger] undelivered(after).count(h) <= 1 by {
            assert(undelivered(before).count(h) <= 1);
        }
        assert forall|h: Handle| #[trigger] flying.count(h) > 0 implies held.count(h) == 0 by {
            assert(in_flight(before.work).count(h) > 0);
        }
    } else {
        assert forall|h: Handle| #[trigger] undelivered(after).count(h) <= 1 by {
            assert(undelivered(before).count(h) <= 1);
            if flying.count(h) > 0 && landed(after).count(h) > 0 {
                lemma_started_apart(before, e, after, h, h);
            }
        }
        assert forall|h: Handle| #[trigger] flying.count(h) > 0 implies held.count(h) == 0 by {
            if held.count(h) > 0 {
                lemma_started_apart(before, e, after, h, h);
            }
        }
        assert forall|a: Handle, b: Handle| #[trigger]
            has_picture(after, a) && #[trigger] has_picture(after, b) && a.surface
                == b.surface implies a == b by {
            let a_landed = landed(after).count(a) > 0 || held.count(a) > 0;
            let b_landed = landed(after).count(b) > 0 || held.count(b) > 0;
            if a_landed && b_landed {
                assert(has_picture(before, a) && has_picture(before, b));
            } else if a_landed {
                lemma_started_apart(before, e, after, b, a);
            } else if b_landed {
                lemma_started_apart(before, e, after, a, b);
            } else {
                assert(flying.count(a) > 0 && flying.count(b) > 0);
            }
        }
    }
}

/// Whether `surface` is in neither the pool in use nor one about to be.
pub open spec fn stays_out(m: MemoryState, work: Work, surface: u32) -> bool {
    &&& !pooled(m, surface)
    &&& work matches Work::Decoding { unit: _, wait: Wait::Sequence { sequence, .. } }
        ==> sequence@.surfaces.len() == 0
}

/// A surface that is out of the pool stays out of it, until the driver creates it.
pub proof fn surfaces_out_of_the_pool_stay_out(
    before: Turn,
    e: Event,
    after: Turn,
    surface: u32,
)
    requires
        machine::machine_wf(before.memory, before.work),
        laws::leads(before, e, after),
        stays_out(before.memory, before.work, surface),
        created_by(e) != Some(surface),
    ensures
        stays_out(after.memory, after.work, surface),
{
    lemma_turns_over(before, e, after);
}

/// Whether the decoder may come back to `surface`: it is in the pool, or a picture yet
/// to be delivered is in it.
pub open spec fn in_play(t: Turn, surface: u32) -> bool {
    pooled(t.memory, surface) || exists|h: Handle| #[trigger]
        undelivered(t).count(h) > 0 && h.surface == surface
}

/// A surface that is out of play stays out of play, until the driver creates it.
pub proof fn surfaces_out_of_play_stay_out(before: Turn, e: Event, after: Turn, surface: u32)
    requires
        machine::machine_wf(before.memory, before.work),
        laws::leads(before, e, after),
        !in_play(before, surface),
        created_by(e) != Some(surface),
    ensures
        !in_play(after, surface),
{
    lemma_turns_over(before, e, after);
    assert forall|h: Handle| #[trigger] undelivered(after).count(h) > 0 implies h.surface
        != surface by {
        if landed(after).count(h) > 0 {
            assert(undelivered(before).count(h) > 0);
        } else {
            assert(in_flight(after.work).count(h) > 0);
            if keeps_flying(before, after) {
                assert(undelivered(before).count(h) > 0);
            }
        }
    }
}

/// Whether the event `e` finds an export done at `t`.
pub open spec fn is_export(t: Turn, e: Event) -> bool {
    t.work is Delivering && (e matches Event::Answer(Reply::Exported(_)))
}

/// A surface that has been exported is out of play: it has left the pool, and no other
/// picture is in it.
pub proof fn exported_surfaces_leave_play(before: Turn, e: Event, after: Turn)
    requires
        machine::machine_wf(before.memory, before.work),
        laws::leads(before, e, after),
        is_export(before, e),
        pictures_apart(before),
    ensures
        !in_play(after, machine::due(before.work->Delivering_0).surface),
{
    reveal(laws::leads);
    broadcast use vstd::seq_lib::group_to_multiset_ensures;

    let d = before.work->Delivering_0;
    let m = before.memory;
    let gone = machine::due(d);
    let next = d.next as int;
    let retired = machine::surface_retired(m, gone.surface);
    freeing_keeps_the_pool(retired, d.handles@);
    assert(!pooled(retired, gone.surface)) by {
        match m.sequence {
            Some(s) => sequence::retired_surfaces_never_return(s.surfaces, gone.surface),
            None => {},
        }
    }
    let rest = d.handles@.skip(next);
    let later = d.handles@.skip(next + 1);
    assert(rest =~= seq![gone] + later);
    vstd::seq_lib::lemma_multiset_commutative(seq![gone], later);
    assert(seq![gone].to_multiset() =~= Multiset::singleton(gone)) by {
        assert(seq![gone] =~= Seq::<Handle>::empty().push(gone));
    }
    assert(laws::owes(after.memory) == laws::owes(m));
    assert(on_the_way(after.work).subset_of(later.to_multiset())) by {
        match after.work {
            Work::Delivering(n) => {
                assert(n.handles@.skip(n.next as int) =~= later);
            },
            _ => {},
        }
    }
    assert forall|h: Handle| #[trigger] undelivered(after).count(h) > 0 implies h.surface
        != gone.surface by {
        assert(undelivered(before).count(h) >= undelivered(after).count(h));
        assert(undelivered(before).count(gone) <= 1);
        assert(has_picture(before, h) && has_picture(before, gone));
        if h == gone {
            assert(undelivered(before).count(gone) == undelivered(after).count(gone) + 1);
        }
    }
}

/// An export that fails retires nothing.
pub proof fn failed_exports_retire_nothing(
    m: MemoryState,
    d: Delivery,
    failure: VaFailure,
    t: Turn,
)
    requires
        d.output == Output::Exported,
        machine::delivery_wf(d),
        machine::delivery_resumed(m, d, Reply::Failed(failure), t),
    ensures
        t.memory == m || t.memory == m.freed(d.handles@),
        same_pool(m, t.memory),
{
    freeing_keeps_the_pool(m, d.handles@);
}

////// Over a life

/// Whether the driver never gives two surfaces the same id.
pub open spec fn driver_is_fresh(events: Seq<Event>) -> bool {
    forall|i: int, j: int|
        0 <= i < j < events.len() && created_by(#[trigger] events[i]) is Some && created_by(
            #[trigger] events[j],
        ) is Some ==> created_by(events[i]) != created_by(events[j])
}

/// Whether one of the first `n` events created `surface`.
pub open spec fn created_before(events: Seq<Event>, n: int, surface: u32) -> bool {
    exists|k: int| 0 <= k < n && created_by(#[trigger] events[k]) == Some(surface)
}

/// Whether every surface of `t` has been created by the first `n` events.
spec fn surfaces_created(events: Seq<Event>, n: int, t: Turn) -> bool {
    &&& forall|s: u32| #[trigger] pooled(t.memory, s) ==> created_before(events, n, s)
    &&& forall|h: Handle| #[trigger] has_picture(t, h) ==> created_before(events, n, h.surface)
}

proof fn lemma_created_grows(events: Seq<Event>, n: int, s: u32)
    requires
        0 <= n < events.len(),
    ensures
        created_before(events, n, s) || created_by(events[n]) == Some(s) ==> created_before(
            events,
            n + 1,
            s,
        ),
{
    if created_before(events, n, s) {
        let k = choose|k: int| 0 <= k < n && created_by(#[trigger] events[k]) == Some(s);
        assert(created_by(events[k]) == Some(s));
    }
}

proof fn lemma_life(turns: Seq<Turn>, events: Seq<Event>, n: int)
    requires
        laws::is_history(turns, events),
        driver_is_fresh(events),
        0 <= n < turns.len(),
    ensures
        pictures_apart(turns[n]),
        surfaces_created(events, n, turns[n]),
    decreases n,
{
    broadcast use vstd::seq_lib::group_to_multiset_ensures;

    if n == 0 {
        assert(undelivered(turns[0]) =~= Multiset::<Handle>::empty());
    } else {
        lemma_life(turns, events, n - 1);
        let before = turns[n - 1];
        let after = turns[n];
        let e = events[n - 1];
        assert(laws::leads(before, e, turns[n - 1 + 1]));
        assert(machine::machine_wf(before.memory, before.work));
        assert forall|h: Handle| #[trigger] has_picture(before, h) implies created_by(e) != Some(
            h.surface,
        ) by {
            assert(created_before(events, n - 1, h.surface));
            let k = choose|k: int|
                0 <= k < n - 1 && created_by(#[trigger] events[k]) == Some(h.surface);
            assert(created_by(events[k]) != created_by(events[n - 1]) || created_by(e) is None);
        }
        pictures_never_share_a_surface(before, e, after);
        lemma_turns_over(before, e, after);
        assert forall|s: u32| #[trigger] pooled(after.memory, s) implies created_before(
            events,
            n,
            s,
        ) by {
            assert(pooled(before.memory, s) || created_by(e) == Some(s));
            lemma_created_grows(events, n - 1, s);
        }
        assert forall|h: Handle| #[trigger] has_picture(after, h) implies created_before(
            events,
            n,
            h.surface,
        ) by {
            lemma_created_grows(events, n - 1, h.surface);
            assert(in_flight(before.work).count(h) <= undelivered(before).count(h));
            if landed(after).count(h) > 0 || dpb_laws::held(after.memory.dpb.entries).count(h)
                > 0 {
                assert(has_picture(before, h));
            } else {
                assert(in_flight(after.work).count(h) > 0);
                if keeps_flying(before, after) {
                    assert(has_picture(before, h));
                }
            }
        }
    }
}

/// Where the driver gives every surface an id of its own, no two pictures of a decoder
/// are ever in the same one.
pub proof fn pictures_are_always_apart(turns: Seq<Turn>, events: Seq<Event>, n: int)
    requires
        laws::is_history(turns, events),
        driver_is_fresh(events),
        0 <= n < turns.len(),
    ensures
        pictures_apart(turns[n]),
{
    lemma_life(turns, events, n);
}

/// Where the driver gives every surface an id of its own, exported pictures never share
/// a surface: what a caller has a descriptor for is never decoded into, nor exported,
/// again.
pub proof fn exported_pictures_never_share_a_surface(
    turns: Seq<Turn>,
    events: Seq<Event>,
    i: int,
    j: int,
)
    requires
        laws::is_history(turns, events),
        driver_is_fresh(events),
        0 <= i < j < events.len(),
        is_export(turns[i], events[i]),
    ensures
        !in_play(turns[j], machine::due(turns[i].work->Delivering_0).surface),
        is_export(turns[j], events[j]) ==> machine::due(turns[i].work->Delivering_0).surface
            != machine::due(turns[j].work->Delivering_0).surface,
{
    broadcast use vstd::seq_lib::group_to_multiset_ensures;

    let gone = machine::due(turns[i].work->Delivering_0).surface;
    lemma_stays_out_of_play(turns, events, i, j);
    if is_export(turns[j], events[j]) {
        let d = turns[j].work->Delivering_0;
        assert(machine::machine_wf(turns[j].memory, turns[j].work));
        let rest = d.handles@.skip(d.next as int);
        assert(rest[0] == machine::due(d));
        assert(rest.contains(machine::due(d)));
        assert(undelivered(turns[j]).count(machine::due(d)) > 0);
    }
}

proof fn lemma_stays_out_of_play(turns: Seq<Turn>, events: Seq<Event>, i: int, j: int)
    requires
        laws::is_history(turns, events),
        driver_is_fresh(events),
        0 <= i < j < turns.len(),
        is_export(turns[i], events[i]),
    ensures
        !in_play(turns[j], machine::due(turns[i].work->Delivering_0).surface),
        created_before(events, i, machine::due(turns[i].work->Delivering_0).surface),
    decreases j,
{
    broadcast use vstd::seq_lib::group_to_multiset_ensures;

    let d = turns[i].work->Delivering_0;
    let gone = machine::due(d);
    lemma_life(turns, events, i);
    assert(machine::machine_wf(turns[i].memory, turns[i].work));
    let rest = d.handles@.skip(d.next as int);
    assert(rest[0] == gone);
    assert(rest.contains(gone));
    assert(has_picture(turns[i], gone));
    let e = events[j - 1];
    assert(laws::leads(turns[j - 1], e, turns[j - 1 + 1]));
    assert(machine::machine_wf(turns[j - 1].memory, turns[j - 1].work));
    if j - 1 == i {
        exported_surfaces_leave_play(turns[i], events[i], turns[j]);
    } else {
        lemma_stays_out_of_play(turns, events, i, j - 1);
        let k = choose|k: int|
            0 <= k < i && created_by(#[trigger] events[k]) == Some(gone.surface);
        assert(created_by(events[k]) != created_by(events[j - 1]) || created_by(e) is None);
        surfaces_out_of_play_stay_out(turns[j - 1], e, turns[j], gone.surface);
    }
}

} // verus!
