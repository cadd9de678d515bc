//! What holds of the decoder as a whole.

pub mod calls;
pub mod delay;
pub mod order;
pub mod reorder;
pub mod requests;
pub mod shape;
pub mod size;
pub mod surfaces;
pub mod window;

use std::rc::Rc;

use vstd::multiset::Multiset;
use vstd::prelude::*;

use crate::decode::error::DecodeError;
use crate::decode::machine;
use crate::decode::machine::{
    CurrentPicture, Delivery, Nal, Output, Reply, Step, Turn, Unit, Wait, Work,
};
use crate::decode::poc;
use crate::decode::sequence;
use crate::decode::state;
use crate::decode::state::MemoryState;
use crate::h264::dpb;
use crate::h264::dpb::laws;
use crate::h264::dpb::mmco;
use crate::h264::dpb::mmco::Marking;
use crate::h264::picture::PictureData;
use crate::h264::syntax::{Pps, RefPicMarking, RefPicMarkingInner, Slice, Sps};
use crate::surface::Handle;

verus! {

////// No picture is lost, and none comes twice

/// The pictures a decoder with the memory `m` has decoded and not yet delivered.
pub open spec fn owes(m: MemoryState) -> Multiset<Handle> {
    m.ready.to_multiset().add(laws::pending(m.dpb.entries))
}

/// The pictures decoded and not yet handed over after a turn, those on their way
/// out included.
pub open spec fn in_hand(t: Turn) -> Multiset<Handle> {
    match t.work {
        Work::Delivering(d) => owes(t.memory).add(d.handles@.to_multiset()),
        _ => owes(t.memory),
    }
}

proof fn lemma_ready_grows(ready: Seq<Handle>, more: Seq<Handle>)
    ensures
        (ready + more).to_multiset() == ready.to_multiset().add(more.to_multiset()),
{
    vstd::seq_lib::lemma_multiset_commutative(ready, more);
}

/// Draining moves pictures to the ready queue and loses none.
pub proof fn draining_keeps_every_picture(m: MemoryState)
    ensures
        owes(m.drained()) == owes(m),
        owes(m.reset()) == owes(m),
        m.drained().ready.to_multiset() == owes(m),
        m.reset().ready.to_multiset() == owes(m),
{
    laws::draining_outputs_each_picture_once(m.dpb.entries);
    lemma_ready_grows(m.ready, dpb::handles(dpb::output_sequence(m.dpb.entries)));
    assert(owes(m.drained()) =~= m.drained().ready.to_multiset());
    assert(owes(m.reset()) =~= m.reset().ready.to_multiset());
}

pub proof fn lemma_bumping_keeps(m: MemoryState, pic: PictureData)
    ensures
        owes(m.bumped(pic)) == owes(m),
{
    laws::pruning_loses_no_picture(m.dpb);
    laws::bumping_loses_no_picture(m.dpb.pruned(), pic);
    lemma_ready_grows(m.ready, dpb::handles(dpb::bumped(m.dpb.pruned(), pic)));
    assert(owes(m.bumped(pic)) =~= owes(m));
}

/// Making up for a gap in the frame numbers keeps every picture, and what it
/// invents is never output.
pub proof fn gaps_keep_every_picture(
    m: MemoryState,
    sps: Sps,
    unused: int,
    frame_num: int,
    timestamp: u64,
)
    requires
        0 <= unused < sps.spec_max_frame_num(),
        0 <= frame_num < sps.spec_max_frame_num(),
    ensures
        owes(m.filled(sps, unused, frame_num, timestamp).0) == owes(m),
        owes(m.gap_handled(sps, frame_num, timestamp).0) == owes(m),
{
    lemma_filled_keeps(m, sps, unused, frame_num, timestamp);
    let max = sps.spec_max_frame_num() as int;
    lemma_filled_keeps(m, sps, (m.prev_ref.frame_num + 1) % max, frame_num, timestamp);
}

pub proof fn lemma_filled_keeps(
    m: MemoryState,
    sps: Sps,
    unused: int,
    frame_num: int,
    timestamp: u64,
)
    requires
        0 <= unused < sps.spec_max_frame_num(),
        0 <= frame_num < sps.spec_max_frame_num(),
    ensures
        owes(m.filled(sps, unused, frame_num, timestamp).0) == owes(m),
    decreases
            state::frame_num_distance(
                unused,
                frame_num,
                sps.spec_max_frame_num() as int,
            ),
{
    if unused != frame_num {
        let max = sps.spec_max_frame_num();
        let invented = PictureData::non_existing(unused as u32, timestamp);
        let ordering = MemoryState {
            prev: poc::prev_after(m.prev, invented),
            ..m
        };
        match poc::ordered(m.prev_ref, m.prev, invented, sps) {
            Err(_) => {},
            Ok(pic) => {
                let renumbered = m.dpb.renumbered(unused as u32, max as u32);
                laws::renumbering_loses_no_picture(m.dpb, unused as u32, max as u32);
                laws::sliding_loses_no_picture(renumbered, sps.max_num_ref_frames);
                let marked = MemoryState {
                    dpb: renumbered.slid(sps.max_num_ref_frames),
                    ..ordering
                };
                assert(owes(marked) == owes(m));
                lemma_bumping_keeps(marked, pic);
                let bumped = marked.bumped(pic);
                if bumped.dpb.has_room() {
                    laws::inventing_owes_nothing(bumped.dpb, pic);
                    assert(owes(bumped.stored(pic, None)) == owes(m));
                    lemma_filled_keeps(
                        bumped.stored(pic, None),
                        sps,
                        state::next_frame_num(unused, max as int),
                        frame_num,
                        timestamp,
                    );
                }
            },
        }
    }
}

/// Whether the picture `slice` starts has the pictures before it discarded.
pub open spec fn discards(slice: Slice) -> bool {
    slice.idr_pic_flag && slice.header.dec_ref_pic_marking.no_output_of_prior_pics_flag
}

/// Getting ready for a picture keeps every picture before it, unless the stream
/// says to discard them.
pub proof fn preparing_keeps_every_picture(
    m: MemoryState,
    slice: Slice,
    sps: Sps,
    timestamp: u64,
)
    requires
        slice.header.frame_num < sps.spec_max_frame_num(),
        !discards(slice),
    ensures
        owes(m.prepared(slice, sps, timestamp).0) == owes(m),
{
    let s = m.renumbering(slice.idr_pic_flag);
    let frame_num = slice.header.frame_num as int;
    assert(owes(s) == owes(m));
    if s.skips_to(frame_num, sps) {
        gaps_keep_every_picture(s, sps, 0, frame_num, timestamp);
        lemma_initiating_keeps(s.gap_handled(sps, frame_num, timestamp).0, slice, sps, timestamp);
    } else {
        lemma_initiating_keeps(s, slice, sps, timestamp);
    }
}

proof fn lemma_initiating_keeps(m: MemoryState, slice: Slice, sps: Sps, timestamp: u64)
    requires
        !discards(slice),
    ensures
        owes(m.initiated(slice, sps, timestamp).0) == owes(m),
{
    let coded = PictureData::of_slice(slice, sps, timestamp);
    let ordering = MemoryState { prev: poc::prev_after(m.prev, coded), ..m };
    assert(owes(ordering) == owes(m));
    draining_keeps_every_picture(ordering);
    let emptied = if slice.idr_pic_flag {
        ordering.drained()
    } else {
        ordering
    };
    laws::renumbering_loses_no_picture(
        emptied.dpb,
        slice.header.frame_num as u32,
        sps.spec_max_frame_num() as u32,
    );
}

/// Finishing a picture owes exactly that picture more; where it fails, every
/// other picture is still owed.
pub proof fn finishing_owes_the_picture_once(
    m: MemoryState,
    pic: PictureData,
    handle: Handle,
    marks: RefPicMarking,
    max_num_ref_frames: u8,
)
    requires
        !pic.nonexisting,
    ensures
        match m.finished(pic, handle, marks, max_num_ref_frames) {
            (n, Ok(_)) => owes(n) == owes(m).insert(handle),
            (n, Err(_)) => owes(n) == owes(m),
        },
{
    broadcast use vstd::seq_lib::group_to_multiset_ensures;

    let (t, marked, r) = m.marked(pic, marks, max_num_ref_frames);
    lemma_marking_keeps(m, pic, marks, max_num_ref_frames);
    if r is Ok {
        let cached = MemoryState {
            prev: poc::PrevPicInfo::of(marked),
            ..t
        };
        assert(owes(cached) == owes(m));
        draining_keeps_every_picture(cached);
        let emptied = if marked.has_mmco_5 {
            cached.drained()
        } else {
            cached
        };
        lemma_bumping_keeps(emptied, marked);
        let bumped = emptied.bumped(marked);
        if bumped.dpb.has_room() {
            laws::storing_owes_the_picture(bumped.dpb, marked, handle);
            assert(owes(bumped.stored(marked, Some(handle))) =~= owes(bumped).insert(handle));
        } else if !marked.spec_is_ref() {
            let n = MemoryState { ready: bumped.ready.push(handle), ..bumped };
            assert(owes(n) =~= owes(bumped).insert(handle));
        }
    }
}

proof fn lemma_marking_keeps(
    m: MemoryState,
    pic: PictureData,
    marks: RefPicMarking,
    max_num_ref_frames: u8,
)
    ensures
        owes(m.marked(pic, marks, max_num_ref_frames).0) == owes(m),
        m.marked(pic, marks, max_num_ref_frames).1.nonexisting == pic.nonexisting,
{
    let s = Marking { dpb: m.dpb, pic, max_long_term_frame_idx: m.max_long_term_frame_idx };
    laws::unmarking_loses_no_picture(m.dpb);
    laws::memory_management_loses_no_picture(s, marks.inner@);
    laws::sliding_loses_no_picture(m.dpb, max_num_ref_frames);
    lemma_operations_keep_existence(s, marks.inner@);
}

pub proof fn lemma_operations_keep_existence(
    s: Marking,
    ops: Seq<RefPicMarkingInner>,
)
    ensures
        mmco::all_operated(s, ops).0.pic.nonexisting == s.pic.nonexisting,
    decreases ops.len(),
{
    if ops.len() > 0 && ops[0].memory_management_control_operation != 0 {
        match mmco::operated(s, ops[0]) {
            Ok(t) => {
                lemma_operations_keep_existence(t, ops.drop_first());
            },
            Err(_) => {},
        }
    }
}

pub open spec fn slice_of(slice: Rc<Slice>) -> Slice {
    *slice
}

pub open spec fn sps_of(pps: Rc<Pps>) -> Sps {
    *pps.sps
}

/// Starting a picture keeps every picture before it, unless the stream says to
/// discard them.
pub proof fn beginning_keeps_every_picture(m: MemoryState, unit: Unit, slice: Rc<Slice>, t: Turn)
    requires
        machine::conforms(m.pps, *slice),
        machine::begins(m, unit, slice, t),
        !discards(*slice),
    ensures
        in_hand(t) == owes(m),
{
    let id = slice.header.pic_parameter_set_id;
    if m.pps.contains_key(id) {
        let pps = m.pps[id];
        let limited = m.limited(sps_of(pps));
        let shown = limited.cropped(sps_of(pps));
        assert(owes(limited) == owes(m));
        assert(owes(shown) == owes(m));
        draining_keeps_every_picture(limited);
        preparing_keeps_every_picture(shown, slice_of(slice), sps_of(pps), unit.timestamp);
    }
}

/// Once the hardware has decoded a picture, it is owed its output, once, and so is
/// every other.
pub proof fn decoding_owes_the_picture_once(
    m: MemoryState,
    unit: Unit,
    current: CurrentPicture,
    following: Option<Rc<Slice>>,
    t: Turn,
)
    requires
        !current.pic.nonexisting,
        following matches Some(slice) ==> machine::conforms(m.pps, *slice) && !discards(*slice),
        machine::finishes(m, unit, current, following, t),
        t.result is Ok,
    ensures
        in_hand(t) == owes(m).insert(current.handle),
{
    let marks = current.first.header.dec_ref_pic_marking;
    let max = current.pps.sps.max_num_ref_frames;
    finishing_owes_the_picture_once(m, current.pic, current.handle, marks, max);
    lemma_finishing_keeps_pps(m, current.pic, current.handle, marks, max);
    let n = m.finished(current.pic, current.handle, marks, max).0;
    match following {
        Some(slice) => {
            beginning_keeps_every_picture(n, unit, slice, t);
        },
        None => {
            lemma_delivering_keeps(n, unit.output, t);
        },
    }
}

pub proof fn lemma_finishing_keeps_pps(
    m: MemoryState,
    pic: PictureData,
    handle: Handle,
    marks: RefPicMarking,
    max_num_ref_frames: u8,
)
    ensures
        m.finished(pic, handle, marks, max_num_ref_frames).0.pps == m.pps,
{
}

proof fn lemma_delivering_keeps(m: MemoryState, output: Output, t: Turn)
    requires
        machine::delivers(m, output, t),
    ensures
        in_hand(t) == owes(m),
{
    broadcast use vstd::seq_lib::group_to_multiset_ensures;

    if m.ready.len() == 0 {
        assert(m.ready =~= Seq::<Handle>::empty());
        assert(t.memory.ready =~= m.ready);
    } else {
        assert(in_hand(t) =~= owes(m));
    }
}

/// The picture a turn that takes `reply` at `work` learns to be decoded, if any.
pub open spec fn decoded_now(work: Work, reply: Reply) -> Multiset<Handle> {
    match (work, reply) {
        (
            Work::Decoding { unit: _, wait: Wait::Submit { current, .. } },
            Reply::Done,
        ) => Multiset::singleton(current.handle),
        _ => Multiset::empty(),
    }
}

/// Whether nothing still to be read at `work` has prior pictures discarded.
pub open spec fn nothing_discarded(work: Work) -> bool {
    match work {
        Work::Decoding { unit, wait } => {
            &&& forall|i: int|
                0 <= i < unit.nals@.len() ==> (#[trigger] unit.nals@[i] matches Nal::Slice(
                    Some(slice),
                ) ==> !discards(*slice))
            &&& match wait {
                Wait::Sequence { slice, .. } => !discards(*slice),
                Wait::Submit { following: Some(slice), .. } => !discards(*slice),
                _ => true,
            }
        },
        _ => true,
    }
}

/// The pictures a turn that leads from `work` to `t` hands over.
pub open spec fn handed_over(work: Work, t: Turn) -> Multiset<Handle> {
    match (work, t.result) {
        (Work::Delivering(d), Ok(Step::Frames(_))) => d.handles@.to_multiset(),
        (Work::Delivering(d), Ok(Step::Exported(_))) => d.handles@.to_multiset(),
        _ => Multiset::empty(),
    }
}

/// No turn loses a picture and none brings one twice: what is in hand grows by the
/// picture just decoded, shrinks by the pictures handed over, and changes by
/// nothing else.
pub proof fn no_turn_loses_a_picture(m: MemoryState, work: Work, reply: Reply, t: Turn)
    requires
        machine::machine_wf(m, work),
        machine::answers(work, reply),
        machine::resumed(m, work, reply, t),
        nothing_discarded(work),
        t.result is Ok,
    ensures
        in_hand(t).add(handed_over(work, t)) == in_hand(
            Turn { memory: m, work, result: t.result },
        ).add(decoded_now(work, reply)),
{
    broadcast use vstd::seq_lib::group_to_multiset_ensures;

    let before = in_hand(Turn { memory: m, work, result: t.result });
    match work {
        Work::Idle => {},
        Work::Decoding { unit, wait } => match (wait, reply) {
            (_, Reply::Failed(_)) => {},
            (Wait::Sequence { slice, pps, sequence }, Reply::Done) => {
                let n = MemoryState { sequence: Some(sequence@), ..m };
                preparing_keeps_every_picture(n, slice_of(slice), sps_of(pps), unit.timestamp);
            },
            (Wait::Slice { current }, Reply::Done) => {
                lemma_advancing_keeps(m, unit, Some(current), t);
            },
            (Wait::Submit { current, following }, Reply::Done) => {
                decoding_owes_the_picture_once(m, unit, current, following, t);
                assert(owes(m).insert(current.handle) =~= owes(m).add(
                    Multiset::singleton(current.handle),
                ));
            },
            _ => {},
        },
        Work::Delivering(d) => {
            lemma_delivery_keeps_memory(m, d, reply, t);
        },
    }
    assert(in_hand(t).add(handed_over(work, t)) =~= before.add(decoded_now(work, reply)));
}

/// Delivering a picture changes nothing about those not yet due.
pub proof fn lemma_delivery_keeps_memory(m: MemoryState, d: Delivery, reply: Reply, t: Turn)
    requires
        machine::delivery_wf(d),
        machine::answers(Work::Delivering(d), reply),
        machine::delivery_resumed(m, d, reply, t),
        t.result is Ok,
    ensures
        owes(t.memory) == owes(m),
        t.work matches Work::Delivering(n) ==> n.handles == d.handles,
        t.work is Delivering || t.work is Idle,
        t.work is Idle <==> !(t.result matches Ok(Step::Ask(_))),
{
}

pub proof fn lemma_stop(nals: Seq<Nal>, i: int, pps: Map<u8, Rc<Pps>>)
    requires
        0 <= i,
    ensures
        ({
            let (k, after, e) = machine::stop(nals, i, pps);
            e is None && k < nals.len() ==> 0 <= k && (nals[k] matches Nal::Slice(Some(slice))
                && machine::conforms(after, *slice))
        }),
    decreases nals.len() - i,
{
    if i < nals.len() {
        match nals[i] {
            Nal::Pps(Some(p)) => lemma_stop(nals, i + 1, pps.insert(p.pic_parameter_set_id, p)),
            _ => lemma_stop(nals, i + 1, pps),
        }
    }
}

proof fn lemma_advancing_keeps(
    m: MemoryState,
    unit: Unit,
    current: Option<CurrentPicture>,
    t: Turn,
)
    requires
        machine::advances(m, unit, current, t),
        forall|i: int|
            0 <= i < unit.nals@.len() ==> (#[trigger] unit.nals@[i] matches Nal::Slice(Some(slice))
                ==> !discards(*slice)),
    ensures
        in_hand(t) == owes(m),
{
    lemma_stop(unit.nals@, unit.next as int, m.pps);
    let (i, pps, e) = machine::stop(unit.nals@, unit.next as int, m.pps);
    let n = MemoryState { pps, ..m };
    assert(owes(n) == owes(m));
    if e is None {
        if i >= unit.nals@.len() {
            if current is None {
                lemma_delivering_keeps(n, unit.output, t);
            }
        } else {
            let slice = unit.nals@[i]->Slice_0.unwrap();
            let past = Unit { next: (i + 1) as usize, ..unit };
            if current is None {
                assert(!discards(*slice));
                beginning_keeps_every_picture(n, past, slice, t);
            }
        }
    }
}

////// The life of a decoder

/// What happens to a decoder: it is fed, flushed, or answered.
pub enum Event {
    Feed(Unit),
    Flush(Output),
    Answer(Reply),
}

/// Whether the event `e` leads from `before` to `after`.
#[verifier::opaque]
pub open spec fn leads(before: Turn, e: Event, after: Turn) -> bool {
    match e {
        Event::Feed(unit) => before.work is Idle && machine::advances(
            before.memory,
            unit,
            None,
            after,
        ),
        Event::Flush(output) => before.work is Idle && machine::delivers(
            before.memory.reset(),
            output,
            after,
        ),
        Event::Answer(reply) => machine::answers(before.work, reply) && machine::resumed(
            before.memory,
            before.work,
            reply,
            after,
        ),
    }
}

/// Whether `turns` is what the events `events` make of a decoder that has seen
/// nothing.
pub open spec fn is_history(turns: Seq<Turn>, events: Seq<Event>) -> bool {
    &&& turns.len() == events.len() + 1
    &&& turns[0].memory == MemoryState::initial()
    &&& turns[0].work is Idle
    &&& turns[0].result matches Ok(Step::Frames(f)) && f@.len() == 0
    &&& forall|i: int|
        0 <= i < turns.len() ==> machine::machine_wf((#[trigger] turns[i]).memory, turns[i].work)
    &&& forall|i: int|
        0 <= i < events.len() ==> leads(turns[i], #[trigger] events[i], turns[i + 1])
}

/// Whether `turns` is what the events `events` make of a decoder that has seen
/// nothing, where nothing fails.
pub open spec fn is_life(turns: Seq<Turn>, events: Seq<Event>) -> bool {
    &&& is_history(turns, events)
    &&& forall|i: int| 0 <= i < turns.len() ==> (#[trigger] turns[i]).result is Ok
}

/// Whether no event has prior pictures discarded.
pub open spec fn is_kept(turns: Seq<Turn>, events: Seq<Event>) -> bool {
    &&& forall|i: int| 0 <= i < turns.len() ==> nothing_discarded((#[trigger] turns[i]).work)
    &&& forall|i: int|
        0 <= i < events.len() ==> (#[trigger] events[i] matches Event::Feed(unit) ==> forall|
            k: int,
        |
            0 <= k < unit.nals@.len() ==> (#[trigger] unit.nals@[k] matches Nal::Slice(Some(slice))
                ==> !discards(*slice)))
}

/// The pictures decoded by the first `n` events.
pub open spec fn decoded_by(turns: Seq<Turn>, events: Seq<Event>, n: int) -> Multiset<Handle>
    decreases n,
{
    if n <= 0 {
        Multiset::empty()
    } else {
        decoded_by(turns, events, n - 1).add(
            match events[n - 1] {
                Event::Answer(reply) => decoded_now(turns[n - 1].work, reply),
                _ => Multiset::empty(),
            },
        )
    }
}

/// The pictures handed over by the first `n` events.
pub open spec fn handed_over_by(turns: Seq<Turn>, n: int) -> Multiset<Handle>
    decreases n,
{
    if n <= 0 {
        Multiset::empty()
    } else {
        handed_over_by(turns, n - 1).add(handed_over(turns[n - 1].work, turns[n]))
    }
}

/// At every moment of a decoder's life, each picture decoded so far has either been
/// handed over or is in hand, and no picture is counted twice.
pub proof fn every_picture_is_accounted_for(turns: Seq<Turn>, events: Seq<Event>, n: int)
    requires
        is_life(turns, events),
        is_kept(turns, events),
        0 <= n < turns.len(),
    ensures
        in_hand(turns[n]).add(handed_over_by(turns, n)) == decoded_by(turns, events, n),
    decreases n,
{
    broadcast use vstd::seq_lib::group_to_multiset_ensures;

    if n == 0 {
        assert(in_hand(turns[0]).add(handed_over_by(turns, 0)) =~= Multiset::<Handle>::empty());
    } else {
        every_picture_is_accounted_for(turns, events, n - 1);
        let before = turns[n - 1];
        let after = turns[n];
        let e = events[n - 1];
        reveal(leads);
        assert(leads(before, e, turns[n - 1 + 1]));
        assert(machine::machine_wf(before.memory, before.work));
        assert(after.result is Ok);
        assert(nothing_discarded(before.work));
        match e {
            Event::Feed(unit) => {
                lemma_advancing_keeps(before.memory, unit, None, after);
                assert(handed_over(before.work, after) =~= Multiset::<Handle>::empty());
            },
            Event::Flush(output) => {
                flushing_delivers_everything(before.memory, output, after);
                assert(handed_over(before.work, after) =~= Multiset::<Handle>::empty());
                assert(in_hand(after) =~= in_hand(before));
            },
            Event::Answer(reply) => {
                no_turn_loses_a_picture(before.memory, before.work, reply, after);
                assert(in_hand(before) == in_hand(
                    Turn { memory: before.memory, work: before.work, result: after.result },
                ));
            },
        }
        assert(in_hand(after).add(handed_over_by(turns, n)) =~= in_hand(after).add(
            handed_over(before.work, after),
        ).add(handed_over_by(turns, n - 1)));
        assert(in_hand(turns[n]).add(handed_over_by(turns, n)) =~= decoded_by(turns, events, n));
    }
}

/// Every picture decoded comes back out, once, by the time a flush is through.
pub proof fn flushed_streams_lose_nothing(turns: Seq<Turn>, events: Seq<Event>, k: int)
    requires
        is_life(turns, events),
        is_kept(turns, events),
        0 <= k < events.len(),
        events[k] is Flush,
        forall|i: int| k < i < events.len() ==> (#[trigger] events[i]) is Answer,
        turns.last().work is Idle,
    ensures
        handed_over_by(turns, turns.len() - 1) == decoded_by(turns, events, turns.len() - 1),
{
    let n = turns.len() - 1;
    every_picture_is_accounted_for(turns, events, n);
    lemma_flush_goes_through(turns, events, k, n);
    assert(in_hand(turns[n]) =~= Multiset::<Handle>::empty());
    assert(in_hand(turns[n]).add(handed_over_by(turns, n)) =~= handed_over_by(turns, n));
}

proof fn lemma_flush_goes_through(turns: Seq<Turn>, events: Seq<Event>, k: int, n: int)
    requires
        is_life(turns, events),
        0 <= k < n < turns.len(),
        events[k] is Flush,
        forall|i: int| k < i < events.len() ==> (#[trigger] events[i]) is Answer,
    ensures
        owes(turns[n].memory) == Multiset::<Handle>::empty(),
        turns[n].work is Delivering || turns[n].work is Idle,
    decreases n,
{
    let before = turns[n - 1];
    let after = turns[n];
    let e = events[n - 1];
    reveal(leads);
    assert(leads(before, e, turns[n - 1 + 1]));
    assert(machine::machine_wf(before.memory, before.work));
    assert(after.result is Ok);
    if n - 1 == k {
        flushing_delivers_everything(before.memory, e->Flush_0, after);
    } else {
        lemma_flush_goes_through(turns, events, k, n - 1);
        assert(events[n - 1] is Answer);
        match before.work {
            Work::Delivering(d) => {
                lemma_delivery_keeps_memory(before.memory, d, e->Answer_0, after);
            },
            _ => {},
        }
    }
}

////// What a turn comes to

/// The decoder waits for the driver exactly as long as it asks: once a call is
/// answered, or has failed, nothing is left half done.
pub proof fn answered_calls_leave_nothing_in_flight(
    m: MemoryState,
    work: Work,
    reply: Reply,
    t: Turn,
)
    requires
        machine::answers(work, reply),
        machine::resumed(m, work, reply, t),
    ensures
        t.work is Idle <==> !(t.result matches Ok(Step::Ask(_))),
{
}

/// As [`answered_calls_leave_nothing_in_flight`], for the first turn of a call.
pub proof fn fed_calls_leave_nothing_in_flight(m: MemoryState, unit: Unit, t: Turn)
    requires
        machine::advances(m, unit, None, t),
    ensures
        t.work is Idle <==> !(t.result matches Ok(Step::Ask(_))),
{
}

/// A call that succeeds leaves no picture in the ready queue.
pub proof fn answered_calls_empty_the_queue(m: MemoryState, work: Work, reply: Reply, t: Turn)
    requires
        machine::machine_wf(m, work),
        machine::answers(work, reply),
        machine::resumed(m, work, reply, t),
        t.result is Ok,
        t.work is Idle,
    ensures
        t.memory.ready.len() == 0,
{
}

/// An access unit with no slices in it decodes to no frames.
pub proof fn parameter_sets_alone_decode_to_nothing(m: MemoryState, unit: Unit, t: Turn)
    requires
        m.ready.len() == 0,
        forall|i: int| 0 <= i < unit.nals@.len() ==> !(#[trigger] unit.nals@[i] is Slice),
        machine::advances(m, unit, None, t),
    ensures
        match t.result {
            Ok(step) => machine::hands_over_nothing(unit.output, t) && owes(t.memory) == owes(m)
                && t.memory.dpb == m.dpb,
            Err(e) => e == DecodeError::Sps || e == DecodeError::Pps,
        },
{
    lemma_no_slice(unit.nals@, unit.next as int, m.pps);
    assert(t.memory.ready =~= m.ready);
}

proof fn lemma_no_slice(nals: Seq<Nal>, i: int, pps: Map<u8, Rc<Pps>>)
    requires
        0 <= i,
        forall|i: int| 0 <= i < nals.len() ==> !(#[trigger] nals[i] is Slice),
    ensures
        ({
            let (k, after, e) = machine::stop(nals, i, pps);
            match e {
                None => k >= nals.len(),
                Some(e) => e == DecodeError::Sps || e == DecodeError::Pps,
            }
        }),
    decreases nals.len() - i,
{
    if i < nals.len() {
        assert(!(nals[i] is Slice));
        match nals[i] {
            Nal::Pps(Some(p)) => lemma_no_slice(nals, i + 1, pps.insert(p.pic_parameter_set_id, p)),
            _ => lemma_no_slice(nals, i + 1, pps),
        }
    }
}

/// Whichever way the pictures are taken, the same is decoded: the two ways fail
/// alike and leave the same memory.
pub proof fn exporting_decodes_alike(
    m: MemoryState,
    unit: Unit,
    exporting: Unit,
    current: Option<CurrentPicture>,
    t: Turn,
    u: Turn,
)
    requires
        unit.output == Output::Frames,
        exporting == (Unit { output: Output::Exported, ..unit }),
        machine::advances(m, unit, current, t),
        machine::advances(m, exporting, current, u),
    ensures
        t.memory == u.memory,
        t.work is Idle <==> u.work is Idle,
        match t.result {
            Ok(_) => u.result is Ok,
            Err(e) => u.result matches Err(f) && f == e,
        },
{
}

////// The decoded picture buffer

/// Whether the buffer of `m` holds no more frames than it has room for, and what it
/// holds was decoded under limits of the active sequence.
pub open spec fn buffer_fits(m: MemoryState) -> bool {
    &&& m.dpb.entries.len() <= m.dpb.max_num_pics
    &&& m.dpb.entries.len() > 0 ==> limits_agree(m)
}

/// Whether the buffer has the size the active sequence gives it.
pub open spec fn limits_agree(m: MemoryState) -> bool {
    m.sequence matches Some(s) && s.info.max_dpb_frames == m.dpb.max_num_pics
}

/// Whether the buffer of a decoder with the memory `m` fits, and will go on fitting
/// once what `work` waits for has been answered.
pub open spec fn buffer_stays_fit(m: MemoryState, work: Work) -> bool {
    &&& buffer_fits(m)
    &&& match work {
        Work::Decoding { unit: _, wait: Wait::Sequence { sequence, .. } } => {
            &&& m.dpb.entries.len() == 0
            &&& sequence@.info.max_dpb_frames == m.dpb.max_num_pics
        },
        Work::Decoding { .. } => limits_agree(m),
        _ => true,
    }
}

/// Whether `n` has the active sequence of `m`, but perhaps for the order its surfaces
/// are used in.
pub open spec fn keeps_sequence(m: MemoryState, n: MemoryState) -> bool {
    match (m.sequence, n.sequence) {
        (Some(s), Some(t)) => s.info == t.info && s.width == t.width && s.height == t.height,
        (None, None) => true,
        _ => false,
    }
}

/// Whether `n` keeps the limits and the sequence of `m`, and fits if `m` does.
pub open spec fn fits_like(m: MemoryState, n: MemoryState) -> bool {
    &&& n.dpb.max_num_pics == m.dpb.max_num_pics
    &&& keeps_sequence(m, n)
    &&& m.dpb.entries.len() <= m.dpb.max_num_pics ==> n.dpb.entries.len() <= n.dpb.max_num_pics
}

proof fn lemma_bumping_fits(m: MemoryState, pic: PictureData)
    ensures
        fits_like(m, m.bumped(pic)),
{
    laws::only_storing_takes_a_buffer(
        m.dpb,
        pic,
        m.max_long_term_frame_idx,
        Seq::empty(),
        0,
        0,
        0,
    );
}

proof fn lemma_filling_fits(
    m: MemoryState,
    sps: Sps,
    unused: int,
    frame_num: int,
    timestamp: u64,
)
    requires
        0 <= unused < sps.spec_max_frame_num(),
        0 <= frame_num < sps.spec_max_frame_num(),
    ensures
        fits_like(m, m.filled(sps, unused, frame_num, timestamp).0),
    decreases state::frame_num_distance(unused, frame_num, sps.spec_max_frame_num() as int),
{
    if unused != frame_num {
        let max = sps.spec_max_frame_num();
        let invented = PictureData::non_existing(unused as u32, timestamp);
        let ordering = MemoryState { prev: poc::prev_after(m.prev, invented), ..m };
        match poc::ordered(m.prev_ref, m.prev, invented, sps) {
            Err(_) => {},
            Ok(pic) => {
                let renumbered = m.dpb.renumbered(unused as u32, max as u32);
                laws::only_storing_takes_a_buffer(
                    renumbered,
                    pic,
                    m.max_long_term_frame_idx,
                    Seq::empty(),
                    0,
                    0,
                    sps.max_num_ref_frames,
                );
                let marked = MemoryState {
                    dpb: renumbered.slid(sps.max_num_ref_frames),
                    ..ordering
                };
                lemma_bumping_fits(marked, pic);
                let bumped = marked.bumped(pic);
                if bumped.dpb.has_room() {
                    lemma_filling_fits(
                        bumped.stored(pic, None),
                        sps,
                        state::next_frame_num(unused, max as int),
                        frame_num,
                        timestamp,
                    );
                }
            },
        }
    }
}

pub proof fn lemma_preparing_fits(m: MemoryState, slice: Slice, sps: Sps, timestamp: u64)
    requires
        slice.header.frame_num < sps.spec_max_frame_num(),
    ensures
        fits_like(m, m.prepared(slice, sps, timestamp).0),
{
    let s = m.renumbering(slice.idr_pic_flag);
    let frame_num = slice.header.frame_num as int;
    let max = sps.spec_max_frame_num() as int;
    lemma_filling_fits(s, sps, (s.prev_ref.frame_num + 1) % max, frame_num, timestamp);
}

pub proof fn lemma_finishing_fits(
    m: MemoryState,
    pic: PictureData,
    handle: Handle,
    marks: RefPicMarking,
    max_num_ref_frames: u8,
)
    ensures
        fits_like(m, m.finished(pic, handle, marks, max_num_ref_frames).0),
{
    laws::only_storing_takes_a_buffer(
        m.dpb,
        pic,
        m.max_long_term_frame_idx,
        marks.inner@,
        0,
        0,
        max_num_ref_frames,
    );
    let (t, marked, r) = m.marked(pic, marks, max_num_ref_frames);
    if r is Ok {
        let cached = MemoryState { prev: poc::PrevPicInfo::of(marked), ..t };
        let emptied = if marked.has_mmco_5 {
            cached.drained()
        } else {
            cached
        };
        lemma_bumping_fits(emptied, marked);
    }
}

proof fn lemma_beginning_fits(m: MemoryState, unit: Unit, slice: Rc<Slice>, t: Turn)
    requires
        machine::conforms(m.pps, *slice),
        machine::begins(m, unit, slice, t),
        buffer_fits(m),
    ensures
        buffer_stays_fit(t.memory, t.work),
{
    let id = slice.header.pic_parameter_set_id;
    if m.pps.contains_key(id) {
        let pps = m.pps[id];
        let shown = m.limited(sps_of(pps)).cropped(sps_of(pps));
        lemma_preparing_fits(shown, slice_of(slice), sps_of(pps), unit.timestamp);
    }
}

proof fn lemma_advancing_fits(
    m: MemoryState,
    unit: Unit,
    current: Option<CurrentPicture>,
    t: Turn,
)
    requires
        machine::advances(m, unit, current, t),
        buffer_fits(m),
        current is Some ==> limits_agree(m),
    ensures
        buffer_stays_fit(t.memory, t.work),
{
    lemma_stop(unit.nals@, unit.next as int, m.pps);
    let (i, pps, e) = machine::stop(unit.nals@, unit.next as int, m.pps);
    let n = MemoryState { pps, ..m };
    if e is None && i < unit.nals@.len() && current is None {
        let slice = unit.nals@[i]->Slice_0.unwrap();
        let past = Unit { next: (i + 1) as usize, ..unit };
        lemma_beginning_fits(n, past, slice, t);
    }
}

proof fn lemma_answering_fits(m: MemoryState, work: Work, reply: Reply, t: Turn)
    requires
        machine::machine_wf(m, work),
        machine::answers(work, reply),
        machine::resumed(m, work, reply, t),
        buffer_stays_fit(m, work),
    ensures
        buffer_stays_fit(t.memory, t.work),
{
    match work {
        Work::Decoding { unit, wait } => match (wait, reply) {
            (Wait::Sequence { slice, pps, sequence }, Reply::Done) => {
                let n = MemoryState { sequence: Some(sequence@), ..m };
                lemma_preparing_fits(n, slice_of(slice), sps_of(pps), unit.timestamp);
            },
            (Wait::Slice { current }, Reply::Done) => {
                lemma_advancing_fits(m, unit, Some(current), t);
            },
            (Wait::Submit { current, following }, Reply::Done) => {
                let marks = current.first.header.dec_ref_pic_marking;
                let max = current.pps.sps.max_num_ref_frames;
                lemma_finishing_fits(m, current.pic, current.handle, marks, max);
                lemma_finishing_keeps_pps(m, current.pic, current.handle, marks, max);
                let (n, r) = m.finished(current.pic, current.handle, marks, max);
                if r is Ok {
                    match following {
                        Some(slice) => {
                            lemma_beginning_fits(n, unit, slice, t);
                        },
                        None => {},
                    }
                }
            },
            _ => {},
        },
        _ => {},
    }
}

/// The decoded picture buffer never holds more frames than the sequence gives it
/// room for, whatever is fed, flushed, or answered.
pub proof fn the_buffer_never_overflows(before: Turn, e: Event, after: Turn)
    requires
        machine::machine_wf(before.memory, before.work),
        leads(before, e, after),
        buffer_stays_fit(before.memory, before.work),
    ensures
        buffer_stays_fit(after.memory, after.work),
{
    reveal(leads);
    match e {
        Event::Feed(unit) => {
            lemma_advancing_fits(before.memory, unit, None, after);
        },
        Event::Flush(_) => {},
        Event::Answer(reply) => {
            lemma_answering_fits(before.memory, before.work, reply, after);
        },
    }
}

////// Delivery

/// The pictures handed over are those that came due, in their order, each with the
/// timestamp and size it was decoded with.
pub proof fn deliveries_are_complete_and_in_order(
    m: MemoryState,
    d: Delivery,
    reply: Reply,
    t: Turn,
)
    requires
        machine::delivery_wf(d),
        machine::answers(Work::Delivering(d), reply),
        machine::delivery_resumed(m, d, reply, t),
    ensures
        t.result matches Ok(Step::Frames(f)) ==> machine::frames_match(f@, d.handles@),
        t.result matches Ok(Step::Exported(f)) ==> machine::exports_match(f@, d.handles@),
{
    if d.next + 1 == d.handles@.len() {
        assert(d.handles@.take(d.next as int).push(machine::due(d)) =~= d.handles@);
    }
}

/// Flushing delivers every picture decoded and not yet delivered, each once: first
/// those already due, then the rest in output order.
pub proof fn flushing_delivers_everything(m: MemoryState, output: Output, t: Turn)
    requires
        machine::delivers(m.reset(), output, t),
    ensures
        t.work matches Work::Delivering(d) ==> d.handles@ == m.ready + dpb::handles(
            dpb::output_sequence(m.dpb.entries),
        ) && d.handles@.to_multiset() == owes(m),
        t.work is Idle ==> owes(m) == Multiset::<Handle>::empty() && machine::hands_over_nothing(
            output,
            t,
        ),
        owes(t.memory) == Multiset::<Handle>::empty(),
{
    broadcast use vstd::seq_lib::group_to_multiset_ensures;

    draining_keeps_every_picture(m);
    assert(owes(t.memory) =~= Multiset::<Handle>::empty());
    if t.work is Idle {
        assert(m.reset().ready =~= Seq::<Handle>::empty());
        assert(owes(m) =~= Multiset::<Handle>::empty());
    }
}

/// Flushing a flushed decoder delivers nothing.
pub proof fn flushing_twice_delivers_nothing(
    m: MemoryState,
    output: Output,
    t: Turn,
    again: Output,
    u: Turn,
)
    requires
        machine::delivers(m.reset(), output, t),
        machine::delivers(t.memory.reset(), again, u),
    ensures
        u.work is Idle,
        machine::hands_over_nothing(again, u),
{
    laws::draining_twice_outputs_nothing(m.dpb);
    assert(t.memory.reset().ready =~= Seq::<Handle>::empty());
}

////// Surfaces

/// A picture starts in a surface that no picture still needed is in.
pub proof fn pictures_start_in_free_surfaces(
    m: MemoryState,
    unit: Unit,
    slice: Rc<Slice>,
    pps: Rc<Pps>,
    t: Turn,
)
    requires
        machine::prepares(m, unit, slice, pps, t),
    ensures
        t.work matches Work::Decoding { unit: _, wait: Wait::Picture { slice: _, current } } ==> !(
        sequence::referred_to(t.memory.dpb.entries, t.memory.ready, current.handle.surface)),
{
    let n = m.prepared(slice_of(slice), sps_of(pps), unit.timestamp).0;
    sequence::allocated_surfaces_hold_no_picture(
        n.sequence.unwrap().surfaces,
        n.dpb.entries,
        n.ready,
    );
}

} // verus!
