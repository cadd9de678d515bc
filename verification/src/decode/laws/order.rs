//! The order pictures come out of the decoder in.

use std::rc::Rc;

use vstd::prelude::*;

use crate::decode::laws;
use crate::decode::laws::shape;
use crate::decode::laws::surfaces;
use crate::decode::laws::Event;
use crate::decode::machine;
use crate::decode::machine::{
    CurrentPicture, Delivery, ExportedFrame, Nal, Output, Reply, Step, Turn, Unit, Wait, Work,
};
use crate::decode::nv12::Frame;
use crate::decode::poc;
use crate::decode::state;
use crate::decode::state::MemoryState;
use crate::h264::dpb;
use crate::h264::dpb::laws as dpb_laws;
use crate::h264::dpb::mmco::Marking;
use crate::h264::dpb::order;
use crate::h264::picture::PictureData;
use crate::h264::syntax::{Pps, RefPicMarking, Slice, Sps};
use crate::surface::Handle;

verus! {

/// The pictures a decoder with the memory `m` would output if it stopped now, in order.
pub open spec fn promised(m: MemoryState) -> Seq<Handle> {
    m.ready + order::outputs(m.dpb.entries)
}

/// The pictures decoded and not yet handed over after a turn, in the order they would
/// come out.
pub open spec fn in_line(t: Turn) -> Seq<Handle> {
    match t.work {
        Work::Delivering(d) => d.handles@ + promised(t.memory),
        _ => promised(t.memory),
    }
}

/// Whether the buffer of `m` is no less deep than its reorder depth.
pub open spec fn depth_fits(m: MemoryState) -> bool {
    m.dpb.max_num_reorder_frames <= m.dpb.max_num_pics
}

/// What is in the buffer of `m`, in the order it would come out.
pub open spec fn queued(m: MemoryState) -> Seq<order::Ticket> {
    order::queue(m.dpb.entries)
}

/// Whether `n` promises what `m` does, in the same order, with no more of it in the
/// buffer.
pub open spec fn promises_alike(m: MemoryState, n: MemoryState) -> bool {
    &&& promised(n) == promised(m)
    &&& order::is_end_of(queued(n), queued(m))
    &&& depth_fits(m) ==> depth_fits(n)
}

pub proof fn lemma_outputs_of_nothing()
    ensures
        order::outputs(Seq::empty()) == Seq::<Handle>::empty(),
{
    dpb_laws::draining_twice_outputs_nothing(MemoryState::initial().dpb);
}

pub proof fn lemma_draining(m: MemoryState)
    ensures
        promises_alike(m, m.drained()),
        promises_alike(m, m.reset()),
        m.drained().ready == promised(m),
        m.reset().ready == promised(m),
{
    lemma_outputs_of_nothing();
    assert(queued(m.drained()) =~= queued(m).skip(queued(m).len() as int));
    assert(promised(m.drained()) =~= promised(m));
    assert(promised(m.reset()) =~= promised(m));
}

pub proof fn lemma_bumping(m: MemoryState, pic: PictureData)
    ensures
        promises_alike(m, m.bumped(pic)),
        m.bumped(pic).dpb.max_num_pics == m.dpb.max_num_pics,
{
    order::pruning_keeps_the_order(m.dpb);
    order::bumping_keeps_the_order(m.dpb.pruned(), pic);
    dpb_laws::lemma_bumping_ends(m.dpb.pruned(), pic);
    order::lemma_pruned_queue(m.dpb);
    order::bumping_takes_the_first(m.dpb.pruned(), pic);
    let left = queued(m.bumped(pic));
    assert(left =~= queued(m).skip(queued(m).len() - left.len()));
    assert(promised(m.bumped(pic)) =~= promised(m));
}

proof fn lemma_marking_waits(
    m: MemoryState,
    pic: PictureData,
    marks: RefPicMarking,
    frame_num: u32,
    max_frame_num: u32,
    max_num_ref_frames: u8,
)
    ensures
        order::outputs(m.dpb.renumbered(frame_num, max_frame_num).entries) == order::outputs(
            m.dpb.entries,
        ),
        order::outputs(m.dpb.slid(max_num_ref_frames).entries) == order::outputs(m.dpb.entries),
        order::queue(m.dpb.renumbered(frame_num, max_frame_num).entries) == queued(m),
        order::queue(m.dpb.slid(max_num_ref_frames).entries) == queued(m),
{
    let s = Marking { dpb: m.dpb, pic, max_long_term_frame_idx: m.max_long_term_frame_idx };
    order::marking_keeps_what_waits(
        s,
        marks.inner@,
        frame_num,
        max_frame_num,
        max_num_ref_frames,
    );
    order::waiting_alike_leaves_alike(
        m.dpb.entries,
        m.dpb.renumbered(frame_num, max_frame_num).entries,
    );
    order::waiting_alike_leaves_alike(m.dpb.entries, m.dpb.slid(max_num_ref_frames).entries);
    order::lemma_queues_alike(
        m.dpb.entries,
        m.dpb.renumbered(frame_num, max_frame_num).entries,
    );
    order::lemma_queues_alike(m.dpb.entries, m.dpb.slid(max_num_ref_frames).entries);
}

pub proof fn lemma_alike(m: MemoryState, n: MemoryState, o: MemoryState)
    requires
        promises_alike(m, n),
        promises_alike(n, o),
    ensures
        promises_alike(m, o),
{
    order::lemma_ends(queued(o), queued(n), queued(m));
}

pub proof fn lemma_unchanged(m: MemoryState, n: MemoryState)
    requires
        promised(n) == promised(m),
        queued(n) == queued(m),
        depth_fits(m) ==> depth_fits(n),
    ensures
        promises_alike(m, n),
{
    assert(queued(m).skip(0) =~= queued(m));
}

proof fn lemma_filling(
    m: MemoryState,
    sps: Sps,
    unused: int,
    frame_num: int,
    timestamp: u64,
    marks: RefPicMarking,
)
    requires
        0 <= unused < sps.spec_max_frame_num(),
        0 <= frame_num < sps.spec_max_frame_num(),
    ensures
        promises_alike(m, m.filled(sps, unused, frame_num, timestamp).0),
    decreases
            state::frame_num_distance(
                unused,
                frame_num,
                sps.spec_max_frame_num() as int,
            ),
{
    if unused != frame_num {
        let max = sps.spec_max_frame_num();
        let invented = PictureData::non_existing(unused as u32, timestamp);
        let ordering = MemoryState { prev: poc::prev_after(m.prev, invented), ..m };
        match poc::ordered(m.prev_ref, m.prev, invented, sps) {
            Err(_) => {},
            Ok(pic) => {
                let renumbered = MemoryState {
                    dpb: m.dpb.renumbered(unused as u32, max as u32),
                    ..ordering
                };
                lemma_marking_waits(m, pic, marks, unused as u32, max as u32, 0);
                lemma_marking_waits(renumbered, pic, marks, 0, 0, sps.max_num_ref_frames);
                let marked = MemoryState {
                    dpb: renumbered.dpb.slid(sps.max_num_ref_frames),
                    ..ordering
                };
                lemma_unchanged(m, marked);
                lemma_bumping(marked, pic);
                let bumped = marked.bumped(pic);
                lemma_alike(m, marked, bumped);
                if bumped.dpb.has_room() {
                    order::invented_pictures_take_no_place(bumped.dpb, pic);
                    lemma_unchanged(bumped, bumped.stored(pic, None));
                    lemma_alike(m, bumped, bumped.stored(pic, None));
                    lemma_filling(
                        bumped.stored(pic, None),
                        sps,
                        state::next_frame_num(unused, max as int),
                        frame_num,
                        timestamp,
                        marks,
                    );
                    lemma_alike(
                        m,
                        bumped.stored(pic, None),
                        m.filled(sps, unused, frame_num, timestamp).0,
                    );
                }
            },
        }
    }
    if unused == frame_num || poc::ordered(
        m.prev_ref,
        m.prev,
        PictureData::non_existing(unused as u32, timestamp),
        sps,
    ) is Err {
        lemma_unchanged(m, m.filled(sps, unused, frame_num, timestamp).0);
    }
}

/// Getting ready for a picture keeps the order, unless the stream says to discard it.
proof fn lemma_preparing(m: MemoryState, slice: Slice, sps: Sps, timestamp: u64)
    requires
        slice.header.frame_num < sps.spec_max_frame_num(),
        !laws::discards(slice),
    ensures
        promises_alike(m, m.prepared(slice, sps, timestamp).0),
        slice.idr_pic_flag && m.prepared(slice, sps, timestamp).1 is Ok ==> queued(
            m.prepared(slice, sps, timestamp).0,
        ).len() == 0,
{
    let s = m.renumbering(slice.idr_pic_flag);
    lemma_unchanged(m, s);
    let frame_num = slice.header.frame_num as int;
    let marks = slice.header.dec_ref_pic_marking;
    if s.skips_to(frame_num, sps) {
        let max = sps.spec_max_frame_num() as int;
        lemma_filling(s, sps, (s.prev_ref.frame_num + 1) % max, frame_num, timestamp, marks);
        let filled = s.gap_handled(sps, frame_num, timestamp).0;
        if s.dpb.entries.len() == 0 || !sps.gaps_in_frame_num_value_allowed_flag {
            lemma_unchanged(s, filled);
        }
        lemma_alike(m, s, filled);
        lemma_initiating(filled, slice, sps, timestamp);
        lemma_alike(m, filled, filled.initiated(slice, sps, timestamp).0);
    } else {
        lemma_initiating(s, slice, sps, timestamp);
        lemma_alike(m, s, s.initiated(slice, sps, timestamp).0);
    }
}

proof fn lemma_initiating(m: MemoryState, slice: Slice, sps: Sps, timestamp: u64)
    requires
        !laws::discards(slice),
    ensures
        promises_alike(m, m.initiated(slice, sps, timestamp).0),
        slice.idr_pic_flag && m.initiated(slice, sps, timestamp).1 is Ok ==> queued(
            m.initiated(slice, sps, timestamp).0,
        ).len() == 0,
{
    let coded = PictureData::of_slice(slice, sps, timestamp);
    let ordering = MemoryState { prev: poc::prev_after(m.prev, coded), ..m };
    lemma_unchanged(m, ordering);
    lemma_draining(ordering);
    let emptied = if slice.idr_pic_flag {
        ordering.drained()
    } else {
        ordering
    };
    lemma_marking_waits(
        emptied,
        coded,
        slice.header.dec_ref_pic_marking,
        slice.header.frame_num as u32,
        sps.spec_max_frame_num() as u32,
        0,
    );
    let n = m.initiated(slice, sps, timestamp).0;
    if m.initiated(slice, sps, timestamp).1 is Ok {
        lemma_unchanged(emptied, n);
        if slice.idr_pic_flag {
            lemma_alike(m, ordering, emptied);
        }
        lemma_alike(m, emptied, n);
    }
}

/// Marking a decoded picture keeps the order and what waits, and the picture its place
/// in it unless the counts restart.
pub proof fn lemma_marking(
    m: MemoryState,
    pic: PictureData,
    marks: RefPicMarking,
    max_num_ref_frames: u8,
)
    ensures
        ({
            let (t, marked, r) = m.marked(pic, marks, max_num_ref_frames);
            &&& promises_alike(m, t)
            &&& queued(t) == queued(m)
            &&& marked.spec_idr() == pic.spec_idr()
            &&& order::waits_alike(m.dpb.entries, t.dpb.entries)
            &&& marked.nonexisting == pic.nonexisting
            &&& marked.has_mmco_5 || marked.pic_order_cnt == pic.pic_order_cnt
        }),
{
    let s = Marking { dpb: m.dpb, pic, max_long_term_frame_idx: m.max_long_term_frame_idx };
    order::marking_keeps_what_waits(s, marks.inner@, 0, 0, max_num_ref_frames);
    laws::lemma_operations_keep_existence(s, marks.inner@);
    let t = m.marked(pic, marks, max_num_ref_frames).0;
    assert(order::waits_alike(m.dpb.entries, t.dpb.entries));
    order::waiting_alike_leaves_alike(m.dpb.entries, t.dpb.entries);
    order::lemma_queues_alike(m.dpb.entries, t.dpb.entries);
    lemma_unchanged(m, t);
}

/// A picture that comes after everything waiting comes out after everything promised.
pub proof fn later_pictures_come_out_last(
    m: MemoryState,
    pic: PictureData,
    handle: Handle,
    marks: RefPicMarking,
    max_num_ref_frames: u8,
)
    requires
        !pic.nonexisting,
        depth_fits(m),
        order::waits_before(m.dpb.entries, pic.pic_order_cnt as int),
    ensures
        match m.finished(pic, handle, marks, max_num_ref_frames) {
            (n, Ok(_)) => promised(n) == promised(m).push(handle) && depth_fits(n),
            (n, Err(_)) => promised(n) == promised(m) && depth_fits(n),
        },
{
    let (t, marked, r) = m.marked(pic, marks, max_num_ref_frames);
    lemma_marking(m, pic, marks, max_num_ref_frames);
    if r is Ok {
        let cached = MemoryState { prev: poc::PrevPicInfo::of(marked), ..t };
        lemma_draining(cached);
        let emptied = if marked.has_mmco_5 {
            cached.drained()
        } else {
            cached
        };
        assert(promised(emptied) == promised(m));
        let count = marked.pic_order_cnt as int;
        assert(order::waits_before(emptied.dpb.entries, count)) by {
            let s = emptied.dpb.entries;
            assert forall|i: int| 0 <= i < s.len() && dpb::waiting(
                #[trigger] s[i],
            ) implies s[i].pic.pic_order_cnt < count by {
                assert(order::ticket(m.dpb.entries[i]) == order::ticket(s[i]));
            }
        }
        lemma_bumping(emptied, marked);
        order::bumping_waits_for_no_more(emptied.dpb, marked, count);
        let bumped = emptied.bumped(marked);
        if bumped.dpb.has_room() {
            order::later_pictures_leave_last(bumped.dpb, marked, handle);
            let n = bumped.stored(marked, Some(handle));
            assert(promised(n) =~= promised(bumped).push(handle));
        } else if !marked.spec_is_ref() {
            order::later_pictures_find_nothing_waiting(emptied.dpb, marked);
            let n = MemoryState { ready: bumped.ready.push(handle), ..bumped };
            assert(promised(n) =~= promised(bumped).push(handle));
        }
    }
}

////// Turn by turn

/// Whether an IDR picture in hand after the turn `t` has nothing waiting before it.
pub open spec fn finds_nothing_waiting(t: Turn) -> bool {
    match t.work {
        Work::Decoding { unit: _, wait } => match wait {
            Wait::Sequence { .. } => true,
            Wait::Surface { pic, .. } => pic.spec_idr() ==> queued(t.memory).len() == 0,
            Wait::Picture { slice: _, current } => current.pic.spec_idr() ==> queued(
                t.memory,
            ).len() == 0,
            Wait::Slice { current } => current.pic.spec_idr() ==> queued(t.memory).len() == 0,
            Wait::Submit { current, .. } => current.pic.spec_idr() ==> queued(t.memory).len()
                == 0,
        },
        _ => true,
    }
}

pub proof fn lemma_prepares(
    m: MemoryState,
    unit: Unit,
    slice: Rc<Slice>,
    pps: Rc<Pps>,
    t: Turn,
)
    requires
        slice.header.frame_num < pps.sps.spec_max_frame_num(),
        !laws::discards(*slice),
        depth_fits(m),
        machine::prepares(m, unit, slice, pps, t),
    ensures
        in_line(t) == promised(m),
        order::is_end_of(queued(t.memory), queued(m)),
        finds_nothing_waiting(t),
        depth_fits(t.memory),
{
    lemma_preparing(m, laws::slice_of(slice), laws::sps_of(pps), unit.timestamp);
}

pub proof fn lemma_begins(m: MemoryState, unit: Unit, slice: Rc<Slice>, t: Turn)
    requires
        machine::conforms(m.pps, *slice),
        !laws::discards(*slice),
        depth_fits(m),
        machine::begins(m, unit, slice, t),
    ensures
        in_line(t) == promised(m),
        order::is_end_of(queued(t.memory), queued(m)),
        finds_nothing_waiting(t),
        depth_fits(t.memory),
{
    let id = slice.header.pic_parameter_set_id;
    if m.pps.contains_key(id) {
        let pps = m.pps[id];
        let sps = laws::sps_of(pps);
        let limited = m.limited(sps);
        lemma_unchanged(m, limited);
        lemma_unchanged(m, limited.cropped(sps));
        lemma_draining(limited);
        lemma_alike(m, limited, limited.drained());
        if machine::serves(limited, sps) {
            lemma_prepares(limited.cropped(sps), unit, slice, pps, t);
            order::lemma_ends(queued(t.memory), queued(limited.cropped(sps)), queued(m));
        }
    } else {
        lemma_unchanged(m, t.memory);
    }
}

pub proof fn lemma_delivers(m: MemoryState, output: Output, t: Turn)
    requires
        machine::delivers(m, output, t),
        depth_fits(m),
    ensures
        in_line(t) == promised(m),
        order::is_end_of(queued(t.memory), queued(m)),
        finds_nothing_waiting(t),
        depth_fits(t.memory),
{
    assert(in_line(t) =~= promised(m));
    assert(queued(m).skip(0) =~= queued(m));
}

pub proof fn lemma_advances(m: MemoryState, unit: Unit, current: Option<CurrentPicture>, t: Turn)
    requires
        machine::advances(m, unit, current, t),
        depth_fits(m),
        current matches Some(c) ==> (c.pic.spec_idr() ==> queued(m).len() == 0),
        forall|i: int|
            0 <= i < unit.nals@.len() ==> (#[trigger] unit.nals@[i] matches Nal::Slice(Some(slice))
                ==> !laws::discards(*slice)),
    ensures
        in_line(t) == promised(m),
        order::is_end_of(queued(t.memory), queued(m)),
        finds_nothing_waiting(t),
        depth_fits(t.memory),
{
    laws::lemma_stop(unit.nals@, unit.next as int, m.pps);
    let (i, pps, e) = machine::stop(unit.nals@, unit.next as int, m.pps);
    let n = MemoryState { pps, ..m };
    assert(promised(n) == promised(m));
    assert(queued(m).skip(0) =~= queued(m));
    if e is None && current is None {
        if i >= unit.nals@.len() {
            lemma_delivers(n, unit.output, t);
        } else {
            let slice = unit.nals@[i]->Slice_0.unwrap();
            let past = Unit { next: (i + 1) as usize, ..unit };
            assert(!laws::discards(*slice));
            lemma_begins(n, past, slice, t);
        }
    }
}

/// The picture the event `e` tells a decoder at `work` to be decoded, if any.
pub open spec fn decoded_next(work: Work, e: Event) -> Seq<Handle> {
    match (work, e) {
        (
            Work::Decoding { unit: _, wait: Wait::Submit { current, .. } },
            Event::Answer(Reply::Done),
        ) => seq![current.handle],
        _ => Seq::empty(),
    }
}

/// The pictures a turn that leads from `work` to `t` hands over, in order.
pub open spec fn handed_next(work: Work, t: Turn) -> Seq<Handle> {
    match (work, t.result) {
        (Work::Delivering(d), Ok(Step::Frames(_))) => d.handles@,
        (Work::Delivering(d), Ok(Step::Exported(_))) => d.handles@,
        _ => Seq::empty(),
    }
}

/// Whether the picture the hardware decodes, if any, comes after everything waiting.
pub open spec fn is_coded_in_order(t: Turn) -> bool {
    t.work matches Work::Decoding { unit: _, wait: Wait::Submit { current, .. } }
        ==> order::waits_before(t.memory.dpb.entries, current.pic.pic_order_cnt as int)
}

pub proof fn lemma_delivery(m: MemoryState, d: Delivery, reply: Reply, t: Turn)
    requires
        machine::delivery_wf(d),
        depth_fits(m),
        machine::answers(Work::Delivering(d), reply),
        machine::delivery_resumed(m, d, reply, t),
        t.result is Ok,
    ensures
        handed_next(Work::Delivering(d), t) + in_line(t) == d.handles@ + promised(m),
        depth_fits(t.memory),
{
    assert(promised(t.memory) == promised(m));
    assert(handed_next(Work::Delivering(d), t) + in_line(t) =~= d.handles@ + promised(m));
}

/// Where pictures are coded in output order, a turn hands over the front of the line
/// and has the picture just decoded join its end, and does nothing else to it.
pub proof fn turns_keep_the_line(before: Turn, e: Event, after: Turn)
    requires
        machine::machine_wf(before.memory, before.work),
        laws::leads(before, e, after),
        after.result is Ok,
        depth_fits(before.memory),
        laws::nothing_discarded(before.work),
        e matches Event::Feed(unit) ==> forall|k: int|
            0 <= k < unit.nals@.len() ==> (#[trigger] unit.nals@[k] matches Nal::Slice(Some(slice))
                ==> !laws::discards(*slice)),
        is_coded_in_order(before),
    ensures
        handed_next(before.work, after) + in_line(after) == in_line(before) + decoded_next(
            before.work,
            e,
        ),
        depth_fits(after.memory),
{
    reveal(laws::leads);
    let m = before.memory;
    let none = Seq::<Handle>::empty();
    assert(none + in_line(after) =~= in_line(after));
    assert(in_line(before) + none =~= in_line(before));
    match e {
        Event::Feed(unit) => {
            lemma_advances(m, unit, None, after);
        },
        Event::Flush(output) => {
            lemma_draining(m);
            lemma_delivers(m.reset(), output, after);
        },
        Event::Answer(reply) => match before.work {
            Work::Idle => {},
            Work::Delivering(d) => {
                lemma_delivery(m, d, reply, after);
            },
            Work::Decoding { unit, wait } => {
                lemma_decoding(before, unit, wait, reply, after);
            },
        },
    }
}

proof fn lemma_decoding(before: Turn, unit: Unit, wait: Wait, reply: Reply, after: Turn)
    requires
        before.work == (Work::Decoding { unit, wait }),
        machine::machine_wf(before.memory, before.work),
        machine::answers(before.work, reply),
        machine::resumed(before.memory, before.work, reply, after),
        after.result is Ok,
        depth_fits(before.memory),
        laws::nothing_discarded(before.work),
        is_coded_in_order(before),
    ensures
        in_line(after) == in_line(before) + decoded_next(before.work, Event::Answer(reply)),
        depth_fits(after.memory),
{
    let m = before.memory;
    assert(in_line(before) + Seq::<Handle>::empty() =~= in_line(before));
    match (wait, reply) {
        (Wait::Sequence { slice, pps, sequence }, Reply::Done) => {
            let n = MemoryState { sequence: Some(sequence@), ..m };
            assert(promised(n) == promised(m));
            lemma_prepares(n, unit, slice, pps, after);
        },
        (Wait::Slice { current }, Reply::Done) => {
            assert(promised(after.memory) == promised(m));
        },
        (Wait::Submit { current, following }, Reply::Done) => {
            let marks = current.first.header.dec_ref_pic_marking;
            let max = current.pps.sps.max_num_ref_frames;
            later_pictures_come_out_last(m, current.pic, current.handle, marks, max);
            laws::lemma_finishing_keeps_pps(m, current.pic, current.handle, marks, max);
            let (n, r) = m.finished(current.pic, current.handle, marks, max);
            assert(promised(m).push(current.handle) =~= promised(m) + seq![current.handle]);
            match following {
                Some(slice) => {
                    lemma_begins(n, unit, slice, after);
                },
                None => {
                    lemma_delivers(n, unit.output, after);
                },
            }
        },
        _ => {
            assert(promised(after.memory) == promised(m));
        },
    }
}

////// Over the life of a decoder

/// The pictures decoded by the first `n` events, in the order they were coded.
pub open spec fn decoded_in_order(turns: Seq<Turn>, events: Seq<Event>, n: int) -> Seq<Handle>
    decreases n,
{
    if n <= 0 {
        Seq::empty()
    } else {
        decoded_in_order(turns, events, n - 1) + decoded_next(turns[n - 1].work, events[n - 1])
    }
}

/// The pictures handed over by the first `n` events, in the order they came.
pub open spec fn handed_in_order(turns: Seq<Turn>, n: int) -> Seq<Handle>
    decreases n,
{
    if n <= 0 {
        Seq::empty()
    } else {
        handed_in_order(turns, n - 1) + handed_next(turns[n - 1].work, turns[n])
    }
}

/// Where a stream is coded in output order, pictures come out in the order they were
/// coded, over any number of calls: what has been handed over, followed by what is in
/// line, is what has been decoded.
pub proof fn pictures_come_in_coding_order(turns: Seq<Turn>, events: Seq<Event>, n: int)
    requires
        laws::is_life(turns, events),
        laws::is_kept(turns, events),
        forall|i: int| 0 <= i < turns.len() ==> is_coded_in_order(#[trigger] turns[i]),
        0 <= n < turns.len(),
    ensures
        handed_in_order(turns, n) + in_line(turns[n]) == decoded_in_order(turns, events, n),
        depth_fits(turns[n].memory),
    decreases n,
{
    if n == 0 {
        lemma_outputs_of_nothing();
        assert(handed_in_order(turns, 0) + in_line(turns[0]) =~= Seq::<Handle>::empty());
    } else {
        pictures_come_in_coding_order(turns, events, n - 1);
        let before = turns[n - 1];
        let after = turns[n];
        let e = events[n - 1];
        assert(laws::leads(before, e, turns[n - 1 + 1]));
        assert(machine::machine_wf(before.memory, before.work));
        assert(after.result is Ok);
        assert(laws::nothing_discarded(before.work));
        turns_keep_the_line(before, e, after);
        assert(handed_in_order(turns, n) + in_line(after) =~= handed_in_order(turns, n - 1) + (
        handed_next(before.work, after) + in_line(after)));
        assert(handed_in_order(turns, n - 1) + (in_line(before) + decoded_next(before.work, e))
            =~= (handed_in_order(turns, n - 1) + in_line(before)) + decoded_next(before.work, e));
    }
}

/// The timestamps of what the turn `t` hands over.
pub open spec fn timestamps_of(t: Turn) -> Seq<u64> {
    match t.result {
        Ok(Step::Frames(f)) => f@.map_values(|f: Frame| f.timestamp),
        Ok(Step::Exported(f)) => f@.map_values(|f: ExportedFrame| f.timestamp),
        _ => Seq::empty(),
    }
}

/// The timestamps of everything the first `n` events hand over, in order.
pub open spec fn timestamps_by(turns: Seq<Turn>, n: int) -> Seq<u64>
    decreases n,
{
    if n <= 0 {
        Seq::empty()
    } else {
        timestamps_by(turns, n - 1) + timestamps_of(turns[n])
    }
}

/// The timestamps of `s`.
pub open spec fn timestamps(s: Seq<Handle>) -> Seq<u64> {
    s.map_values(|h: Handle| h.timestamp)
}

pub proof fn lemma_timestamps_handed(turns: Seq<Turn>, events: Seq<Event>, n: int)
    requires
        laws::is_history(turns, events),
        0 <= n < turns.len(),
    ensures
        timestamps_by(turns, n) == timestamps(handed_in_order(turns, n)),
    decreases n,
{
    if n == 0 {
        assert(timestamps(handed_in_order(turns, 0)) =~= Seq::<u64>::empty());
    } else {
        lemma_timestamps_handed(turns, events, n - 1);
        let before = turns[n - 1];
        let e = events[n - 1];
        assert(laws::leads(before, e, turns[n - 1 + 1]));
        assert(machine::machine_wf(before.memory, before.work));
        lemma_timestamps_of(before, e, turns[n]);
        assert(timestamps(handed_in_order(turns, n)) =~= timestamps(handed_in_order(turns, n - 1))
            + timestamps(handed_next(before.work, turns[n])));
    }
}

proof fn lemma_timestamps_of(before: Turn, e: Event, after: Turn)
    requires
        machine::machine_wf(before.memory, before.work),
        laws::leads(before, e, after),
    ensures
        timestamps_of(after) == timestamps(handed_next(before.work, after)),
{
    reveal(laws::leads);
    shape::lemma_frames_come_due(before, e, after);
    assert(timestamps_of(after) =~= timestamps(handed_next(before.work, after)));
}

/// Once a stream coded in output order has been flushed, the timestamps of what came out
/// are those of what was decoded, in the order it was coded.
pub proof fn timestamps_come_in_coding_order(turns: Seq<Turn>, events: Seq<Event>, k: int)
    requires
        laws::is_life(turns, events),
        laws::is_kept(turns, events),
        forall|i: int| 0 <= i < turns.len() ==> is_coded_in_order(#[trigger] turns[i]),
        0 <= k < events.len(),
        events[k] is Flush,
        forall|i: int| k < i < events.len() ==> (#[trigger] events[i]) is Answer,
        turns.last().work is Idle,
    ensures
        timestamps_by(turns, turns.len() - 1) == timestamps(
            decoded_in_order(turns, events, turns.len() - 1),
        ),
{
    let n = turns.len() - 1;
    pictures_come_in_coding_order(turns, events, n);
    lemma_timestamps_handed(turns, events, n);
    lemma_flushed_line(turns, events, k, n);
    assert(handed_in_order(turns, n) + in_line(turns[n]) =~= handed_in_order(turns, n));
}

proof fn lemma_flushed_line(turns: Seq<Turn>, events: Seq<Event>, k: int, n: int)
    requires
        laws::is_life(turns, events),
        0 <= k < n < turns.len(),
        events[k] is Flush,
        forall|i: int| k < i < events.len() ==> (#[trigger] events[i]) is Answer,
    ensures
        promised(turns[n].memory) == Seq::<Handle>::empty(),
        turns[n].work is Delivering || turns[n].work is Idle,
    decreases n,
{
    let before = turns[n - 1];
    let after = turns[n];
    let e = events[n - 1];
    reveal(laws::leads);
    assert(laws::leads(before, e, turns[n - 1 + 1]));
    assert(machine::machine_wf(before.memory, before.work));
    if n - 1 == k {
        lemma_outputs_of_nothing();
        assert(promised(after.memory) =~= Seq::<Handle>::empty());
    } else {
        lemma_flushed_line(turns, events, k, n - 1);
        assert(events[n - 1] is Answer);
        assert(promised(after.memory) == promised(before.memory));
    }
}

////// One picture a unit

/// The timestamps of the units fed among the first `n` events, in order.
pub open spec fn fed_by(events: Seq<Event>, n: int) -> Seq<u64>
    decreases n,
{
    if n <= 0 {
        Seq::empty()
    } else {
        match events[n - 1] {
            Event::Feed(unit) => fed_by(events, n - 1).push(unit.timestamp),
            _ => fed_by(events, n - 1),
        }
    }
}

/// Whether every unit fed holds one picture.
pub open spec fn is_picture_a_unit(turns: Seq<Turn>, events: Seq<Event>) -> bool {
    forall|i: int|
        0 <= i < turns.len() ==> {
            let coded = decoded_in_order(turns, events, i).len();
            &&& coded <= fed_by(events, i).len()
            &&& (#[trigger] turns[i]).work is Idle ==> coded == fed_by(events, i).len()
        }
}

proof fn lemma_last_fed(events: Seq<Event>, n: int)
    ensures
        shape::last_fed(events, n) matches Some(timestamp) ==> fed_by(events, n).len() > 0
            && fed_by(events, n).last() == timestamp,
    decreases n,
{
    if n > 0 {
        lemma_last_fed(events, n - 1);
    }
}

/// The event `n - 1` tells of at most one picture decoded, which carries the timestamp
/// of the unit fed last, and units are fed between calls.
proof fn lemma_decoded_stamp(turns: Seq<Turn>, events: Seq<Event>, n: int)
    requires
        laws::is_history(turns, events),
        0 < n < turns.len(),
    ensures
        ({
            let next = decoded_next(turns[n - 1].work, events[n - 1]);
            &&& next.len() <= 1
            &&& next.len() > 0 ==> shape::last_fed(events, n - 1) == Some(next[0].timestamp)
            &&& events[n - 1] is Feed ==> next.len() == 0 && turns[n - 1].work is Idle
        }),
{
    reveal(laws::leads);
    assert(laws::leads(turns[n - 1], events[n - 1], turns[n - 1 + 1]));
    let next = decoded_next(turns[n - 1].work, events[n - 1]);
    if next.len() > 0 {
        assert(surfaces::in_flight(turns[n - 1].work).count(next[0]) > 0);
        shape::pictures_carry_their_timestamp(turns, events, n - 1, next[0]);
    }
}

proof fn lemma_stamped(coded: Seq<Handle>, next: Seq<Handle>, fed: Seq<u64>, all: Seq<u64>)
    requires
        timestamps(coded) == fed.take(coded.len() as int),
        fed.len() - 1 <= coded.len() <= fed.len(),
        next.len() <= 1,
        next.len() > 0 ==> fed.len() > 0 && fed.last() == next[0].timestamp && all == fed,
        all == fed || (next.len() == 0 && all.len() == fed.len() + 1 && all.drop_last() == fed
            && coded.len() == fed.len()),
        coded.len() + next.len() <= all.len(),
    ensures
        timestamps(coded + next) == all.take((coded.len() + next.len()) as int),
        all.len() - 1 <= coded.len() + next.len() <= all.len(),
{
    let n = (coded.len() + next.len()) as int;
    assert forall|i: int| 0 <= i < n implies timestamps(coded + next)[i] == all[i] by {
        if i < coded.len() {
            assert(timestamps(coded)[i] == fed.take(coded.len() as int)[i]);
            assert(all == fed || all.drop_last()[i] == fed[i]);
        }
    }
    assert(timestamps(coded + next) =~= all.take(n));
}

/// Where every unit holds one picture, the pictures decoded carry the timestamps of the
/// units, in the order these were fed.
pub proof fn pictures_are_coded_as_fed(turns: Seq<Turn>, events: Seq<Event>, n: int)
    requires
        laws::is_history(turns, events),
        is_picture_a_unit(turns, events),
        0 <= n < turns.len(),
    ensures
        ({
            let coded = decoded_in_order(turns, events, n);
            &&& fed_by(events, n).len() - 1 <= coded.len() <= fed_by(events, n).len()
            &&& timestamps(coded) == fed_by(events, n).take(coded.len() as int)
        }),
        turns[n].work is Idle ==> timestamps(decoded_in_order(turns, events, n)) == fed_by(
            events,
            n,
        ),
    decreases n,
{
    let coded = decoded_in_order(turns, events, n);
    let fed = fed_by(events, n);
    assert(coded.len() <= fed.len() && (turns[n].work is Idle ==> coded.len() == fed.len()));
    if n == 0 {
        assert(timestamps(coded) =~= fed.take(0));
    } else {
        pictures_are_coded_as_fed(turns, events, n - 1);
        let earlier = decoded_in_order(turns, events, n - 1);
        let next = decoded_next(turns[n - 1].work, events[n - 1]);
        lemma_decoded_stamp(turns, events, n);
        lemma_last_fed(events, n - 1);
        assert(coded == earlier + next);
        let fed_earlier = fed_by(events, n - 1);
        match events[n - 1] {
            Event::Feed(unit) => {
                assert(fed.drop_last() =~= fed_earlier);
            },
            _ => {},
        }
        lemma_stamped(earlier, next, fed_earlier, fed);
    }
    if turns[n].work is Idle {
        assert(fed.take(coded.len() as int) =~= fed);
    }
}

/// Once a stream coded in output order, one picture a unit, has been flushed, the
/// timestamps of what came out are those that were fed, in that order.
pub proof fn timestamps_come_as_fed(turns: Seq<Turn>, events: Seq<Event>, k: int)
    requires
        laws::is_life(turns, events),
        laws::is_kept(turns, events),
        is_picture_a_unit(turns, events),
        forall|i: int| 0 <= i < turns.len() ==> is_coded_in_order(#[trigger] turns[i]),
        0 <= k < events.len(),
        events[k] is Flush,
        forall|i: int| k < i < events.len() ==> (#[trigger] events[i]) is Answer,
        turns.last().work is Idle,
    ensures
        timestamps_by(turns, turns.len() - 1) == fed_by(events, turns.len() - 1),
{
    timestamps_come_in_coding_order(turns, events, k);
    pictures_are_coded_as_fed(turns, events, turns.len() - 1);
}

} // verus!
