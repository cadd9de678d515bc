//! What every frame handed over looks like.

use std::rc::Rc;

use vstd::prelude::*;

use crate::decode::laws;
use crate::decode::laws::surfaces;
use crate::decode::laws::Event;
use crate::decode::machine;
use crate::decode::machine::{Delivery, Nal, Reply, Step, Turn, Unit, Wait, Work};
use crate::decode::nv12;
use crate::decode::nv12::{Frame, VaImage};
use crate::decode::sequence;
use crate::decode::state::MemoryState;
use crate::h264::dpb::laws as dpb_laws;
use crate::h264::syntax::{Pps, Slice, Sps};
use crate::surface::Handle;

verus! {

/// Whether `f` is of a 4:2:0 size and holds as many bytes as that takes: a full luma
/// plane and half as many chroma samples.
pub open spec fn is_shaped(f: Frame) -> bool {
    &&& sequence::is_picture_size(f.width, f.height)
    &&& f.data@.len() == f.width * f.height + f.width * f.height / 2
}

/// Whether `h` is of a 4:2:0 size.
pub open spec fn is_sized(h: Handle) -> bool {
    sequence::is_picture_size(h.width, h.height)
}

/// Whether the active sequence, if any, is of a 4:2:0 size.
pub open spec fn is_sequence_sized(m: MemoryState) -> bool {
    m.sequence matches Some(s) ==> sequence::is_picture_size(s.width, s.height)
}

/// Whether every picture and every frame of `t` has the shape of one, and the picture
/// in flight carries the timestamp of the unit it is coded in.
pub open spec fn is_all_shaped(t: Turn) -> bool {
    &&& forall|h: Handle| #[trigger] surfaces::has_picture(t, h) ==> is_sized(h)
    &&& is_sequence_sized(t.memory)
    &&& match t.work {
        Work::Idle => true,
        Work::Decoding { unit, wait } => match wait {
            Wait::Sequence { sequence, .. } => sequence::is_picture_size(
                sequence@.width,
                sequence@.height,
            ),
            Wait::Surface { .. } => true,
            Wait::Picture { slice: _, current } => current.handle.timestamp == unit.timestamp,
            Wait::Slice { current } => current.handle.timestamp == unit.timestamp,
            Wait::Submit { current, .. } => current.handle.timestamp == unit.timestamp,
        },
        Work::Delivering(d) => {
            &&& forall|i: int| 0 <= i < d.handles@.len() ==> is_sized(#[trigger] d.handles@[i])
            &&& forall|i: int| 0 <= i < d.frames@.len() ==> is_shaped(#[trigger] d.frames@[i])
        },
    }
    &&& t.result matches Ok(Step::Frames(f)) ==> forall|i: int|
        0 <= i < f@.len() ==> is_shaped(#[trigger] f@[i])
}

proof fn lemma_size(sps: Sps)
    requires
        sps.valid(),
        sequence::size_refusal(sps) is None,
    ensures
        sequence::is_picture_size(
            sequence::visible_width(sps) as u32,
            sequence::visible_height(sps) as u32,
        ),
{
}

proof fn lemma_packed_shape(frame: Frame, image: VaImage, h: Handle)
    requires
        nv12::is_packed(Ok(frame), image, h),
        is_sized(h),
    ensures
        is_shaped(frame),
{
    nv12::frames_have_no_padding(Ok(frame), image, h);
    let (w, h) = (frame.width as int, frame.height as int);
    assert(w * h == 2 * ((w / 2) * h)) by (nonlinear_arith)
        requires
            w == 2 * (w / 2),
    ;
}

/// What becomes of a delivery keeps its shape.
proof fn lemma_delivery_shaped(before: Turn, d: Delivery, reply: Reply, after: Turn)
    requires
        before.work == Work::Delivering(d),
        is_all_shaped(before),
        machine::delivery_wf(d),
        machine::answers(before.work, reply),
        machine::delivery_resumed(before.memory, d, reply, after),
    ensures
        is_sequence_sized(after.memory),
        after.work matches Work::Delivering(n) ==> {
            &&& forall|i: int| 0 <= i < n.handles@.len() ==> is_sized(#[trigger] n.handles@[i])
            &&& forall|i: int| 0 <= i < n.frames@.len() ==> is_shaped(#[trigger] n.frames@[i])
        },
        after.result matches Ok(Step::Frames(f)) ==> forall|i: int|
            0 <= i < f@.len() ==> is_shaped(#[trigger] f@[i]),
        !(after.work is Decoding),
{
    let h = machine::due(d);
    assert(is_sized(h));
    assert forall|frame: Frame, image: VaImage| #[trigger]
        nv12::is_packed(Ok(frame), image, h) implies is_shaped(frame) by {
        lemma_packed_shape(frame, image, h);
    }
}

/// What a picture just started looks like, after a turn that got ready under a sequence
/// of a 4:2:0 size.
spec fn is_started_shaped(unit: Unit, t: Turn) -> bool {
    &&& is_sequence_sized(t.memory)
    &&& match t.work {
        Work::Idle => !(t.result matches Ok(Step::Frames(f)) && f@.len() > 0),
        Work::Decoding { unit: u, wait } => u.timestamp == unit.timestamp && match wait {
            Wait::Sequence { sequence, .. } => sequence::is_picture_size(
                sequence@.width,
                sequence@.height,
            ),
            Wait::Surface { .. } => true,
            Wait::Picture { slice: _, current } => is_sized(current.handle)
                && current.handle.timestamp == unit.timestamp,
            _ => false,
        },
        Work::Delivering(d) => false,
    }
}

proof fn lemma_prepares_shaped(
    m: MemoryState,
    unit: Unit,
    slice: Rc<Slice>,
    pps: Rc<Pps>,
    t: Turn,
)
    requires
        m.sequence is Some,
        is_sequence_sized(m),
        slice.header.frame_num < pps.sps.spec_max_frame_num(),
        machine::prepares(m, unit, slice, pps, t),
    ensures
        is_started_shaped(unit, t),
{
    laws::lemma_preparing_fits(m, laws::slice_of(slice), laws::sps_of(pps), unit.timestamp);
}

proof fn lemma_begins_shaped(
    m: MemoryState,
    unit: Unit,
    slice: Rc<Slice>,
    t: Turn,
)
    requires
        is_sequence_sized(m),
        machine::pps_valid(m.pps),
        machine::conforms(m.pps, *slice),
        machine::begins(m, unit, slice, t),
    ensures
        is_started_shaped(unit, t),
{
    let id = slice.header.pic_parameter_set_id;
    if m.pps.contains_key(id) {
        let pps = m.pps[id];
        let sps = laws::sps_of(pps);
        assert(sps.valid());
        if sequence::size_refusal(sps) is None {
            lemma_size(sps);
        }
        let limited = m.limited(sps);
        if machine::serves(limited, sps) {
            lemma_prepares_shaped(limited.cropped(sps), unit, slice, pps, t);
        }
    }
}

proof fn lemma_advances_shaped(
    m: MemoryState,
    unit: Unit,
    t: Turn,
)
    requires
        is_sequence_sized(m),
        machine::pps_valid(m.pps),
        machine::advances(m, unit, None, t),
    ensures
        is_started_shaped(unit, t) || (is_sequence_sized(t.memory) && t.work is Delivering
            && machine::delivers(
            MemoryState { pps: t.memory.pps, ..m },
            unit.output,
            t,
        )),
{
    laws::lemma_stop(unit.nals@, unit.next as int, m.pps);
    lemma_stop_valid(unit.nals@, unit.next as int, m.pps);
    let (i, pps, e) = machine::stop(unit.nals@, unit.next as int, m.pps);
    let n = MemoryState { pps, ..m };
    if e is None && i < unit.nals@.len() {
        let slice = unit.nals@[i]->Slice_0.unwrap();
        let past = Unit { next: (i + 1) as usize, ..unit };
        lemma_begins_shaped(n, past, slice, t);
    }
}

pub proof fn lemma_stop_valid(
    nals: Seq<Nal>,
    i: int,
    pps: Map<u8, Rc<Pps>>,
)
    requires
        machine::pps_valid(pps),
    ensures
        machine::pps_valid(machine::stop(nals, i, pps).1),
    decreases nals.len() - i,
{
    if i < nals.len() {
        match nals[i] {
            Nal::Pps(Some(p)) => {
                if laws::sps_of(p).valid() {
                    lemma_stop_valid(nals, i + 1, pps.insert(p.pic_parameter_set_id, p));
                }
            },
            _ => lemma_stop_valid(nals, i + 1, pps),
        }
    }
}

/// What a turn that goes on with the picture in flight keeps.
proof fn lemma_flying_on(before: Turn, unit: Unit, wait: Wait, after: Turn)
    requires
        before.work == (Work::Decoding { unit, wait }),
        is_all_shaped(before),
        machine::answers(before.work, Reply::Done),
        machine::resumed(before.memory, before.work, Reply::Done, after),
        wait is Picture || wait is Slice,
    ensures
        is_sequence_sized(after.memory),
        !(after.work is Delivering),
        after.work matches Work::Decoding { unit: u, wait: w } ==> {
            &&& u.timestamp == unit.timestamp
            &&& surfaces::in_flight(after.work) == surfaces::in_flight(before.work)
            &&& w matches Wait::Slice { current } ==> current.handle.timestamp == unit.timestamp
            &&& w matches Wait::Submit { current, .. } ==> current.handle.timestamp
                == unit.timestamp
            &&& w is Slice || w is Submit
        },
        !(after.result matches Ok(Step::Frames(_))),
        !(after.result matches Ok(Step::Exported(_))),
{
}

/// The pictures after a turn, but for the one in flight.
proof fn lemma_landed_shaped(before: Turn, e: Event, after: Turn)
    requires
        machine::machine_wf(before.memory, before.work),
        is_all_shaped(before),
        laws::leads(before, e, after),
    ensures
        forall|h: Handle| #[trigger] surfaces::landed(after).count(h) > 0 ==> is_sized(h),
        forall|h: Handle| #[trigger]
            dpb_laws::held(after.memory.dpb.entries).count(h) > 0 ==> is_sized(h),
        after.work matches Work::Delivering(d) ==> (d.next == 0 && d.frames@.len() == 0 ==> (
        forall|i: int| 0 <= i < d.handles@.len() ==> is_sized(#[trigger] d.handles@[i]))),
{
    broadcast use vstd::seq_lib::group_to_multiset_ensures;

    surfaces::lemma_turns_over(before, e, after);
    assert forall|h: Handle|
        surfaces::landed(after).count(h) > 0 || dpb_laws::held(after.memory.dpb.entries).count(h)
            > 0 implies is_sized(h) by {
        assert(surfaces::in_flight(before.work).count(h) <= surfaces::undelivered(before).count(h));
        assert(surfaces::has_picture(before, h));
    }
    let fresh = after.work matches Work::Delivering(d) && d.next == 0 && d.frames@.len() == 0;
    if fresh {
        let d = after.work->Delivering_0;
        assert(d.handles@.skip(0) =~= d.handles@);
        assert forall|i: int| 0 <= i < d.handles@.len() implies is_sized(
            #[trigger] d.handles@[i],
        ) by {
            assert(d.handles@.to_multiset().count(d.handles@[i]) > 0);
            assert(surfaces::landed(after).count(d.handles@[i]) > 0);
        }
    }
}

/// Every picture a decoder has and every frame it hands over keeps to its shape,
/// whatever the driver answers.
pub proof fn turns_keep_the_shape(before: Turn, e: Event, after: Turn)
    requires
        machine::machine_wf(before.memory, before.work),
        is_all_shaped(before),
        laws::leads(before, e, after),
    ensures
        is_all_shaped(after),
{
    reveal(laws::leads);
    let m = before.memory;
    lemma_landed_shaped(before, e, after);
    match e {
        Event::Feed(unit) => {
            lemma_advances_shaped(m, unit, after);
        },
        Event::Flush(output) => {},
        Event::Answer(reply) => match before.work {
            Work::Idle => {},
            Work::Delivering(d) => {
                lemma_delivery_shaped(before, d, reply, after);
            },
            Work::Decoding { unit, wait } => match (wait, reply) {
                (_, Reply::Failed(_)) => {},
                (Wait::Sequence { slice, pps, sequence }, Reply::Done) => {
                    let n = MemoryState { sequence: Some(sequence@), ..m };
                    lemma_prepares_shaped(n, unit, slice, pps, after);
                },
                (Wait::Surface { .. }, Reply::Surface(surface)) => {
                    assert(is_started_shaped(unit, after));
                },
                (Wait::Submit { current, following }, Reply::Done) => {
                    let marks = current.first.header.dec_ref_pic_marking;
                    let max = current.pps.sps.max_num_ref_frames;
                    let (n, r) = m.finished(current.pic, current.handle, marks, max);
                    laws::lemma_finishing_keeps_pps(m, current.pic, current.handle, marks, max);
                    laws::lemma_finishing_fits(m, current.pic, current.handle, marks, max);
                    match following {
                        Some(slice) => if r is Ok {
                            lemma_begins_shaped(n, unit, slice, after);
                        },
                        None => {},
                    }
                },
                (_, Reply::Done) => {
                    lemma_flying_on(before, unit, wait, after);
                },
                _ => {},
            },
        },
    }
    assert forall|h: Handle| #[trigger] surfaces::has_picture(after, h) implies is_sized(h) by {
        if surfaces::landed(after).count(h) == 0 && dpb_laws::held(
            after.memory.dpb.entries,
        ).count(h) == 0 {
            assert(surfaces::in_flight(after.work).count(h) > 0);
            if surfaces::in_flight(after.work) == surfaces::in_flight(before.work) {
                assert(surfaces::has_picture(before, h));
            }
        }
    }
}

////// Over the life of a decoder

/// Whether a unit with this timestamp is among the first `n` events.
pub open spec fn was_fed(events: Seq<Event>, n: int, timestamp: u64) -> bool {
    exists|k: int|
        0 <= k < n && (#[trigger] events[k] matches Event::Feed(unit) && unit.timestamp
            == timestamp)
}

/// The timestamp of the last unit fed among the first `n` events.
pub open spec fn last_fed(events: Seq<Event>, n: int) -> Option<u64>
    decreases n,
{
    if n <= 0 {
        None
    } else {
        match events[n - 1] {
            Event::Feed(unit) => Some(unit.timestamp),
            _ => last_fed(events, n - 1),
        }
    }
}

/// Whether every picture of `t` carries the timestamp of a unit among the first `n`
/// events, the unit at work being the last of them.
pub open spec fn is_all_stamped(events: Seq<Event>, n: int, t: Turn) -> bool {
    &&& forall|h: Handle| #[trigger]
        surfaces::has_picture(t, h) ==> was_fed(events, n, h.timestamp)
    &&& match t.work {
        Work::Idle => true,
        Work::Decoding { unit, .. } => last_fed(events, n) == Some(unit.timestamp),
        Work::Delivering(d) => forall|i: int|
            0 <= i < d.handles@.len() ==> was_fed(events, n, (#[trigger] d.handles@[i]).timestamp),
    }
}

proof fn lemma_fed_grows(events: Seq<Event>, n: int, timestamp: u64)
    ensures
        was_fed(events, n, timestamp) ==> was_fed(events, n + 1, timestamp),
{
    if was_fed(events, n, timestamp) {
        let k = choose|k: int|
            0 <= k < n && (#[trigger] events[k] matches Event::Feed(unit) && unit.timestamp
                == timestamp);
        assert(events[k] is Feed);
    }
}

proof fn lemma_last_fed(events: Seq<Event>, n: int)
    ensures
        last_fed(events, n) matches Some(timestamp) ==> was_fed(events, n, timestamp),
    decreases n,
{
    if n > 0 {
        lemma_last_fed(events, n - 1);
        match events[n - 1] {
            Event::Feed(_) => {},
            _ => {
                if last_fed(events, n) is Some {
                    lemma_fed_grows(events, n - 1, last_fed(events, n).unwrap());
                }
            },
        }
    }
}

/// Which unit a turn works on, and what becomes of the pictures it delivers.
pub proof fn lemma_unit_stays(before: Turn, e: Event, after: Turn)
    requires
        machine::machine_wf(before.memory, before.work),
        laws::leads(before, e, after),
    ensures
        after.work matches Work::Decoding { unit: u, .. } ==> match e {
            Event::Feed(unit) => u.timestamp == unit.timestamp,
            _ => before.work matches Work::Decoding { unit, .. } && u.timestamp == unit.timestamp,
        },
        after.work matches Work::Delivering(d) ==> (d.next == 0 && d.frames@.len() == 0) || (
        before.work matches Work::Delivering(c) && c.handles == d.handles),
{
    reveal(laws::leads);
}

proof fn lemma_history_shape(turns: Seq<Turn>, events: Seq<Event>, n: int)
    requires
        laws::is_history(turns, events),
        0 <= n < turns.len(),
    ensures
        is_all_shaped(turns[n]),
        is_all_stamped(events, n, turns[n]),
    decreases n,
{
    broadcast use vstd::seq_lib::group_to_multiset_ensures;

    if n == 0 {
        assert(turns[0].memory.ready =~= Seq::<Handle>::empty());
        assert forall|h: Handle| !surfaces::has_picture(turns[0], h) by {
            assert(surfaces::undelivered(turns[0]).count(h) == 0);
        }
    } else {
        lemma_history_shape(turns, events, n - 1);
        let before = turns[n - 1];
        let after = turns[n];
        let e = events[n - 1];
        assert(laws::leads(before, e, turns[n - 1 + 1]));
        assert(machine::machine_wf(before.memory, before.work));
        turns_keep_the_shape(before, e, after);
        surfaces::lemma_turns_over(before, e, after);
        lemma_unit_stays(before, e, after);
        lemma_last_fed(events, n);
        assert forall|h: Handle|
            surfaces::landed(after).count(h) > 0 || dpb_laws::held(
                after.memory.dpb.entries,
            ).count(h) > 0 implies was_fed(events, n, h.timestamp) by {
            assert(surfaces::in_flight(before.work).count(h) <= surfaces::undelivered(
                before,
            ).count(h));
            assert(surfaces::has_picture(before, h));
            lemma_fed_grows(events, n - 1, h.timestamp);
        }
        assert forall|h: Handle| #[trigger] surfaces::has_picture(after, h) implies was_fed(
            events,
            n,
            h.timestamp,
        ) by {
            if surfaces::landed(after).count(h) == 0 && dpb_laws::held(
                after.memory.dpb.entries,
            ).count(h) == 0 {
                assert(surfaces::in_flight(after.work).count(h) > 0);
            }
        }
        if after.work is Delivering {
            let d = after.work->Delivering_0;
            assert forall|i: int| 0 <= i < d.handles@.len() implies was_fed(
                events,
                n,
                (#[trigger] d.handles@[i]).timestamp,
            ) by {
                if d.next == 0 && d.frames@.len() == 0 {
                    assert(d.handles@.skip(0) =~= d.handles@);
                    assert(d.handles@.to_multiset().count(d.handles@[i]) > 0);
                    assert(surfaces::landed(after).count(d.handles@[i]) > 0);
                } else {
                    lemma_fed_grows(events, n - 1, d.handles@[i].timestamp);
                }
            }
        }
    }
}

/// Every frame handed over is a full NV12 picture: its sides are even and not zero, it
/// holds one and a half bytes a pixel, and it carries the timestamp of a unit that has
/// been fed.
pub proof fn frames_have_their_shape(turns: Seq<Turn>, events: Seq<Event>, n: int)
    requires
        laws::is_history(turns, events),
        0 <= n < turns.len(),
    ensures
        turns[n].result matches Ok(Step::Frames(f)) ==> forall|i: int|
            0 <= i < f@.len() ==> is_shaped(#[trigger] f@[i]) && was_fed(
                events,
                n,
                f@[i].timestamp,
            ),
{
    lemma_history_shape(turns, events, n);
    if n > 0 {
        lemma_handed_over_stamped(turns, events, n);
    }
}

/// Every exported frame handed over is of a 4:2:0 size, and carries the timestamp of a
/// unit that has been fed.
pub proof fn exports_have_their_shape(turns: Seq<Turn>, events: Seq<Event>, n: int)
    requires
        laws::is_history(turns, events),
        0 <= n < turns.len(),
    ensures
        turns[n].result matches Ok(Step::Exported(f)) ==> forall|i: int|
            0 <= i < f@.len() ==> sequence::is_picture_size(
                (#[trigger] f@[i]).width,
                f@[i].height,
            ) && was_fed(events, n, f@[i].timestamp),
{
    if n > 0 {
        lemma_handed_over_stamped(turns, events, n);
    }
}

proof fn lemma_handed_over_stamped(turns: Seq<Turn>, events: Seq<Event>, n: int)
    requires
        laws::is_history(turns, events),
        0 < n < turns.len(),
    ensures
        turns[n].result matches Ok(Step::Frames(f)) ==> forall|i: int|
            0 <= i < f@.len() ==> was_fed(events, n, (#[trigger] f@[i]).timestamp),
        turns[n].result matches Ok(Step::Exported(f)) ==> forall|i: int|
            0 <= i < f@.len() ==> sequence::is_picture_size(
                (#[trigger] f@[i]).width,
                f@[i].height,
            ) && was_fed(events, n, f@[i].timestamp),
{
    lemma_history_shape(turns, events, n - 1);
    let before = turns[n - 1];
    let e = events[n - 1];
    assert(laws::leads(before, e, turns[n - 1 + 1]));
    assert(machine::machine_wf(before.memory, before.work));
    lemma_frames_come_due(before, e, turns[n]);
    if before.work is Delivering {
        let d = before.work->Delivering_0;
        assert forall|i: int| 0 <= i < d.handles@.len() implies is_sized(
            #[trigger] d.handles@[i],
        ) && was_fed(events, n, d.handles@[i].timestamp) by {
            lemma_fed_grows(events, n - 1, d.handles@[i].timestamp);
        }
    }
}

/// What is handed over is a delivery gone through, or nothing.
pub proof fn lemma_frames_come_due(before: Turn, e: Event, after: Turn)
    requires
        machine::machine_wf(before.memory, before.work),
        laws::leads(before, e, after),
    ensures
        after.result matches Ok(Step::Frames(f)) ==> f@.len() == 0 || (
        before.work matches Work::Delivering(d) && machine::frames_match(f@, d.handles@)),
        after.result matches Ok(Step::Exported(f)) ==> f@.len() == 0 || (
        before.work matches Work::Delivering(d) && machine::exports_match(f@, d.handles@)),
{
    reveal(laws::leads);
    match (before.work, e) {
        (Work::Delivering(d), Event::Answer(reply)) => {
            laws::deliveries_are_complete_and_in_order(before.memory, d, reply, after);
        },
        _ => {},
    }
}

/// The picture in flight carries the timestamp of the unit it is coded in, which is the
/// one fed last.
pub proof fn pictures_carry_their_timestamp(turns: Seq<Turn>, events: Seq<Event>, n: int, h: Handle)
    requires
        laws::is_history(turns, events),
        0 <= n < turns.len(),
        surfaces::in_flight(turns[n].work).count(h) > 0,
    ensures
        last_fed(events, n) == Some(h.timestamp),
{
    lemma_history_shape(turns, events, n);
}

} // verus!
