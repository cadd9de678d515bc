//! The size of the pictures handed over.

use std::rc::Rc;

use vstd::prelude::*;

use crate::decode::laws;
use crate::decode::laws::shape;
use crate::decode::laws::surfaces;
use crate::decode::laws::Event;
use crate::decode::machine;
use crate::decode::machine::{Reply, Step, Turn, Unit, Wait, Work};
use crate::decode::sequence;
use crate::decode::sequence::SequenceState;
use crate::decode::state::MemoryState;
use crate::h264::dpb::laws as dpb_laws;
use crate::h264::syntax::{Pps, Slice, Sps};
use crate::surface::Handle;

verus! {

/// Whether `width` and `height` are what the cropping rectangle of `sps` leaves, where
/// that is a 4:2:0 size.
pub open spec fn is_visible_size(width: u32, height: u32, sps: Sps) -> bool {
    sequence::size_refusal(sps) is None ==> width == sequence::visible_width(sps) && height
        == sequence::visible_height(sps)
}

/// Whether the sequence `s` shows what `sps` leaves.
spec fn shows(s: Option<SequenceState>, sps: Sps) -> bool {
    s matches Some(s) && is_visible_size(s.width, s.height, sps)
}

/// Whether `h` is the picture begun at the turn `t`, of the visible size of its SPS.
pub open spec fn is_begun(t: Turn, h: Handle) -> bool {
    &&& t.work matches Work::Decoding { unit: _, wait: Wait::Picture { slice: _, current } }
    &&& current.handle == h
    &&& is_visible_size(h.width, h.height, *current.pps.sps)
}

/// Whether `h` has been begun at one of the first `n` turns, of the visible size of its
/// SPS.
pub open spec fn was_begun(turns: Seq<Turn>, n: int, h: Handle) -> bool {
    exists|k: int| 0 <= k < n && is_begun(#[trigger] turns[k], h)
}

/// What is waited for has the visible size of its SPS.
spec fn waits_in_size(t: Turn) -> bool {
    match t.work {
        Work::Decoding { unit: _, wait } => match wait {
            Wait::Sequence { pps, sequence, .. } => shows(Some(sequence@), *pps.sps),
            Wait::Surface { pps, .. } => shows(t.memory.sequence, *pps.sps),
            Wait::Picture { slice: _, current } => is_visible_size(
                current.handle.width,
                current.handle.height,
                *current.pps.sps,
            ),
            _ => true,
        },
        _ => true,
    }
}

////// Turn by turn

proof fn lemma_prepares(
    m: MemoryState,
    unit: Unit,
    slice: Rc<Slice>,
    pps: Rc<Pps>,
    t: Turn,
)
    requires
        shows(m.sequence, *pps.sps),
        slice.header.frame_num < pps.sps.spec_max_frame_num(),
        machine::prepares(m, unit, slice, pps, t),
    ensures
        waits_in_size(t),
{
    laws::lemma_preparing_fits(m, laws::slice_of(slice), laws::sps_of(pps), unit.timestamp);
}

proof fn lemma_begins(m: MemoryState, unit: Unit, slice: Rc<Slice>, t: Turn)
    requires
        machine::pps_valid(m.pps),
        machine::conforms(m.pps, *slice),
        machine::begins(m, unit, slice, t),
    ensures
        waits_in_size(t),
{
    let id = slice.header.pic_parameter_set_id;
    if m.pps.contains_key(id) {
        let pps = m.pps[id];
        let sps = laws::sps_of(pps);
        assert(sps.valid());
        let limited = m.limited(sps);
        if machine::serves(limited, sps) {
            lemma_prepares(limited.cropped(sps), unit, slice, pps, t);
        }
    }
}

proof fn lemma_turn(before: Turn, e: Event, after: Turn)
    requires
        machine::machine_wf(before.memory, before.work),
        laws::leads(before, e, after),
        waits_in_size(before),
    ensures
        waits_in_size(after),
{
    reveal(laws::leads);
    let m = before.memory;
    match e {
        Event::Feed(unit) => {
            laws::lemma_stop(unit.nals@, unit.next as int, m.pps);
            shape::lemma_stop_valid(unit.nals@, unit.next as int, m.pps);
            let (i, pps, e) = machine::stop(unit.nals@, unit.next as int, m.pps);
            let n = MemoryState { pps, ..m };
            if e is None && i < unit.nals@.len() {
                let slice = unit.nals@[i]->Slice_0.unwrap();
                let past = Unit { next: (i + 1) as usize, ..unit };
                lemma_begins(n, past, slice, after);
            }
        },
        Event::Flush(_) => {},
        Event::Answer(reply) => match before.work {
            Work::Decoding { unit, wait } => match (wait, reply) {
                (Wait::Sequence { slice, pps, sequence }, Reply::Done) => {
                    let n = MemoryState { sequence: Some(sequence@), ..m };
                    lemma_prepares(n, unit, slice, pps, after);
                },
                (Wait::Submit { current, following }, Reply::Done) => {
                    let marks = current.first.header.dec_ref_pic_marking;
                    let max = current.pps.sps.max_num_ref_frames;
                    laws::lemma_finishing_keeps_pps(m, current.pic, current.handle, marks, max);
                    let (n, r) = m.finished(current.pic, current.handle, marks, max);
                    if r is Ok && following is Some {
                        lemma_begins(n, unit, following.unwrap(), after);
                    }
                },
                _ => {},
            },
            _ => {},
        },
    }
}

/// What is in flight was in flight before, or has just been begun.
proof fn lemma_flight(before: Turn, e: Event, after: Turn, h: Handle)
    requires
        machine::machine_wf(before.memory, before.work),
        laws::leads(before, e, after),
        surfaces::in_flight(after.work).count(h) > 0,
    ensures
        surfaces::in_flight(before.work).count(h) > 0 || (after.work matches Work::Decoding {
            unit: _,
            wait: Wait::Picture { slice: _, current },
        } && current.handle == h),
{
    reveal(laws::leads);
}

////// Over the life of a decoder

proof fn lemma_begun_grows(turns: Seq<Turn>, n: int, h: Handle)
    ensures
        was_begun(turns, n, h) ==> was_begun(turns, n + 1, h),
{
    if was_begun(turns, n, h) {
        let k = choose|k: int| 0 <= k < n && is_begun(#[trigger] turns[k], h);
        assert(is_begun(turns[k], h));
    }
}

/// Whether every picture of `t` has been begun at one of the first `n` turns, of the
/// visible size of its SPS.
spec fn is_all_begun(turns: Seq<Turn>, n: int, t: Turn) -> bool {
    &&& forall|h: Handle| #[trigger] surfaces::has_picture(t, h) ==> was_begun(turns, n, h)
    &&& t.work matches Work::Delivering(d) ==> forall|i: int|
        0 <= i < d.handles@.len() ==> was_begun(turns, n, #[trigger] d.handles@[i])
    &&& waits_in_size(t)
}

proof fn lemma_picture_begun(
    turns: Seq<Turn>,
    n: int,
    before: Turn,
    e: Event,
    after: Turn,
    h: Handle,
)
    requires
        0 < n < turns.len(),
        after == turns[n],
        machine::machine_wf(before.memory, before.work),
        laws::leads(before, e, after),
        surfaces::has_picture(before, h) ==> was_begun(turns, n, h),
        waits_in_size(after),
        surfaces::has_picture(after, h),
    ensures
        was_begun(turns, n + 1, h),
{
    surfaces::lemma_turns_over(before, e, after);
    lemma_begun_grows(turns, n, h);
    assert(surfaces::undelivered(after).count(h) == surfaces::landed(after).count(h)
        + surfaces::in_flight(after.work).count(h));
    assert(surfaces::in_flight(before.work).count(h) <= surfaces::undelivered(before).count(h));
    if surfaces::landed(after).count(h) > 0 || dpb_laws::held(after.memory.dpb.entries).count(h)
        > 0 || surfaces::in_flight(before.work).count(h) > 0 {
        assert(surfaces::has_picture(before, h));
    } else {
        lemma_flight(before, e, after, h);
        assert(is_begun(turns[n], h));
    }
}

proof fn lemma_history(turns: Seq<Turn>, events: Seq<Event>, n: int)
    requires
        laws::is_history(turns, events),
        0 <= n < turns.len(),
    ensures
        is_all_begun(turns, n + 1, turns[n]),
    decreases n,
{
    broadcast use vstd::seq_lib::group_to_multiset_ensures;

    if n == 0 {
        assert(turns[0].memory.ready =~= Seq::<Handle>::empty());
        assert forall|h: Handle| !surfaces::has_picture(turns[0], h) by {
            assert(surfaces::undelivered(turns[0]).count(h) == 0);
        }
    } else {
        lemma_history(turns, events, n - 1);
        let before = turns[n - 1];
        let after = turns[n];
        let e = events[n - 1];
        assert(laws::leads(before, e, turns[n - 1 + 1]));
        assert(machine::machine_wf(before.memory, before.work));
        lemma_turn(before, e, after);
        surfaces::lemma_turns_over(before, e, after);
        assert forall|h: Handle| #[trigger] surfaces::has_picture(after, h) implies was_begun(
            turns,
            n + 1,
            h,
        ) by {
            lemma_picture_begun(turns, n, before, e, after, h);
        }
        shape::lemma_unit_stays(before, e, after);
        if after.work is Delivering {
            let d = after.work->Delivering_0;
            assert forall|i: int| 0 <= i < d.handles@.len() implies was_begun(
                turns,
                n + 1,
                #[trigger] d.handles@[i],
            ) by {
                if d.next == 0 && d.frames@.len() == 0 {
                    assert(d.handles@.skip(0) =~= d.handles@);
                    assert(d.handles@.to_multiset().count(d.handles@[i]) > 0);
                    assert(surfaces::landed(after).count(d.handles@[i]) > 0);
                    assert(surfaces::has_picture(after, d.handles@[i]));
                } else {
                    lemma_begun_grows(turns, n, d.handles@[i]);
                }
            }
        }
    }
}

/// Whether a picture with this timestamp and size has been begun at one of the first `n`
/// turns, of the visible size of its SPS.
pub open spec fn shows_a_picture(
    turns: Seq<Turn>,
    n: int,
    timestamp: u64,
    width: u32,
    height: u32,
) -> bool {
    exists|h: Handle| #[trigger]
        was_begun(turns, n, h) && h.timestamp == timestamp && h.width == width && h.height
            == height
}

/// Every frame and every export handed over is a picture begun earlier, and has the
/// visible size of the SPS that picture was begun under.
pub proof fn pictures_have_the_size_of_their_sequence(
    turns: Seq<Turn>,
    events: Seq<Event>,
    n: int,
)
    requires
        laws::is_history(turns, events),
        0 <= n < turns.len(),
    ensures
        turns[n].result matches Ok(Step::Frames(f)) ==> forall|i: int|
            0 <= i < f@.len() ==> shows_a_picture(
                turns,
                n,
                (#[trigger] f@[i]).timestamp,
                f@[i].width,
                f@[i].height,
            ),
        turns[n].result matches Ok(Step::Exported(f)) ==> forall|i: int|
            0 <= i < f@.len() ==> shows_a_picture(
                turns,
                n,
                (#[trigger] f@[i]).timestamp,
                f@[i].width,
                f@[i].height,
            ),
{
    if n > 0 {
        lemma_history(turns, events, n - 1);
        let before = turns[n - 1];
        assert(laws::leads(before, events[n - 1], turns[n - 1 + 1]));
        assert(machine::machine_wf(before.memory, before.work));
        shape::lemma_frames_come_due(before, events[n - 1], turns[n]);
        if before.work is Delivering {
            let d = before.work->Delivering_0;
            assert forall|i: int| 0 <= i < d.handles@.len() implies was_begun(
                turns,
                n,
                #[trigger] d.handles@[i],
            ) by {}
            match turns[n].result {
                Ok(Step::Frames(f)) => {
                    assert forall|i: int| 0 <= i < f@.len() implies shows_a_picture(
                        turns,
                        n,
                        (#[trigger] f@[i]).timestamp,
                        f@[i].width,
                        f@[i].height,
                    ) by {
                        assert(was_begun(turns, n, d.handles@[i]));
                    }
                },
                Ok(Step::Exported(f)) => {
                    assert forall|i: int| 0 <= i < f@.len() implies shows_a_picture(
                        turns,
                        n,
                        (#[trigger] f@[i]).timestamp,
                        f@[i].width,
                        f@[i].height,
                    ) by {
                        assert(was_begun(turns, n, d.handles@[i]));
                    }
                },
                _ => {},
            }
        }
    }
}

/// Whether every picture of a history is begun under an SPS that shows `width` by
/// `height`.
pub open spec fn is_of_size(turns: Seq<Turn>, width: u32, height: u32) -> bool {
    forall|k: int|
        0 <= k < turns.len() ==> ((#[trigger] turns[k]).work matches Work::Decoding {
            unit: _,
            wait: Wait::Picture { slice: _, current },
        } ==> {
            &&& sequence::size_refusal(*current.pps.sps) is None
            &&& sequence::visible_width(*current.pps.sps) == width
            &&& sequence::visible_height(*current.pps.sps) == height
        })
}

/// A stream of one size comes out in that size, however its pictures are taken.
pub proof fn streams_keep_their_size(
    turns: Seq<Turn>,
    events: Seq<Event>,
    n: int,
    width: u32,
    height: u32,
)
    requires
        laws::is_history(turns, events),
        is_of_size(turns, width, height),
        0 <= n < turns.len(),
    ensures
        turns[n].result matches Ok(Step::Frames(f)) ==> forall|i: int|
            0 <= i < f@.len() ==> (#[trigger] f@[i]).width == width && f@[i].height == height,
        turns[n].result matches Ok(Step::Exported(f)) ==> forall|i: int|
            0 <= i < f@.len() ==> (#[trigger] f@[i]).width == width && f@[i].height == height,
{
    pictures_have_the_size_of_their_sequence(turns, events, n);
    assert forall|h: Handle| #[trigger] was_begun(turns, n, h) implies h.width == width && h.height
        == height by {
        let k = choose|k: int| 0 <= k < n && is_begun(#[trigger] turns[k], h);
        assert(is_begun(turns[k], h));
    }
    match turns[n].result {
        Ok(Step::Frames(f)) => {
            assert forall|i: int| 0 <= i < f@.len() implies (#[trigger] f@[i]).width == width
                && f@[i].height == height by {
                let g = f@[i];
                assert(shows_a_picture(turns, n, g.timestamp, g.width, g.height));
            }
        },
        Ok(Step::Exported(f)) => {
            assert forall|i: int| 0 <= i < f@.len() implies (#[trigger] f@[i]).width == width
                && f@[i].height == height by {
                let g = f@[i];
                assert(shows_a_picture(turns, n, g.timestamp, g.width, g.height));
            }
        },
        _ => {},
    }
}

} // verus!
