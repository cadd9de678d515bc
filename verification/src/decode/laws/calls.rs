//! What a call comes to depends on the stream alone: neither on the surfaces the driver
//! hands out, nor on the way the pictures are taken.

use std::rc::Rc;

use vstd::prelude::*;

use crate::decode::laws;
use crate::decode::laws::Event;
use crate::decode::machine;
use crate::decode::machine::{
    CurrentPicture, Delivery, ExportedFrame, Nal, Output, Reply, Step, Turn, Unit, Wait, Work,
};
use crate::decode::nv12::Frame;
use crate::decode::poc;
use crate::decode::sequence;
use crate::decode::sequence::SequenceState;
use crate::decode::state;
use crate::decode::state::MemoryState;
use crate::h264::dpb;
use crate::h264::dpb::mmco::Marking;
use crate::h264::dpb::unplaced;
use crate::h264::picture::PictureData;
use crate::h264::syntax::{Pps, RefPicMarking, Slice, Sps};
use crate::surface::Handle;

verus! {

////// Memory without surfaces

/// `s` without its surfaces.
pub open spec fn poolless(s: SequenceState) -> SequenceState {
    SequenceState { surfaces: Seq::empty(), ..s }
}

/// `m` with every surface forgotten: the pool, and where pictures are.
pub open spec fn blind(m: MemoryState) -> MemoryState {
    MemoryState {
        dpb: unplaced::buffer(m.dpb),
        ready: unplaced::handles(m.ready),
        sequence: match m.sequence {
            Some(s) => Some(poolless(s)),
            None => None,
        },
        ..m
    }
}

proof fn lemma_handles_add(a: Seq<Handle>, b: Seq<Handle>)
    ensures
        unplaced::handles(a + b) == unplaced::handles(a) + unplaced::handles(b),
{
    assert(unplaced::handles(a + b) =~= unplaced::handles(a) + unplaced::handles(b));
}

/// Which surfaces the pool has back is forgotten with the surfaces.
proof fn lemma_freeing(m: MemoryState, gone: Seq<Handle>)
    ensures
        blind(m.freed(gone)) == blind(m),
        blind(m).freed(gone) == blind(m),
{
    match m.sequence {
        Some(s) => {
            let b = blind(m);
            sequence::empty_pools_stay_empty(
                Seq::empty(),
                gone,
                b.dpb.entries,
                b.ready,
            );
        },
        None => {},
    }
    assert(blind(m.freed(gone)) =~= blind(m));
    assert(blind(m).freed(gone) =~= blind(m));
}

proof fn lemma_draining(m: MemoryState)
    ensures
        blind(m).drained() == blind(m.drained()),
        blind(m).reset() == blind(m.reset()),
{
    unplaced::output_sequence(m.dpb.entries);
    unplaced::pictures(dpb::output_sequence(m.dpb.entries));
    lemma_handles_add(m.ready, dpb::handles(dpb::output_sequence(m.dpb.entries)));
    assert(unplaced::entries(Seq::empty()) =~= Seq::empty());
    let emptied = MemoryState {
        dpb: m.dpb.with(Seq::empty()),
        ready: m.ready + dpb::handles(dpb::output_sequence(m.dpb.entries)),
        ..m
    };
    lemma_freeing(emptied, state::let_go(m.dpb.entries, true));
    lemma_freeing(emptied, state::let_go(blind(m).dpb.entries, true));
    assert(blind(m).drained() =~= blind(m.drained()));
    assert(blind(m).reset() =~= blind(m.reset()));
}

proof fn lemma_bumping(m: MemoryState, pic: PictureData)
    ensures
        blind(m).bumped(pic) == blind(m.bumped(pic)),
{
    unplaced::pruning(m.dpb);
    unplaced::bumping(m.dpb.pruned(), pic);
    unplaced::pictures(dpb::bumped(m.dpb.pruned(), pic));
    lemma_handles_add(m.ready, dpb::handles(dpb::bumped(m.dpb.pruned(), pic)));
    let pushed = MemoryState {
        dpb: dpb::left_after_bumping(m.dpb.pruned(), pic),
        ready: m.ready + dpb::handles(dpb::bumped(m.dpb.pruned(), pic)),
        ..m
    };
    lemma_freeing(pushed, state::let_go(m.dpb.entries, false));
    lemma_freeing(pushed, state::let_go(blind(m).dpb.entries, false));
    assert(blind(m).bumped(pic) =~= blind(m.bumped(pic)));
}

proof fn lemma_filling(m: MemoryState, sps: Sps, unused: int, frame_num: int, timestamp: u64)
    requires
        0 <= unused < sps.spec_max_frame_num(),
        0 <= frame_num < sps.spec_max_frame_num(),
    ensures
        blind(m).filled(sps, unused, frame_num, timestamp) == (
            blind(m.filled(sps, unused, frame_num, timestamp).0),
            m.filled(sps, unused, frame_num, timestamp).1,
        ),
    decreases
            state::frame_num_distance(
                unused,
                frame_num,
                sps.spec_max_frame_num() as int,
            ),
{
    if unused != frame_num {
        let max = sps.spec_max_frame_num();
        let invented = PictureData::non_existing(unused as u32, timestamp);
        let ordering = MemoryState { prev: poc::prev_after(m.prev, invented), ..m };
        match poc::ordered(m.prev_ref, m.prev, invented, sps) {
            Err(_) => {},
            Ok(pic) => {
                let renumbered = m.dpb.renumbered(unused as u32, max as u32);
                unplaced::renumbering(m.dpb, unused as u32, max as u32);
                unplaced::sliding(renumbered, sps.max_num_ref_frames);
                let marked = MemoryState {
                    dpb: renumbered.slid(sps.max_num_ref_frames),
                    ..ordering
                };
                lemma_bumping(marked, pic);
                let bumped = marked.bumped(pic);
                unplaced::storing(bumped.dpb, pic, None);
                assert(blind(bumped).stored(pic, None) == blind(bumped.stored(pic, None)));
                if bumped.dpb.has_room() {
                    lemma_filling(
                        bumped.stored(pic, None),
                        sps,
                        state::next_frame_num(unused, max as int),
                        frame_num,
                        timestamp,
                    );
                }
            },
        }
    }
}

proof fn lemma_initiating(m: MemoryState, slice: Slice, sps: Sps, timestamp: u64)
    ensures
        blind(m).initiated(slice, sps, timestamp) == (
            blind(m.initiated(slice, sps, timestamp).0),
            m.initiated(slice, sps, timestamp).1,
        ),
{
    let coded = PictureData::of_slice(slice, sps, timestamp);
    let ordering = MemoryState { prev: poc::prev_after(m.prev, coded), ..m };
    lemma_draining(ordering);
    let emptied = if !slice.idr_pic_flag {
        ordering
    } else if slice.header.dec_ref_pic_marking.no_output_of_prior_pics_flag {
        ordering.discarded()
    } else {
        ordering.drained()
    };
    assert(unplaced::entries(Seq::empty()) =~= Seq::empty());
    let cleared = MemoryState { dpb: ordering.dpb.with(Seq::empty()), ..ordering };
    lemma_freeing(cleared, state::let_go(ordering.dpb.entries, true));
    lemma_freeing(cleared, state::let_go(blind(ordering).dpb.entries, true));
    assert(blind(ordering).discarded() =~= blind(ordering.discarded()));
    unplaced::renumbering(
        emptied.dpb,
        slice.header.frame_num as u32,
        sps.spec_max_frame_num() as u32,
    );
}

proof fn lemma_preparing(m: MemoryState, slice: Slice, sps: Sps, timestamp: u64)
    requires
        slice.header.frame_num < sps.spec_max_frame_num(),
    ensures
        blind(m).prepared(slice, sps, timestamp) == (
            blind(m.prepared(slice, sps, timestamp).0),
            m.prepared(slice, sps, timestamp).1,
        ),
{
    let s = m.renumbering(slice.idr_pic_flag);
    assert(blind(m).renumbering(slice.idr_pic_flag) == blind(s));
    let frame_num = slice.header.frame_num as int;
    if s.skips_to(frame_num, sps) {
        let max = sps.spec_max_frame_num() as int;
        lemma_filling(s, sps, (s.prev_ref.frame_num + 1) % max, frame_num, timestamp);
        lemma_initiating(s.gap_handled(sps, frame_num, timestamp).0, slice, sps, timestamp);
    } else {
        lemma_initiating(s, slice, sps, timestamp);
    }
}

proof fn lemma_finishing(
    m: MemoryState,
    pic: PictureData,
    h: Handle,
    marks: RefPicMarking,
    max_num_ref_frames: u8,
)
    ensures
        blind(m).finished(pic, unplaced::handle(h), marks, max_num_ref_frames) == (
            blind(m.finished(pic, h, marks, max_num_ref_frames).0),
            m.finished(pic, h, marks, max_num_ref_frames).1,
        ),
{
    let s = Marking { dpb: m.dpb, pic, max_long_term_frame_idx: m.max_long_term_frame_idx };
    unplaced::unmarking(m.dpb);
    unplaced::operating(s, marks.inner@);
    unplaced::sliding(m.dpb, max_num_ref_frames);
    let (t, marked, r) = m.marked(pic, marks, max_num_ref_frames);
    assert(blind(m).marked(pic, marks, max_num_ref_frames) == (blind(t), marked, r));
    if r is Ok {
        let cached = MemoryState { prev: poc::PrevPicInfo::of(marked), ..t };
        lemma_draining(cached);
        let emptied = if marked.has_mmco_5 {
            cached.drained()
        } else {
            cached
        };
        lemma_bumping(emptied, marked);
        let bumped = emptied.bumped(marked);
        unplaced::storing(bumped.dpb, marked, Some(h));
        assert(unplaced::handles(bumped.ready.push(h)) =~= unplaced::handles(bumped.ready).push(
            unplaced::handle(h),
        ));
    }
}

////// What a call comes to

/// What a call comes to: the memory it leaves, and the pictures it delivers, both with
/// the surfaces forgotten.
pub struct Outcome {
    pub memory: MemoryState,
    pub pictures: Seq<Handle>,
}

/// The picture being decoded, its surface forgotten.
pub struct Coding {
    pub pic: PictureData,
    pub first: Rc<Slice>,
    pub pps: Rc<Pps>,
    pub handle: Handle,
}

/// The picture `current`, its surface forgotten.
pub open spec fn coding(current: CurrentPicture) -> Coding {
    Coding {
        pic: current.pic,
        first: current.first,
        pps: current.pps,
        handle: unplaced::handle(current.handle),
    }
}

/// A call that has decoded everything, with the memory `m`.
pub open spec fn decoded(m: MemoryState) -> Outcome {
    Outcome { memory: machine::taken(m), pictures: m.ready }
}

/// `m` once the picture `c` is decoded.
pub open spec fn completed(m: MemoryState, c: Coding) -> MemoryState {
    m.finished(
        c.pic,
        c.handle,
        c.first.header.dec_ref_pic_marking,
        c.pps.sps.max_num_ref_frames,
    ).0
}

/// The picture `pic`, started by `slice` at `timestamp` with the memory `m`.
pub open spec fn started(
    m: MemoryState,
    slice: Rc<Slice>,
    pic: PictureData,
    timestamp: u64,
) -> Coding {
    Coding {
        pic,
        first: slice,
        pps: m.pps[slice.header.pic_parameter_set_id],
        handle: Handle {
            surface: 0,
            timestamp,
            width: m.sequence.unwrap().width,
            height: m.sequence.unwrap().height,
        },
    }
}

/// `m` under the sequence `sps`: the active one if it serves, and a new one otherwise.
pub open spec fn under(m: MemoryState, sps: Sps) -> MemoryState {
    let limited = m.limited(sps);
    if machine::serves(limited, sps) {
        limited.cropped(sps)
    } else {
        MemoryState { sequence: Some(sequence::sequence_for(sps)), ..limited.drained() }
    }
}

/// What comes of reading `nals` from `next` on, given the picture in hand. Says nothing
/// of a stream that fails.
#[verifier::opaque]
pub open spec fn ahead(
    m: MemoryState,
    nals: Seq<Nal>,
    next: int,
    timestamp: u64,
    current: Option<Coding>,
) -> Outcome
    decreases nals.len() - next,
{
    let (i, pps, e) = machine::stop(nals, next, m.pps);
    let n = MemoryState { pps, ..m };
    if i < next || e is Some {
        decoded(n)
    } else if i >= nals.len() {
        match current {
            Some(c) => decoded(completed(n, c)),
            None => decoded(n),
        }
    } else {
        let slice = nals[i]->Slice_0.unwrap();
        match current {
            Some(c) if slice.header.first_mb_in_slice != 0 => ahead(
                n,
                nals,
                i + 1,
                timestamp,
                Some(Coding { pps: n.pps[slice.header.pic_parameter_set_id], ..c }),
            ),
            _ => {
                let done = match current {
                    Some(c) => completed(n, c),
                    None => n,
                };
                let sps = *done.pps[slice.header.pic_parameter_set_id].sps;
                let (ready, pic) = under(done, sps).prepared(*slice, sps, timestamp);
                ahead(
                    ready,
                    nals,
                    i + 1,
                    timestamp,
                    Some(started(ready, slice, pic->Ok_0, timestamp)),
                )
            },
        }
    }
}

/// What comes of starting the picture of `slice`, with `nals` read up to `next`.
pub open spec fn begun(
    m: MemoryState,
    nals: Seq<Nal>,
    next: int,
    timestamp: u64,
    slice: Rc<Slice>,
) -> Outcome {
    let sps = *m.pps[slice.header.pic_parameter_set_id].sps;
    let (ready, pic) = under(m, sps).prepared(*slice, sps, timestamp);
    ahead(ready, nals, next, timestamp, Some(started(ready, slice, pic->Ok_0, timestamp)))
}

/// What becomes of a decoder that waits at `wait` in `unit`.
pub open spec fn destiny(m: MemoryState, unit: Unit, wait: Wait) -> Outcome {
    let nals = unit.nals@;
    let next = unit.next as int;
    let b = blind(m);
    match wait {
        Wait::Sequence { slice, pps, sequence } => {
            let opened = MemoryState { sequence: Some(poolless(sequence@)), ..b };
            let (ready, pic) = opened.prepared(*slice, *pps.sps, unit.timestamp);
            ahead(
                ready,
                nals,
                next,
                unit.timestamp,
                Some(started(ready, slice, pic->Ok_0, unit.timestamp)),
            )
        },
        Wait::Surface { slice, pic, .. } => ahead(
            b,
            nals,
            next,
            unit.timestamp,
            Some(started(b, slice, pic, unit.timestamp)),
        ),
        Wait::Picture { slice, current } => ahead(
            b,
            nals,
            next,
            unit.timestamp,
            Some(Coding { pps: m.pps[slice.header.pic_parameter_set_id], ..coding(current) }),
        ),
        Wait::Slice { current } => ahead(
            b,
            nals,
            next,
            unit.timestamp,
            Some(coding(current)),
        ),
        Wait::Submit { current, following } => {
            let done = completed(b, coding(current));
            match following {
                Some(slice) => begun(done, nals, next, unit.timestamp, slice),
                None => decoded(done),
            }
        },
    }
}

/// Whether what the turn `t` hands over is the pictures `s`.
pub open spec fn hands_over(t: Turn, s: Seq<Handle>) -> bool {
    match t.result {
        Ok(Step::Frames(f)) => machine::frames_match(f@, s),
        Ok(Step::Exported(f)) => machine::exports_match(f@, s),
        _ => false,
    }
}

/// Whether the call `t` is a turn of comes to `o`.
pub open spec fn comes_to(t: Turn, o: Outcome) -> bool {
    match t.work {
        Work::Idle => blind(t.memory) == o.memory && hands_over(t, o.pictures),
        Work::Decoding { unit, wait } => destiny(t.memory, unit, wait) == o,
        Work::Delivering(d) => blind(t.memory) == o.memory && unplaced::handles(d.handles@)
            == o.pictures,
    }
}

////// Turn by turn

proof fn lemma_delivers(m: MemoryState, output: Output, t: Turn)
    requires
        machine::delivers(m, output, t),
    ensures
        comes_to(t, decoded(blind(m))),
{
    assert(unplaced::handles(Seq::empty()) =~= Seq::empty());
    assert(blind(t.memory) =~= decoded(blind(m)).memory);
    if m.ready.len() == 0 {
        assert(unplaced::handles(m.ready).len() == 0);
    }
}

/// Whether a picture got ready with the memory `n` and started by `slice` is what
/// becomes of `t`.
spec fn starts_out(
    n: MemoryState,
    unit: Unit,
    slice: Rc<Slice>,
    pic: PictureData,
    t: Turn,
) -> bool {
    comes_to(
        t,
        ahead(
            blind(n),
            unit.nals@,
            unit.next as int,
            unit.timestamp,
            Some(started(blind(n), slice, pic, unit.timestamp)),
        ),
    )
}

proof fn lemma_starts(
    m: MemoryState,
    unit: Unit,
    slice: Rc<Slice>,
    pps: Rc<Pps>,
    pic: PictureData,
    surface: u32,
    t: Turn,
)
    requires
        m.sequence is Some,
        machine::starts(m, unit, slice, pps, pic, surface, t),
    ensures
        starts_out(m, unit, slice, pic, t),
{
}

proof fn lemma_prepares(
    m: MemoryState,
    unit: Unit,
    slice: Rc<Slice>,
    pps: Rc<Pps>,
    t: Turn,
)
    requires
        m.sequence is Some,
        slice.header.frame_num < pps.sps.spec_max_frame_num(),
        machine::prepares(m, unit, slice, pps, t),
        t.result is Ok,
    ensures
        ({
            let (ready, pic) = blind(m).prepared(*slice, *pps.sps, unit.timestamp);
            comes_to(
                t,
                ahead(
                    ready,
                    unit.nals@,
                    unit.next as int,
                    unit.timestamp,
                    Some(started(ready, slice, pic->Ok_0, unit.timestamp)),
                ),
            )
        }),
{
    let sps = laws::sps_of(pps);
    lemma_preparing(m, laws::slice_of(slice), sps, unit.timestamp);
    laws::lemma_preparing_fits(m, laws::slice_of(slice), sps, unit.timestamp);
    let (n, r) = m.prepared(laws::slice_of(slice), sps, unit.timestamp);
    match sequence::free_surface(n.sequence.unwrap().surfaces, n.dpb.entries, n.ready) {
        Some(surface) => {
            lemma_starts(n, unit, slice, pps, r->Ok_0, surface, t);
        },
        None => {},
    }
}

proof fn lemma_begins(m: MemoryState, unit: Unit, slice: Rc<Slice>, t: Turn)
    requires
        machine::conforms(m.pps, *slice),
        machine::begins(m, unit, slice, t),
        t.result is Ok,
    ensures
        comes_to(
            t,
            begun(blind(m), unit.nals@, unit.next as int, unit.timestamp, slice),
        ),
{
    let pps = m.pps[slice.header.pic_parameter_set_id];
    let sps = laws::sps_of(pps);
    let limited = m.limited(sps);
    assert(blind(m).limited(sps) == blind(limited));
    lemma_draining(limited);
    if machine::serves(limited, sps) {
        assert(blind(limited).cropped(sps) == blind(limited.cropped(sps)));
        lemma_prepares(limited.cropped(sps), unit, slice, pps, t);
    } else {
        assert(poolless(sequence::sequence_for(sps)) == sequence::sequence_for(sps));
    }
}

proof fn lemma_stop_ahead(nals: Seq<Nal>, i: int, pps: Map<u8, Rc<Pps>>)
    requires
        i <= nals.len(),
    ensures
        i <= machine::stop(nals, i, pps).0 <= nals.len(),
    decreases nals.len() - i,
{
    if i < nals.len() {
        match nals[i] {
            Nal::Pps(Some(p)) => {
                if laws::sps_of(p).valid() {
                    lemma_stop_ahead(nals, i + 1, pps.insert(p.pic_parameter_set_id, p));
                }
            },
            _ => lemma_stop_ahead(nals, i + 1, pps),
        }
    }
}

/// One step of [`ahead`].
proof fn lemma_ahead(
    m: MemoryState,
    nals: Seq<Nal>,
    next: int,
    timestamp: u64,
    current: Option<Coding>,
)
    requires
        next <= nals.len(),
    ensures
        ({
            let (i, pps, e) = machine::stop(nals, next, m.pps);
            let n = MemoryState { pps, ..m };
            let slice = nals[i]->Slice_0.unwrap();
            e is None ==> ahead(m, nals, next, timestamp, current) == if i >= nals.len() {
                match current {
                    Some(c) => decoded(completed(n, c)),
                    None => decoded(n),
                }
            } else {
                match current {
                    Some(c) => if slice.header.first_mb_in_slice != 0 {
                        ahead(
                            n,
                            nals,
                            i + 1,
                            timestamp,
                            Some(Coding { pps: n.pps[slice.header.pic_parameter_set_id], ..c }),
                        )
                    } else {
                        begun(completed(n, c), nals, i + 1, timestamp, slice)
                    },
                    None => begun(n, nals, i + 1, timestamp, slice),
                }
            }
        }),
{
    reveal_with_fuel(ahead, 1);
    lemma_stop_ahead(nals, next, m.pps);
}

proof fn lemma_advances(m: MemoryState, unit: Unit, current: Option<CurrentPicture>, t: Turn)
    requires
        unit.next <= unit.nals@.len(),
        machine::advances(m, unit, current, t),
        t.result is Ok,
    ensures
        comes_to(
            t,
            ahead(
                blind(m),
                unit.nals@,
                unit.next as int,
                unit.timestamp,
                match current {
                    Some(c) => Some(coding(c)),
                    None => None,
                },
            ),
        ),
{
    let nals = unit.nals@;
    let c = match current {
        Some(c) => Some(coding(c)),
        None => None,
    };
    lemma_ahead(blind(m), nals, unit.next as int, unit.timestamp, c);
    assert(nals.len() == unit.nals.len());
    laws::lemma_stop(nals, unit.next as int, m.pps);
    lemma_stop_ahead(nals, unit.next as int, m.pps);
    let (i, pps, e) = machine::stop(nals, unit.next as int, m.pps);
    let n = MemoryState { pps, ..m };
    assert(blind(n) == (MemoryState { pps, ..blind(m) }));
    assert(e is None);
    if i >= nals.len() {
        if current is None {
            lemma_delivers(n, unit.output, t);
        }
    } else {
        let slice = nals[i]->Slice_0.unwrap();
        let past = Unit { next: (i + 1) as usize, ..unit };
        match current {
            Some(c) => {
                if slice.header.first_mb_in_slice != 0 {
                    assert(machine::slices(n, past, c, slice, t));
                }
            },
            None => {
                lemma_begins(n, past, slice, t);
            },
        }
    }
}

/// Forgetting surfaces changes nothing that is handed over.
proof fn lemma_hands_over(t: Turn, s: Seq<Handle>)
    requires
        hands_over(t, s),
    ensures
        hands_over(t, unplaced::handles(s)),
{
    let b = unplaced::handles(s);
    match t.result {
        Ok(Step::Frames(f)) => {
            assert forall|i: int| 0 <= i < f@.len() implies (#[trigger] f@[i]).timestamp
                == b[i].timestamp && f@[i].width == b[i].width && f@[i].height == b[i].height by {}
        },
        Ok(Step::Exported(f)) => {
            assert forall|i: int| 0 <= i < f@.len() implies (#[trigger] f@[i]).timestamp
                == b[i].timestamp && f@[i].width == b[i].width && f@[i].height == b[i].height by {}
        },
        _ => {},
    }
}

proof fn lemma_delivery(m: MemoryState, d: Delivery, reply: Reply, t: Turn)
    requires
        machine::delivery_wf(d),
        machine::answers(Work::Delivering(d), reply),
        machine::delivery_resumed(m, d, reply, t),
        t.result is Ok,
    ensures
        comes_to(t, Outcome { memory: blind(m), pictures: unplaced::handles(d.handles@) }),
{
    laws::deliveries_are_complete_and_in_order(m, d, reply, t);
    let retired = machine::surface_retired(m, machine::due(d).surface);
    assert(blind(retired) == blind(m));
    lemma_freeing(m, d.handles@);
    lemma_freeing(retired, d.handles@);
    if t.work is Idle {
        lemma_hands_over(t, d.handles@);
    }
}

proof fn lemma_decoding(before: Turn, unit: Unit, wait: Wait, reply: Reply, after: Turn)
    requires
        before.work == (Work::Decoding { unit, wait }),
        machine::machine_wf(before.memory, before.work),
        machine::answers(before.work, reply),
        machine::resumed(before.memory, before.work, reply, after),
        after.result is Ok,
    ensures
        comes_to(after, destiny(before.memory, unit, wait)),
{
    let m = before.memory;
    match (wait, reply) {
        (Wait::Sequence { slice, pps, sequence }, Reply::Done) => {
            let n = MemoryState { sequence: Some(sequence@), ..m };
            assert(blind(n) == (MemoryState { sequence: Some(poolless(sequence@)), ..blind(m) }));
            lemma_prepares(n, unit, slice, pps, after);
        },
        (Wait::Surface { slice, pps, pic, .. }, Reply::Surface(surface)) => {
            let n = machine::adopted(m, surface);
            assert(blind(n) == blind(m));
            lemma_starts(n, unit, slice, pps, pic, surface, after);
        },
        (Wait::Picture { slice, current }, Reply::Done) => {
            assert(machine::slices(m, unit, current, slice, after));
        },
        (Wait::Slice { current }, Reply::Done) => {
            lemma_advances(m, unit, Some(current), after);
        },
        (Wait::Submit { current, following }, Reply::Done) => {
            let marks = current.first.header.dec_ref_pic_marking;
            let max = current.pps.sps.max_num_ref_frames;
            lemma_finishing(m, current.pic, current.handle, marks, max);
            laws::lemma_finishing_keeps_pps(m, current.pic, current.handle, marks, max);
            let (n, r) = m.finished(current.pic, current.handle, marks, max);
            assert(completed(blind(m), coding(current)) == blind(n));
            assert(r is Ok);
            match following {
                Some(slice) => {
                    lemma_begins(n, unit, slice, after);
                },
                None => {
                    lemma_delivers(n, unit.output, after);
                },
            }
        },
        _ => {},
    }
}

////// Over the life of a decoder

/// A call on a decoder, however its pictures are taken.
pub enum Call {
    Feed { nals: Seq<Nal>, next: int, timestamp: u64 },
    Flush,
}

/// The calls among the first `n` events.
pub open spec fn calls_by(events: Seq<Event>, n: int) -> Seq<Call>
    decreases n,
{
    if n <= 0 {
        Seq::empty()
    } else {
        let before = calls_by(events, n - 1);
        match events[n - 1] {
            Event::Feed(unit) => before.push(
                Call::Feed {
                    nals: unit.nals@,
                    next: unit.next as int,
                    timestamp: unit.timestamp,
                },
            ),
            Event::Flush(_) => before.push(Call::Flush),
            Event::Answer(_) => before,
        }
    }
}

/// What the last of `calls` comes to, on a decoder that had seen nothing before them.
pub open spec fn outcome_of(calls: Seq<Call>) -> Outcome
    decreases calls.len(),
{
    if calls.len() == 0 {
        decoded(blind(MemoryState::initial()))
    } else {
        let m = outcome_of(calls.drop_last()).memory;
        match calls.last() {
            Call::Feed { nals, next, timestamp } => ahead(m, nals, next, timestamp, None),
            Call::Flush => decoded(m.reset()),
        }
    }
}

proof fn lemma_fed(m: MemoryState, unit: Unit, t: Turn)
    requires
        machine::advances(m, unit, None, t),
        t.result is Ok,
    ensures
        comes_to(
            t,
            ahead(blind(m), unit.nals@, unit.next as int, unit.timestamp, None),
        ),
{
    if unit.next <= unit.nals@.len() {
        lemma_advances(m, unit, None, t);
    } else {
        reveal_with_fuel(ahead, 1);
        let n = MemoryState { pps: machine::stop(unit.nals@, unit.next as int, m.pps).1, ..m };
        lemma_delivers(n, unit.output, t);
    }
}

proof fn lemma_turn(before: Turn, e: Event, after: Turn, calls: Seq<Call>, more: Seq<Call>)
    requires
        machine::machine_wf(before.memory, before.work),
        comes_to(before, outcome_of(calls)),
        laws::leads(before, e, after),
        after.result is Ok,
        more == match e {
            Event::Feed(unit) => calls.push(
                Call::Feed {
                    nals: unit.nals@,
                    next: unit.next as int,
                    timestamp: unit.timestamp,
                },
            ),
            Event::Flush(_) => calls.push(Call::Flush),
            Event::Answer(_) => calls,
        },
    ensures
        comes_to(after, outcome_of(more)),
{
    reveal(laws::leads);
    match e {
        Event::Feed(unit) => {
            assert(more.drop_last() =~= calls);
            lemma_fed(before.memory, unit, after);
        },
        Event::Flush(output) => {
            assert(more.drop_last() =~= calls);
            lemma_draining(before.memory);
            lemma_delivers(before.memory.reset(), output, after);
        },
        Event::Answer(reply) => match before.work {
            Work::Idle => {},
            Work::Decoding { unit, wait } => {
                lemma_decoding(before, unit, wait, reply, after);
            },
            Work::Delivering(d) => {
                lemma_delivery(before.memory, d, reply, after);
            },
        },
    }
}

/// What a call comes to follows from the stream: from what was fed and when it was
/// flushed, and from nothing else.
pub proof fn calls_come_to_what_was_fed(turns: Seq<Turn>, events: Seq<Event>, n: int)
    requires
        laws::is_life(turns, events),
        0 <= n < turns.len(),
    ensures
        comes_to(turns[n], outcome_of(calls_by(events, n))),
    decreases n,
{
    if n == 0 {
        let m = MemoryState::initial();
        assert(blind(m) =~= decoded(blind(m)).memory);
        assert(turns[0].memory == m);
    } else {
        calls_come_to_what_was_fed(turns, events, n - 1);
        let before = turns[n - 1];
        let after = turns[n];
        let e = events[n - 1];
        assert(laws::leads(before, e, turns[n - 1 + 1]));
        assert(machine::machine_wf(before.memory, before.work));
        assert(after.result is Ok);
        lemma_turn(before, e, after, calls_by(events, n - 1), calls_by(events, n));
    }
}

/// What a caller sees of a picture, however it is taken.
pub struct Sight {
    pub timestamp: u64,
    pub width: u32,
    pub height: u32,
}

/// What a caller sees of the pictures the turn `t` hands over, in order.
pub open spec fn seen(t: Turn) -> Seq<Sight> {
    match t.result {
        Ok(Step::Frames(f)) => f@.map_values(
            |f: Frame| Sight { timestamp: f.timestamp, width: f.width, height: f.height },
        ),
        Ok(Step::Exported(f)) => f@.map_values(
            |f: ExportedFrame| Sight { timestamp: f.timestamp, width: f.width, height: f.height },
        ),
        _ => Seq::empty(),
    }
}

/// What a caller sees of the pictures `s`.
pub open spec fn sights(s: Seq<Handle>) -> Seq<Sight> {
    s.map_values(
        |h: Handle| Sight { timestamp: h.timestamp, width: h.width, height: h.height },
    )
}

proof fn lemma_seen(t: Turn, s: Seq<Handle>)
    requires
        hands_over(t, s),
    ensures
        seen(t) == sights(s),
{
    assert(seen(t) =~= sights(s));
}

/// Two decoders fed alike deliver alike: as many pictures, with the same timestamps and
/// sizes, in the same order, call by call, whichever of the two ways each hands its
/// pictures over and whatever surfaces its driver gave it.
pub proof fn both_ways_deliver_alike(
    turns: Seq<Turn>,
    events: Seq<Event>,
    n: int,
    other_turns: Seq<Turn>,
    other_events: Seq<Event>,
    k: int,
)
    requires
        laws::is_life(turns, events),
        laws::is_life(other_turns, other_events),
        0 <= n < turns.len(),
        0 <= k < other_turns.len(),
        turns[n].work is Idle,
        other_turns[k].work is Idle,
        calls_by(events, n) == calls_by(other_events, k),
    ensures
        seen(turns[n]) == seen(other_turns[k]),
        blind(turns[n].memory) == blind(other_turns[k].memory),
{
    calls_come_to_what_was_fed(turns, events, n);
    calls_come_to_what_was_fed(other_turns, other_events, k);
    let o = outcome_of(calls_by(events, n));
    lemma_seen(turns[n], o.pictures);
    lemma_seen(other_turns[k], o.pictures);
}

} // verus!
