//! How far the output trails what has been decoded.

use std::rc::Rc;

use vstd::arithmetic::div_mod::{
    lemma_fundamental_div_mod, lemma_fundamental_div_mod_converse_mod,
};
use vstd::multiset::Multiset;
use vstd::prelude::*;

use crate::decode::laws;
use crate::decode::laws::order as order_laws;
use crate::decode::laws::Event;
use crate::decode::machine;
use crate::decode::machine::{CurrentPicture, Reply, Turn, Unit, Wait, Work};
use crate::decode::state::MemoryState;
use crate::h264::dpb;
use crate::h264::dpb::laws as dpb_laws;
use crate::h264::dpb::mmco;
use crate::h264::dpb::mmco::Marking;
use crate::h264::dpb::order;
use crate::h264::dpb::{DpbEntry, DpbState};
use crate::h264::picture::PictureData;
use crate::h264::syntax::{Pps, RefPicMarking, RefPicMarkingInner, Slice, Sps};
use crate::surface::Handle;

verus! {

////// A stream of references

/// How a stream of reference frames goes: the frames its buffer holds, and how many frame
/// numbers it has.
pub struct Pace {
    pub frames: int,
    pub numbers: int,
}

/// Whether there is a frame in the buffer, and frame numbers to count with.
pub open spec fn is_pace(p: Pace) -> bool {
    1 <= p.frames && 1 < p.numbers <= 0x10000
}

/// The smaller of `a` and `b`.
pub open spec fn smaller(a: int, b: int) -> int {
    if a < b {
        a
    } else {
        b
    }
}

/// Whether `s` is what the buffer holds once `k` pictures are decoded: as many of them as
/// fit, all still to be output, in output order.
pub open spec fn is_lineup(s: Seq<DpbEntry>, k: int, p: Pace) -> bool {
    &&& s.len() == smaller(k, p.frames)
    &&& forall|j: int|
        0 <= j < s.len() ==> dpb::waiting(#[trigger] s[j]) && s[j].reference is Some
    &&& forall|i: int, j: int|
        0 <= i < j < s.len() ==> (#[trigger] s[i]).pic.pic_order_cnt < (
        #[trigger] s[j]).pic.pic_order_cnt
}

/// Entries that wait alike line up alike.
proof fn lemma_lineup_alike(s: Seq<DpbEntry>, t: Seq<DpbEntry>, k: int, p: Pace)
    requires
        is_lineup(s, k, p),
        order::waits_alike(s, t),
    ensures
        is_lineup(t, k, p),
{
    assert forall|j: int| 0 <= j < t.len() implies dpb::waiting(#[trigger] t[j])
        && t[j].reference is Some by {
        assert(order::ticket(s[j]) == order::ticket(t[j]));
    }
    assert forall|i: int, j: int| 0 <= i < j < t.len() implies (#[trigger] t[i]).pic.pic_order_cnt
        < (#[trigger] t[j]).pic.pic_order_cnt by {
        assert(order::ticket(s[i]) == order::ticket(t[i]));
        assert(order::ticket(s[j]) == order::ticket(t[j]));
    }
}

pub proof fn lemma_number_before(k: int, d: int, m: int)
    requires
        0 <= d < m,
        d <= k,
    ensures
        (k - d) % m == if k % m >= d {
            k % m - d
        } else {
            k % m - d + m
        },
        0 <= k % m < m,
{
    lemma_fundamental_div_mod(k, m);
    let (q, c) = (k / m, k % m);
    assert(m * (q - 1) == m * q - m) by (nonlinear_arith);
    assert(m * q == q * m && m * (q - 1) == (q - 1) * m) by (nonlinear_arith);
    if c >= d {
        lemma_fundamental_div_mod_converse_mod(k - d, m, q, c - d);
    } else {
        lemma_fundamental_div_mod_converse_mod(k - d, m, q - 1, c - d + m);
    }
}

/// A buffer where everything waits has nothing to drop.
proof fn lemma_pruned(s: Seq<DpbEntry>)
    requires
        forall|j: int| 0 <= j < s.len() ==> dpb::waiting(#[trigger] s[j]),
    ensures
        s.filter(|e: DpbEntry| dpb::in_use(e)) == s,
    decreases s.len(),
{
    reveal(Seq::filter);
    if s.len() > 0 {
        let rest = s.drop_last();
        assert forall|j: int| 0 <= j < rest.len() implies dpb::waiting(#[trigger] rest[j]) by {
            assert(rest[j] == s[j]);
        }
        lemma_pruned(rest);
        assert(dpb::waiting(s[s.len() - 1]));
        assert(rest.push(s.last()) =~= s);
    } else {
        assert(s.filter(|e: DpbEntry| dpb::in_use(e)) =~= s);
    }
}

/// One more reference pushes out the oldest picture of a full buffer, where that is no
/// reference any more, and none of another.
proof fn lemma_made_room(d: DpbState, k: int, p: Pace, pic: PictureData)
    requires
        is_pace(p),
        k >= 0,
        is_lineup(d.entries, k, p),
        d.max_num_pics == p.frames,
        d.max_num_reorder_frames <= d.max_num_pics,
        pic.spec_is_ref(),
        k > 0 ==> !pic.spec_idr(),
        k >= p.frames ==> !d.entries[0].pic.spec_is_ref(),
    ensures
        dpb::left_after_bumping(d.pruned(), pic) == if k >= p.frames {
            d.with(d.entries.remove(0))
        } else {
            d
        },
{
    let s = d.entries;
    assert forall|j: int| 0 <= j < s.len() implies dpb::waiting(#[trigger] s[j]) by {}
    lemma_pruned(s);
    assert(d.pruned() == d);
    if k >= p.frames {
        assert(dpb::waiting(s[0]));
        assert forall|j: int| 0 <= j < s.len() && dpb::waiting(#[trigger] s[j]) implies
            dpb::output_before(s, 0, j) by {
            if j > 0 {
                assert(s[0].pic.pic_order_cnt < s[j].pic.pic_order_cnt);
            }
        }
        assert(dpb::is_next_output(s, 0));
        dpb::lemma_next_output_unique(s, 0);
        assert(d.bumps(pic));
        dpb::lemma_bump_counts_down(s);
        let left = d.bumped_once();
        assert(left.entries == s.remove(0));
        assert(!left.bumps(pic));
        assert(dpb::left_after_bumping(left, pic) == left);
    }
}

////// One picture

/// Whether `m` is where a stream of pace `p` leaves it once `k` pictures are decoded.
pub open spec fn is_steady(m: MemoryState, k: int, p: Pace) -> bool {
    &&& is_lineup(m.dpb.entries, k, p)
    &&& k > 0 ==> m.prev_ref.frame_num == (k - 1) % p.numbers
    &&& order_laws::depth_fits(m)
}

/// Whether `slice`, of the sequence `sps`, starts picture `k` of a stream of pace `p`: an
/// IDR picture first, then others, all of them references, numbered in turn.
pub open spec fn is_on_pace(slice: Slice, sps: Sps, k: int, p: Pace) -> bool {
    &&& sps.max_dpb_frames == p.frames
    &&& sps.spec_max_frame_num() == p.numbers
    &&& slice.idr_pic_flag == (k == 0)
    &&& slice.nal_ref_idc != 0
    &&& slice.header.frame_num == k % p.numbers
}

/// Whether `m` is ready to decode `pic`, picture `k` of a stream of pace `p`.
pub open spec fn is_set(m: MemoryState, pic: PictureData, k: int, p: Pace) -> bool {
    &&& is_steady(m, k, p)
    &&& m.dpb.max_num_pics == p.frames
    &&& pic.frame_num == k % p.numbers
    &&& pic.spec_is_ref()
    &&& pic.spec_idr() == (k == 0)
    &&& !pic.nonexisting
}

/// Getting ready for a picture numbers the references, and does nothing else to them.
pub proof fn lemma_prepared(
    m: MemoryState,
    slice: Slice,
    sps: Sps,
    timestamp: u64,
    k: int,
    p: Pace,
)
    requires
        is_pace(p),
        k >= 0,
        is_steady(m, k, p),
        m.dpb.max_num_pics == p.frames,
        is_on_pace(slice, sps, k, p),
        m.prepared(slice, sps, timestamp).1 is Ok,
    ensures
        is_set(
            m.prepared(slice, sps, timestamp).0,
            m.prepared(slice, sps, timestamp).1->Ok_0,
            k,
            p,
        ),
        k > 0 ==> m.prepared(slice, sps, timestamp).0.dpb == m.dpb.renumbered(
            (k % p.numbers) as u32,
            p.numbers as u32,
        ),
        m.prepared(slice, sps, timestamp).1->Ok_0.pic_num == PictureData::of_slice(
            slice,
            sps,
            timestamp,
        ).pic_num,
        m.prepared(slice, sps, timestamp).1->Ok_0.reference == PictureData::of_slice(
            slice,
            sps,
            timestamp,
        ).reference,
{
    let s = m.renumbering(slice.idr_pic_flag);
    let frame_num = slice.header.frame_num as int;
    lemma_number_before(k, 0, p.numbers);
    if k > 0 {
        lemma_number_before(k, 1, p.numbers);
        if k % p.numbers == 0 {
            lemma_fundamental_div_mod_converse_mod(p.numbers, p.numbers, 1, 0);
        } else {
            lemma_fundamental_div_mod_converse_mod(frame_num, p.numbers, 0, frame_num);
        }
        assert(frame_num == (s.prev_ref.frame_num + 1) % p.numbers);
        let t = m.dpb.renumbered((k % p.numbers) as u32, p.numbers as u32).entries;
        assert(order::waits_alike(m.dpb.entries, t));
        lemma_lineup_alike(m.dpb.entries, t, k, p);
    } else {
        lemma_fundamental_div_mod_converse_mod(0, p.numbers, 0, 0);
    }
    assert(!s.skips_to(frame_num, sps));
}

/// Whether marking `pic` with `marks`, `k` pictures into a stream of pace `p`, takes the
/// mark off the oldest picture of a full buffer, and does not restart the counts.
pub open spec fn frees_the_oldest(
    m: MemoryState,
    pic: PictureData,
    marks: RefPicMarking,
    max_num_ref_frames: u8,
    k: int,
    p: Pace,
) -> bool {
    let (t, marked, _) = m.marked(pic, marks, max_num_ref_frames);
    &&& !marked.has_mmco_5
    &&& k >= p.frames ==> !t.dpb.entries[0].pic.spec_is_ref()
}

proof fn lemma_operations_keep_the_picture(s: Marking, ops: Seq<RefPicMarkingInner>)
    ensures
        s.pic.spec_is_ref() ==> mmco::all_operated(s, ops).0.pic.spec_is_ref(),
        !mmco::all_operated(s, ops).0.pic.has_mmco_5 ==> mmco::all_operated(
            s,
            ops,
        ).0.pic.frame_num == s.pic.frame_num,
        s.pic.has_mmco_5 ==> mmco::all_operated(s, ops).0.pic.has_mmco_5,
    decreases ops.len(),
{
    if ops.len() > 0 && ops[0].memory_management_control_operation != 0 {
        match mmco::operated(s, ops[0]) {
            Ok(t) => {
                lemma_operations_keep_the_picture(t, ops.drop_first());
            },
            Err(_) => {},
        }
    }
}

/// What the buffer holds once a picture has been decoded: the marked entries, but for the
/// oldest of a full buffer, and the picture.
pub proof fn lemma_finished(
    m: MemoryState,
    pic: PictureData,
    handle: Handle,
    marks: RefPicMarking,
    max: u8,
    k: int,
    p: Pace,
)
    requires
        is_pace(p),
        k >= 0,
        is_set(m, pic, k, p),
        order::waits_before(m.dpb.entries, pic.pic_order_cnt as int),
        frees_the_oldest(m, pic, marks, max, k, p),
        m.finished(pic, handle, marks, max).1 is Ok,
    ensures
        is_steady(m.finished(pic, handle, marks, max).0, k + 1, p),
        ({
            let (t, marked, _) = m.marked(pic, marks, max);
            let e = DpbEntry {
                pic: PictureData { needed_for_output: true, ..marked },
                reference: Some(handle),
            };
            m.finished(pic, handle, marks, max).0.dpb.entries == (if k >= p.frames {
                t.dpb.entries.remove(0)
            } else {
                t.dpb.entries
            }).push(e)
        }),
{
    let (t, marked, r) = m.marked(pic, marks, max);
    let s = m.dpb.entries;
    let mk = Marking { dpb: m.dpb, pic, max_long_term_frame_idx: m.max_long_term_frame_idx };
    order_laws::lemma_marking(m, pic, marks, max);
    lemma_operations_keep_the_picture(mk, marks.inner@);
    order::marking_keeps_what_waits(mk, marks.inner@, 0, 0, max);
    lemma_lineup_alike(s, t.dpb.entries, k, p);
    lemma_made_room(t.dpb, k, p, marked);
    let left = dpb::left_after_bumping(t.dpb.pruned(), marked);
    let e = DpbEntry {
        pic: PictureData { needed_for_output: true, ..marked },
        reference: Some(handle),
    };
    let n = m.finished(pic, handle, marks, max).0;
    let u = left.entries.push(e);
    assert(n.dpb.entries == u);
    let gone: int = if k >= p.frames {
        1
    } else {
        0
    };
    assert forall|j: int| 0 <= j < u.len() - 1 implies #[trigger] u[j] == t.dpb.entries[j
        + gone] by {}
    assert forall|j: int| 0 <= j < u.len() implies dpb::waiting(#[trigger] u[j])
        && u[j].reference is Some by {
        if j < u.len() - 1 {
            assert(dpb::waiting(t.dpb.entries[j + gone]));
        }
    }
    assert forall|i: int, j: int| 0 <= i < j < u.len() implies (#[trigger] u[i]).pic.pic_order_cnt
        < (#[trigger] u[j]).pic.pic_order_cnt by {
        let a = t.dpb.entries[i + gone];
        assert(u[i] == a);
        if j < u.len() - 1 {
            assert(u[j] == t.dpb.entries[j + gone]);
        } else {
            assert(dpb::waiting(s[i + gone]));
            assert(order::ticket(s[i + gone]) == order::ticket(a));
        }
    }
}

////// Turn by turn

/// Whether what the decoder starts after the turn `t`, `k` pictures into the stream, keeps
/// to the pace `p`: the sequence is opened before the first picture and never again.
pub open spec fn keeps_pace(t: Turn, k: int, p: Pace) -> bool {
    match t.work {
        Work::Decoding { unit: _, wait } => match wait {
            Wait::Sequence { .. } => k == 0,
            Wait::Surface { slice, pps, .. } => is_on_pace(*slice, *pps.sps, k, p),
            Wait::Picture { slice, current } => is_on_pace(*slice, *current.pps.sps, k, p),
            _ => true,
        },
        _ => true,
    }
}

/// Whether the picture the hardware decodes after the turn `t`, if any, frees the oldest
/// of a full buffer.
pub open spec fn makes_room(t: Turn, k: int, p: Pace) -> bool {
    t.work matches Work::Decoding { unit: _, wait: Wait::Submit { current, .. } }
        ==> frees_the_oldest(
        t.memory,
        current.pic,
        current.first.header.dec_ref_pic_marking,
        current.pps.sps.max_num_ref_frames,
        k,
        p,
    )
}

/// What holds after each turn of a stream of pace `p`, `k` pictures into it.
pub open spec fn is_paced(t: Turn, k: int, p: Pace) -> bool {
    match t.work {
        Work::Decoding { unit: _, wait } => match wait {
            Wait::Sequence { pps, .. } => {
                &&& is_steady(t.memory, k, p)
                &&& t.memory.dpb.max_num_pics == pps.sps.max_dpb_frames
            },
            Wait::Surface { pic, .. } => is_set(t.memory, pic, k, p),
            Wait::Picture { slice: _, current } => is_set(t.memory, current.pic, k, p),
            Wait::Slice { current } => is_set(t.memory, current.pic, k, p),
            Wait::Submit { current, .. } => is_set(t.memory, current.pic, k, p),
        },
        _ => is_steady(t.memory, k, p) && t.memory.ready.len() == 0,
    }
}

proof fn lemma_prepares(
    m: MemoryState,
    unit: Unit,
    slice: Rc<Slice>,
    pps: Rc<Pps>,
    t: Turn,
    k: int,
    p: Pace,
)
    requires
        is_pace(p),
        k >= 0,
        is_steady(m, k, p),
        m.dpb.max_num_pics == pps.sps.max_dpb_frames,
        machine::prepares(m, unit, slice, pps, t),
        t.result is Ok,
        keeps_pace(t, k, p),
    ensures
        is_paced(t, k, p),
{
    assert(is_on_pace(laws::slice_of(slice), laws::sps_of(pps), k, p));
    lemma_prepared(m, laws::slice_of(slice), laws::sps_of(pps), unit.timestamp, k, p);
}

proof fn lemma_begins(
    m: MemoryState,
    unit: Unit,
    slice: Rc<Slice>,
    t: Turn,
    k: int,
    p: Pace,
)
    requires
        is_pace(p),
        k >= 0,
        is_steady(m, k, p),
        machine::begins(m, unit, slice, t),
        t.result is Ok,
        keeps_pace(t, k, p),
    ensures
        is_paced(t, k, p),
{
    let pps = m.pps[slice.header.pic_parameter_set_id];
    let sps = laws::sps_of(pps);
    let limited = m.limited(sps);
    if machine::serves(limited, sps) {
        lemma_prepares(limited.cropped(sps), unit, slice, pps, t, k, p);
    }
}

proof fn lemma_advances(
    m: MemoryState,
    unit: Unit,
    current: Option<CurrentPicture>,
    t: Turn,
    k: int,
    p: Pace,
)
    requires
        is_pace(p),
        k >= 0,
        match current {
            Some(c) => is_set(m, c.pic, k, p),
            None => is_steady(m, k, p),
        },
        machine::advances(m, unit, current, t),
        t.result is Ok,
        keeps_pace(t, k, p),
    ensures
        is_paced(t, k, p),
{
    let (i, pps, e) = machine::stop(unit.nals@, unit.next as int, m.pps);
    let n = MemoryState { pps, ..m };
    if i < unit.nals@.len() {
        let slice = unit.nals@[i]->Slice_0.unwrap();
        let past = Unit { next: (i + 1) as usize, ..unit };
        if current is None {
            lemma_begins(n, past, slice, t, k, p);
        }
    }
}

proof fn lemma_decoding(
    before: Turn,
    unit: Unit,
    wait: Wait,
    reply: Reply,
    after: Turn,
    k: int,
    p: Pace,
)
    requires
        is_pace(p),
        k >= 0,
        before.work == (Work::Decoding { unit, wait }),
        is_paced(before, k, p),
        keeps_pace(before, k, p),
        makes_room(before, k, p),
        order_laws::is_coded_in_order(before),
        machine::answers(before.work, reply),
        machine::resumed(before.memory, before.work, reply, after),
        after.result is Ok,
        keeps_pace(
            after,
            k + order_laws::decoded_next(before.work, Event::Answer(reply)).len(),
            p,
        ),
    ensures
        is_paced(
            after,
            k + order_laws::decoded_next(before.work, Event::Answer(reply)).len(),
            p,
        ),
{
    let m = before.memory;
    match (wait, reply) {
        (Wait::Sequence { slice, pps, sequence }, Reply::Done) => {
            let n = MemoryState { sequence: Some(sequence@), ..m };
            lemma_prepares(n, unit, slice, pps, after, k, p);
        },
        (Wait::Slice { current }, Reply::Done) => {
            lemma_advances(m, unit, Some(current), after, k, p);
        },
        (Wait::Submit { current, following }, Reply::Done) => {
            let marks = current.first.header.dec_ref_pic_marking;
            let max = current.pps.sps.max_num_ref_frames;
            lemma_finished(m, current.pic, current.handle, marks, max, k, p);
            let n = m.finished(current.pic, current.handle, marks, max).0;
            match following {
                Some(slice) => {
                    lemma_begins(n, unit, slice, after, k + 1, p);
                },
                None => {},
            }
        },
        _ => {},
    }
}

/// A turn keeps the pace.
pub proof fn lemma_turn(before: Turn, e: Event, after: Turn, k: int, p: Pace)
    requires
        is_pace(p),
        k >= 0,
        machine::machine_wf(before.memory, before.work),
        is_paced(before, k, p),
        keeps_pace(before, k, p),
        makes_room(before, k, p),
        order_laws::is_coded_in_order(before),
        laws::leads(before, e, after),
        !(e is Flush),
        after.result is Ok,
        keeps_pace(after, k + order_laws::decoded_next(before.work, e).len(), p),
    ensures
        is_paced(after, k + order_laws::decoded_next(before.work, e).len(), p),
{
    reveal(laws::leads);
    match e {
        Event::Feed(unit) => {
            lemma_advances(before.memory, unit, None, after, k, p);
        },
        Event::Flush(_) => {},
        Event::Answer(reply) => match before.work {
            Work::Idle => {},
            Work::Decoding { unit, wait } => {
                lemma_decoding(before, unit, wait, reply, after, k, p);
            },
            Work::Delivering(d) => {
                assert(after.memory.dpb == before.memory.dpb);
            },
        },
    }
}

////// Over the life of a decoder

/// Whether the life `turns` is that of a stream of pace `p`, coded in output order and not
/// flushed, whose pictures free the oldest of a full buffer.
pub open spec fn is_paced_life(turns: Seq<Turn>, events: Seq<Event>, p: Pace) -> bool {
    &&& laws::is_life(turns, events)
    &&& laws::is_kept(turns, events)
    &&& is_pace(p)
    &&& forall|i: int| 0 <= i < events.len() ==> !((#[trigger] events[i]) is Flush)
    &&& forall|i: int| 0 <= i < turns.len() ==> order_laws::is_coded_in_order(#[trigger] turns[i])
    &&& forall|i: int|
        0 <= i < turns.len() ==> keeps_pace(
            #[trigger] turns[i],
            order_laws::decoded_in_order(turns, events, i).len() as int,
            p,
        )
    &&& forall|i: int|
        0 <= i < turns.len() ==> makes_room(
            #[trigger] turns[i],
            order_laws::decoded_in_order(turns, events, i).len() as int,
            p,
        )
}

proof fn lemma_paced(turns: Seq<Turn>, events: Seq<Event>, n: int, p: Pace)
    requires
        is_paced_life(turns, events, p),
        0 <= n < turns.len(),
    ensures
        is_paced(turns[n], order_laws::decoded_in_order(turns, events, n).len() as int, p),
    decreases n,
{
    if n > 0 {
        lemma_paced(turns, events, n - 1, p);
        let before = turns[n - 1];
        let e = events[n - 1];
        let k = order_laws::decoded_in_order(turns, events, n - 1).len() as int;
        assert(laws::leads(before, e, turns[n - 1 + 1]));
        assert(machine::machine_wf(before.memory, before.work));
        assert(turns[n].result is Ok);
        lemma_turn(before, e, turns[n], k, p);
    }
}

/// A stream of reference frames coded in output order trails by as many pictures as its
/// buffer holds, as long as each of its pictures takes the mark off the oldest of a full
/// buffer: three behind where the buffer has room for three references, and so on.
/// Whenever a call is through, everything decoded but the last that many pictures has
/// been handed over, in order, and nothing else has.
pub proof fn output_trails_by_the_buffer(turns: Seq<Turn>, events: Seq<Event>, n: int, p: Pace)
    requires
        is_paced_life(turns, events, p),
        0 <= n < turns.len(),
        turns[n].work is Idle,
    ensures
        ({
            let coded = order_laws::decoded_in_order(turns, events, n);
            order_laws::handed_in_order(turns, n) == coded.take(
                coded.len() - smaller(coded.len() as int, p.frames),
            )
        }),
{
    let coded = order_laws::decoded_in_order(turns, events, n);
    let handed = order_laws::handed_in_order(turns, n);
    lemma_paced(turns, events, n, p);
    order_laws::pictures_come_in_coding_order(turns, events, n);
    let m = turns[n].memory;
    assert forall|j: int| 0 <= j < m.dpb.entries.len() implies dpb::waiting(
        #[trigger] m.dpb.entries[j],
    ) && m.dpb.entries[j].reference is Some by {}
    order::full_buffers_output_every_entry(m.dpb.entries);
    assert(order_laws::in_line(turns[n]).len() == smaller(coded.len() as int, p.frames));
    assert((handed + order_laws::in_line(turns[n])).take(handed.len() as int) =~= handed);
}

/// As [`output_trails_by_the_buffer`], where every unit holds one picture: the calls so
/// far have handed over the timestamps of all units fed, in order, but for the last.
pub proof fn timestamps_trail_by_the_buffer(turns: Seq<Turn>, events: Seq<Event>, n: int, p: Pace)
    requires
        is_paced_life(turns, events, p),
        order_laws::is_picture_a_unit(turns, events),
        0 <= n < turns.len(),
        turns[n].work is Idle,
    ensures
        ({
            let fed = order_laws::fed_by(events, n);
            order_laws::timestamps_by(turns, n) == fed.take(
                fed.len() - smaller(fed.len() as int, p.frames),
            )
        }),
{
    let fed = order_laws::fed_by(events, n);
    let coded = order_laws::decoded_in_order(turns, events, n);
    output_trails_by_the_buffer(turns, events, n, p);
    order_laws::pictures_are_coded_as_fed(turns, events, n);
    order_laws::lemma_timestamps_handed(turns, events, n);
    let through = coded.len() - smaller(coded.len() as int, p.frames);
    assert(order_laws::timestamps(coded).len() == coded.len());
    assert(order_laws::timestamps(coded.take(through)) =~= order_laws::timestamps(coded).take(
        through,
    ));
}

////// Any stream

proof fn lemma_idle_fits(turns: Seq<Turn>, events: Seq<Event>, n: int)
    requires
        laws::is_life(turns, events),
        0 <= n < turns.len(),
    ensures
        laws::buffer_stays_fit(turns[n].memory, turns[n].work),
        turns[n].work is Idle ==> turns[n].memory.ready.len() == 0,
    decreases n,
{
    if n > 0 {
        lemma_idle_fits(turns, events, n - 1);
        let before = turns[n - 1];
        let e = events[n - 1];
        reveal(laws::leads);
        assert(laws::leads(before, e, turns[n - 1 + 1]));
        assert(machine::machine_wf(before.memory, before.work));
        assert(turns[n].result is Ok);
        laws::the_buffer_never_overflows(before, e, turns[n]);
        match e {
            Event::Answer(reply) => {
                if turns[n].work is Idle {
                    let m = before.memory;
                    laws::answered_calls_empty_the_queue(m, before.work, reply, turns[n]);
                }
            },
            _ => {},
        }
    }
}

/// No stream trails by more: whenever a call is through, no more pictures are held back
/// than the buffer has frames.
pub proof fn no_stream_trails_by_more(turns: Seq<Turn>, events: Seq<Event>, n: int)
    requires
        laws::is_life(turns, events),
        0 <= n < turns.len(),
        turns[n].work is Idle,
    ensures
        laws::in_hand(turns[n]).len() <= turns[n].memory.dpb.max_num_pics,
{
    broadcast use vstd::seq_lib::group_to_multiset_ensures;

    lemma_idle_fits(turns, events, n);
    let m = turns[n].memory;
    dpb_laws::each_entry_owes_at_most_one(m.dpb.entries);
    assert(m.ready.to_multiset().len() == m.ready.len());
}

////// The last picture

/// Whether the picture decoded last by the first `n` events is a reference, and nothing
/// has been flushed since.
pub open spec fn ends_in_a_reference(turns: Seq<Turn>, events: Seq<Event>, n: int) -> bool
    decreases n,
{
    if n <= 0 {
        false
    } else {
        match (turns[n - 1].work, events[n - 1]) {
            (
                Work::Decoding { unit: _, wait: Wait::Submit { current, .. } },
                Event::Answer(Reply::Done),
            ) => current.pic.spec_is_ref(),
            (_, Event::Flush(_)) => false,
            _ => ends_in_a_reference(turns, events, n - 1),
        }
    }
}

/// Whether a picture of `s` is still to be output.
spec fn holds_one(s: Seq<DpbEntry>) -> bool {
    exists|j: int|
        0 <= j < s.len() && dpb::waiting(#[trigger] s[j]) && s[j].reference is Some
}

proof fn lemma_one_is_owed(s: Seq<DpbEntry>)
    requires
        holds_one(s),
    ensures
        dpb_laws::pending(s).len() >= 1,
    decreases s.len(),
{
    let j = choose|j: int|
        0 <= j < s.len() && dpb::waiting(#[trigger] s[j]) && s[j].reference is Some;
    let rest = s.drop_last();
    if j < rest.len() {
        assert(dpb::waiting(rest[j]));
        lemma_one_is_owed(rest);
    }
}

/// A reference just decoded is in the buffer.
proof fn lemma_reference_is_held(
    m: MemoryState,
    pic: PictureData,
    handle: Handle,
    marks: RefPicMarking,
    max: u8,
)
    requires
        !pic.nonexisting,
        pic.spec_is_ref(),
        m.finished(pic, handle, marks, max).1 is Ok,
    ensures
        holds_one(m.finished(pic, handle, marks, max).0.dpb.entries),
{
    let mk = Marking { dpb: m.dpb, pic, max_long_term_frame_idx: m.max_long_term_frame_idx };
    lemma_operations_keep_the_picture(mk, marks.inner@);
    order_laws::lemma_marking(m, pic, marks, max);
    let s = m.finished(pic, handle, marks, max).0.dpb.entries;
    assert(dpb::waiting(s[s.len() - 1]));
}

/// What a turn makes of a held picture, between calls.
proof fn lemma_held_turn(before: Turn, e: Event, after: Turn)
    requires
        machine::machine_wf(before.memory, before.work),
        laws::leads(before, e, after),
        after.result is Ok,
        !(after.work is Decoding),
    ensures
        match (before.work, e) {
            (
                Work::Decoding { unit: _, wait: Wait::Submit { current, .. } },
                Event::Answer(Reply::Done),
            ) => current.pic.spec_is_ref() ==> holds_one(after.memory.dpb.entries),
            (_, Event::Flush(_)) => true,
            _ => !(before.work is Decoding) && after.memory.dpb == before.memory.dpb,
        },
{
    reveal(laws::leads);
    match (before.work, e) {
        (
            Work::Decoding { unit: _, wait: Wait::Submit { current, .. } },
            Event::Answer(Reply::Done),
        ) => {
            let marks = current.first.header.dec_ref_pic_marking;
            let max = current.pps.sps.max_num_ref_frames;
            if current.pic.spec_is_ref() {
                lemma_reference_is_held(
                    before.memory,
                    current.pic,
                    current.handle,
                    marks,
                    max,
                );
            }
        },
        _ => {},
    }
}

proof fn lemma_held(turns: Seq<Turn>, events: Seq<Event>, n: int)
    requires
        laws::is_life(turns, events),
        0 <= n < turns.len(),
        ends_in_a_reference(turns, events, n),
        !(turns[n].work is Decoding),
    ensures
        holds_one(turns[n].memory.dpb.entries),
    decreases n,
{
    let before = turns[n - 1];
    let e = events[n - 1];
    assert(laws::leads(before, e, turns[n - 1 + 1]));
    assert(machine::machine_wf(before.memory, before.work));
    assert(turns[n].result is Ok);
    lemma_held_turn(before, e, turns[n]);
    match (before.work, e) {
        (
            Work::Decoding { unit: _, wait: Wait::Submit { .. } },
            Event::Answer(Reply::Done),
        ) => {},
        (_, Event::Flush(_)) => {},
        _ => {
            lemma_held(turns, events, n - 1);
        },
    }
}

/// The sequences of what was decoded and handed over hold what the bags of it hold.
proof fn lemma_bags(turns: Seq<Turn>, events: Seq<Event>, n: int)
    requires
        0 <= n,
    ensures
        order_laws::decoded_in_order(turns, events, n).to_multiset() == laws::decoded_by(
            turns,
            events,
            n,
        ),
        order_laws::handed_in_order(turns, n).to_multiset() == laws::handed_over_by(turns, n),
    decreases n,
{
    broadcast use vstd::seq_lib::group_to_multiset_ensures;

    let none = Seq::<Handle>::empty();
    assert(none.to_multiset() =~= Multiset::empty());
    if n > 0 {
        lemma_bags(turns, events, n - 1);
        let decoded = order_laws::decoded_next(turns[n - 1].work, events[n - 1]);
        let handed = order_laws::handed_next(turns[n - 1].work, turns[n]);
        vstd::seq_lib::lemma_multiset_commutative(
            order_laws::decoded_in_order(turns, events, n - 1),
            decoded,
        );
        vstd::seq_lib::lemma_multiset_commutative(
            order_laws::handed_in_order(turns, n - 1),
            handed,
        );
        if decoded.len() > 0 {
            assert(decoded =~= none.push(decoded[0]));
            assert(decoded.to_multiset() =~= Multiset::singleton(decoded[0]));
        }
    }
}

/// A stream that simply stops leaves its tail in the buffer: whenever a call is through
/// whose last picture is a reference, fewer pictures have been handed over than decoded,
/// however the stream marks its references and whatever order it is coded in.
pub proof fn the_tail_is_held_back(turns: Seq<Turn>, events: Seq<Event>, n: int)
    requires
        laws::is_life(turns, events),
        laws::is_kept(turns, events),
        0 <= n < turns.len(),
        turns[n].work is Idle,
        ends_in_a_reference(turns, events, n),
    ensures
        order_laws::timestamps_by(turns, n).len() < order_laws::decoded_in_order(
            turns,
            events,
            n,
        ).len(),
        order_laws::is_picture_a_unit(turns, events) ==> order_laws::timestamps_by(turns, n).len()
            < order_laws::fed_by(events, n).len(),
{
    broadcast use vstd::seq_lib::group_to_multiset_ensures;

    lemma_held(turns, events, n);
    lemma_one_is_owed(turns[n].memory.dpb.entries);
    laws::every_picture_is_accounted_for(turns, events, n);
    lemma_bags(turns, events, n);
    order_laws::lemma_timestamps_handed(turns, events, n);
    let handed = order_laws::handed_in_order(turns, n);
    assert(order_laws::timestamps_by(turns, n).len() == handed.len());
    assert(laws::in_hand(turns[n]).len() >= 1);
    assert(laws::decoded_by(turns, events, n).len() == laws::in_hand(turns[n]).len()
        + laws::handed_over_by(turns, n).len());
}

} // verus!
