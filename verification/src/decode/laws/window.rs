//! Streams whose references come and go in turn: by the sliding window, or by operations
//! that unmark the oldest.

use std::rc::Rc;

use vstd::prelude::*;

use crate::decode::laws;
use crate::decode::laws::delay;
use crate::decode::laws::delay::Pace;
use crate::decode::laws::order as order_laws;
use crate::decode::laws::Event;
use crate::decode::machine;
use crate::decode::machine::{CurrentPicture, Reply, Turn, Unit, Wait, Work};
use crate::decode::state::MemoryState;
use crate::h264::dpb;
use crate::h264::dpb::mmco;
use crate::h264::dpb::mmco::Marking;
use crate::h264::dpb::order;
use crate::h264::dpb::{DpbEntry, DpbState};
use crate::h264::picture::{PictureData, Reference};
use crate::h264::syntax::{Pps, RefPicMarking, RefPicMarkingInner, Slice};
use crate::surface::Handle;

verus! {

////// References in turn

/// Whether the buffer holds a window of `r` references, and the frame numbers tell them
/// apart.
pub open spec fn is_window(p: Pace, r: int) -> bool {
    delay::is_pace(p) && 1 <= r <= p.frames && r < p.numbers
}

/// Whether the last `q` entries of `s` are its references, all of them short-term.
pub open spec fn is_tail(s: Seq<DpbEntry>, q: int) -> bool {
    &&& 0 <= q <= s.len()
    &&& forall|j: int|
        0 <= j < s.len() ==> (#[trigger] s[j]).pic.reference == if j >= s.len() - q {
            Reference::ShortTerm
        } else {
            Reference::Unused
        }
}

/// Whether the entries of `s` are numbered in turn up to picture `k`.
pub open spec fn is_in_turn(s: Seq<DpbEntry>, k: int, p: Pace) -> bool {
    forall|j: int|
        0 <= j < s.len() ==> (#[trigger] s[j]).pic.frame_num == (k - s.len() + j) % p.numbers
}

/// Whether the references among `s` are numbered as picture `k` sees them.
pub open spec fn is_numbered(s: Seq<DpbEntry>, k: int, p: Pace) -> bool {
    forall|j: int|
        0 <= j < s.len() && dpb::short_term(#[trigger] s[j]) ==> s[j].pic.frame_num_wrap == k
            % p.numbers - (s.len() - j) && s[j].pic.pic_num == k % p.numbers - (s.len() - j)
}

/// Whether the last entries of `s`, no more than `r`, are its references, and all entries
/// are numbered in turn up to picture `k`.
pub open spec fn is_windowed(s: Seq<DpbEntry>, k: int, p: Pace, r: int) -> bool {
    &&& dpb::reference_count(s) <= r
    &&& is_tail(s, dpb::reference_count(s) as int)
    &&& is_in_turn(s, k, p)
}

/// Whether `ops` unmark the oldest of `q` references, the oldest of those left, and so on,
/// until fewer than `r` are left.
pub open spec fn unmarks_the_oldest(ops: Seq<RefPicMarkingInner>, q: int, r: int) -> bool
    decreases ops.len(),
{
    if ops.len() == 0 || ops[0].memory_management_control_operation == 0 {
        q < r
    } else {
        &&& ops[0].memory_management_control_operation == 1
        &&& q > 0
        &&& ops[0].difference_of_pic_nums_minus1 + 1 == q
        &&& unmarks_the_oldest(ops.drop_first(), q - 1, r)
    }
}

/// Whether `marks` has picture `k` take its turn, where there are `q` references and the
/// window holds `r`: the first picture is a short-term reference, and the others slide the
/// window or unmark the oldest.
pub open spec fn takes_its_turn(marks: RefPicMarking, q: int, k: int, r: int) -> bool {
    if k == 0 {
        !marks.long_term_reference_flag
    } else {
        marks.adaptive_ref_pic_marking_mode_flag ==> unmarks_the_oldest(marks.inner@, q, r)
    }
}

/// Where the last `q` entries of `s` are its references, there are `q`.
proof fn lemma_count(s: Seq<DpbEntry>, q: int)
    requires
        is_tail(s, q),
    ensures
        dpb::reference_count(s) == q,
    decreases s.len(),
{
    if s.len() > 0 {
        let rest = s.drop_last();
        assert(s.last() == s[s.len() - 1]);
        let left = if q > 0 {
            q - 1
        } else {
            0
        };
        assert forall|j: int| 0 <= j < rest.len() implies (#[trigger] rest[j]).pic.reference
            == if j >= rest.len() - left {
            Reference::ShortTerm
        } else {
            Reference::Unused
        } by {
            assert(rest[j] == s[j]);
        }
        lemma_count(rest, left);
    }
}

/// `s` once its oldest reference, of `q`, is unmarked.
spec fn unmarked(s: Seq<DpbEntry>, q: int) -> Seq<DpbEntry> {
    s.update(s.len() - q, dpb::marked(s[s.len() - q], Reference::Unused))
}

proof fn lemma_unmarked(s: Seq<DpbEntry>, q: int, k: int, p: Pace)
    requires
        q > 0,
        is_tail(s, q),
        is_in_turn(s, k, p),
        is_numbered(s, k, p),
    ensures
        is_tail(unmarked(s, q), q - 1),
        is_in_turn(unmarked(s, q), k, p),
        is_numbered(unmarked(s, q), k, p),
{
    let t = unmarked(s, q);
    assert forall|j: int| 0 <= j < t.len() implies (#[trigger] t[j]).pic.reference == if j
        >= t.len() - (q - 1) {
        Reference::ShortTerm
    } else {
        Reference::Unused
    } by {
        assert(s[j].pic.reference is ShortTerm || s[j].pic.reference is Unused);
    }
    assert forall|j: int| 0 <= j < t.len() implies (#[trigger] t[j]).pic.frame_num == (k - t.len()
        + j) % p.numbers by {
        assert(s[j].pic.frame_num == (k - s.len() + j) % p.numbers);
    }
    assert forall|j: int| 0 <= j < t.len() && dpb::short_term(
        #[trigger] t[j],
    ) implies t[j].pic.frame_num_wrap == k % p.numbers - (t.len() - j) && t[j].pic.pic_num == k
        % p.numbers - (t.len() - j) by {
        assert(dpb::short_term(s[j]));
    }
}

/// The sliding window lets go of the oldest reference if it is full.
proof fn lemma_slid(s: Seq<DpbEntry>, q: int, k: int, p: Pace, r: int)
    requires
        is_window(p, r),
        q <= r,
        is_tail(s, q),
        is_in_turn(s, k, p),
        is_numbered(s, k, p),
    ensures
        dpb::slid(s, r as nat) == if q == r {
            unmarked(s, q)
        } else {
            s
        },
{
    lemma_count(s, q);
    if q == r {
        let i = s.len() - q;
        assert(dpb::short_term(s[i]));
        assert forall|j: int| 0 <= j < s.len() && dpb::short_term(#[trigger] s[j]) implies
            s[i].pic.frame_num_wrap < s[j].pic.frame_num_wrap || (s[i].pic.frame_num_wrap
            == s[j].pic.frame_num_wrap && i <= j) by {
            assert(j >= s.len() - q);
        }
        assert(dpb::is_oldest(s, i));
        dpb::lemma_oldest_unique(s, i);
        let t = unmarked(s, q);
        lemma_unmarked(s, q, k, p);
        lemma_count(t, q - 1);
        dpb::lemma_reference_count_update(s, i, dpb::marked(s[i], Reference::Unused));
        assert(dpb::slid(t, r as nat) == t);
    }
}

/// Operations that unmark the oldest reference leave the last ones.
proof fn lemma_operated(
    s: Marking,
    ops: Seq<RefPicMarkingInner>,
    q: int,
    k: int,
    p: Pace,
    r: int,
)
    requires
        is_window(p, r),
        unmarks_the_oldest(ops, q, r),
        is_tail(s.dpb.entries, q),
        is_in_turn(s.dpb.entries, k, p),
        is_numbered(s.dpb.entries, k, p),
        s.pic.pic_num == k % p.numbers,
    ensures
        mmco::all_operated(s, ops).1 is Ok,
        mmco::all_operated(s, ops).0.pic == s.pic,
        is_in_turn(mmco::all_operated(s, ops).0.dpb.entries, k, p),
        exists|left: int|
            left < r && #[trigger] is_tail(mmco::all_operated(s, ops).0.dpb.entries, left),
    decreases ops.len(),
{
    if ops.len() == 0 || ops[0].memory_management_control_operation == 0 {
        assert(is_tail(mmco::all_operated(s, ops).0.dpb.entries, q));
    } else {
        let e = s.dpb.entries;
        let i = e.len() - q;
        let number = dpb::pic_num_x(s.pic, ops[0]);
        assert(dpb::short_term(e[i]));
        assert forall|j: int| 0 <= j < i implies !(dpb::short_term(#[trigger] e[j])
            && e[j].pic.pic_num == number) by {}
        assert(dpb::is_short_term_numbered(e, number, i));
        let c = choose|c: int| dpb::is_short_term_numbered(e, number, c);
        assert(dpb::is_short_term_numbered(e, number, c));
        assert(dpb::short_term(e[c]));
        assert(c == i);
        let t = Marking { dpb: s.dpb.remarked(i, Reference::Unused), ..s };
        assert(mmco::operated(s, ops[0]) == Ok::<Marking, dpb::MmcoError>(t));
        assert(t.dpb.entries == unmarked(e, q));
        lemma_unmarked(e, q, k, p);
        lemma_operated(t, ops.drop_first(), q - 1, k, p, r);
    }
}

proof fn lemma_renumbered(d: DpbState, k: int, p: Pace, r: int)
    requires
        is_window(p, r),
        k >= d.entries.len(),
        is_windowed(d.entries, k, p, r),
    ensures
        is_windowed(
            d.renumbered((k % p.numbers) as u32, p.numbers as u32).entries,
            k,
            p,
            r,
        ),
        is_numbered(d.renumbered((k % p.numbers) as u32, p.numbers as u32).entries, k, p),
{
    let s = d.entries;
    let q = dpb::reference_count(s) as int;
    let t = d.renumbered((k % p.numbers) as u32, p.numbers as u32).entries;
    delay::lemma_number_before(k, 0, p.numbers);
    assert forall|j: int| 0 <= j < t.len() && dpb::short_term(
        #[trigger] t[j],
    ) implies t[j].pic.frame_num_wrap == k % p.numbers - (t.len() - j) && t[j].pic.pic_num == k
        % p.numbers - (t.len() - j) by {
        assert(s[j].pic.reference is ShortTerm);
        assert(s[j].pic.frame_num == (k - s.len() + j) % p.numbers);
        delay::lemma_number_before(k, s.len() - j, p.numbers);
    }
    assert forall|j: int| 0 <= j < t.len() implies (#[trigger] t[j]).pic.reference == if j
        >= t.len() - q {
        Reference::ShortTerm
    } else {
        Reference::Unused
    } by {
        assert(s[j].pic.reference is ShortTerm || s[j].pic.reference is Unused);
    }
    assert forall|j: int| 0 <= j < t.len() implies (#[trigger] t[j]).pic.frame_num == (k - t.len()
        + j) % p.numbers by {
        assert(s[j].pic.frame_num == (k - s.len() + j) % p.numbers);
    }
    assert(is_tail(t, q));
    lemma_count(t, q);
}

////// One picture

/// Whether `m` is ready to decode `pic`, picture `k`, with its references in turn.
pub open spec fn is_in_line(m: MemoryState, pic: PictureData, k: int, p: Pace, r: int) -> bool {
    &&& is_windowed(m.dpb.entries, k, p, r)
    &&& is_numbered(m.dpb.entries, k, p)
    &&& pic.pic_num == k % p.numbers
    &&& pic.reference == Reference::ShortTerm
    &&& !pic.has_mmco_5
}

/// What marking leaves of references in turn: fewer than the window holds.
proof fn lemma_marked(
    m: MemoryState,
    pic: PictureData,
    marks: RefPicMarking,
    k: int,
    p: Pace,
    r: int,
) -> (left: int)
    requires
        is_window(p, r),
        r <= 255,
        k >= 0,
        delay::is_set(m, pic, k, p),
        is_in_line(m, pic, k, p, r),
        takes_its_turn(marks, dpb::reference_count(m.dpb.entries) as int, k, r),
    ensures
        left < r,
        is_tail(m.marked(pic, marks, r as u8).0.dpb.entries, left),
        is_in_turn(m.marked(pic, marks, r as u8).0.dpb.entries, k, p),
        m.marked(pic, marks, r as u8).1 == pic,
        m.marked(pic, marks, r as u8).2 is Ok,
        m.marked(pic, marks, r as u8).0.dpb.entries.len() == m.dpb.entries.len(),
{
    let s = m.dpb.entries;
    let q = dpb::reference_count(s) as int;
    let mk = Marking { dpb: m.dpb, pic, max_long_term_frame_idx: m.max_long_term_frame_idx };
    order::marking_keeps_what_waits(mk, marks.inner@, 0, 0, r as u8);
    if k == 0 {
        assert(s.len() == 0);
        assert(m.dpb.all_unused().entries =~= s);
        0
    } else if marks.adaptive_ref_pic_marking_mode_flag {
        lemma_operated(mk, marks.inner@, q, k, p, r);
        let t = mmco::all_operated(mk, marks.inner@).0.dpb.entries;
        choose|left: int| left < r && #[trigger] is_tail(t, left)
    } else {
        lemma_slid(s, q, k, p, r);
        if q == r {
            lemma_unmarked(s, q, k, p);
            q - 1
        } else {
            q
        }
    }
}

/// Pictures that take their turn free the oldest of a full buffer.
pub proof fn turns_free_the_oldest(
    m: MemoryState,
    pic: PictureData,
    marks: RefPicMarking,
    k: int,
    p: Pace,
    r: int,
)
    requires
        is_window(p, r),
        r <= 255,
        k >= 0,
        delay::is_set(m, pic, k, p),
        is_in_line(m, pic, k, p, r),
        takes_its_turn(marks, dpb::reference_count(m.dpb.entries) as int, k, r),
    ensures
        delay::frees_the_oldest(m, pic, marks, r as u8, k, p),
{
    let left = lemma_marked(m, pic, marks, k, p, r);
    if k >= p.frames {
        let t = m.marked(pic, marks, r as u8).0.dpb.entries;
        assert(t[0].pic.reference is Unused);
    }
}

proof fn lemma_finished(
    m: MemoryState,
    pic: PictureData,
    handle: Handle,
    marks: RefPicMarking,
    k: int,
    p: Pace,
    r: int,
)
    requires
        is_window(p, r),
        r <= 255,
        k >= 0,
        delay::is_set(m, pic, k, p),
        is_in_line(m, pic, k, p, r),
        takes_its_turn(marks, dpb::reference_count(m.dpb.entries) as int, k, r),
        order::waits_before(m.dpb.entries, pic.pic_order_cnt as int),
        m.finished(pic, handle, marks, r as u8).1 is Ok,
    ensures
        is_windowed(m.finished(pic, handle, marks, r as u8).0.dpb.entries, k + 1, p, r),
{
    let left = lemma_marked(m, pic, marks, k, p, r);
    turns_free_the_oldest(m, pic, marks, k, p, r);
    delay::lemma_finished(m, pic, handle, marks, r as u8, k, p);
    let t = m.marked(pic, marks, r as u8).0.dpb.entries;
    let u = m.finished(pic, handle, marks, r as u8).0.dpb.entries;
    let gone: int = if k >= p.frames {
        1
    } else {
        0
    };
    assert forall|j: int| 0 <= j < u.len() - 1 implies #[trigger] u[j] == t[j + gone] by {}
    assert forall|j: int| 0 <= j < u.len() implies (#[trigger] u[j]).pic.reference == if j
        >= u.len() - (left + 1) {
        Reference::ShortTerm
    } else {
        Reference::Unused
    } by {
        if j < u.len() - 1 {
            assert(t[j + gone].pic.reference is ShortTerm || t[j + gone].pic.reference is Unused);
        }
    }
    assert forall|j: int| 0 <= j < u.len() implies (#[trigger] u[j]).pic.frame_num == (k + 1
        - u.len() + j) % p.numbers by {
        if j < u.len() - 1 {
            assert(t[j + gone].pic.frame_num == (k - t.len() + j + gone) % p.numbers);
        }
    }
    assert(is_tail(u, left + 1));
    lemma_count(u, left + 1);
}

////// Turn by turn

/// Whether the pictures after the turn `t`, `k` pictures into the stream, are frames that
/// take their turn in a window of `r`.
pub open spec fn keeps_turn(t: Turn, k: int, r: int) -> bool {
    match t.work {
        Work::Decoding { unit: _, wait } => match wait {
            Wait::Surface { slice, .. } => !slice.header.field_pic_flag,
            Wait::Picture { slice, .. } => !slice.header.field_pic_flag,
            Wait::Submit { current, .. } => {
                &&& current.pps.sps.max_num_ref_frames == r
                &&& takes_its_turn(
                    current.first.header.dec_ref_pic_marking,
                    dpb::reference_count(t.memory.dpb.entries) as int,
                    k,
                    r,
                )
            },
            _ => true,
        },
        _ => true,
    }
}

/// What holds after each turn, `k` pictures into a stream whose pictures take their turn.
spec fn is_turned(t: Turn, k: int, p: Pace, r: int) -> bool {
    match t.work {
        Work::Decoding { unit: _, wait } => match wait {
            Wait::Sequence { .. } => is_windowed(t.memory.dpb.entries, k, p, r),
            Wait::Surface { pic, .. } => is_in_line(t.memory, pic, k, p, r),
            Wait::Picture { slice: _, current } => is_in_line(t.memory, current.pic, k, p, r),
            Wait::Slice { current } => is_in_line(t.memory, current.pic, k, p, r),
            Wait::Submit { current, .. } => is_in_line(t.memory, current.pic, k, p, r),
        },
        _ => is_windowed(t.memory.dpb.entries, k, p, r),
    }
}

proof fn lemma_prepares(
    m: MemoryState,
    unit: Unit,
    slice: Rc<Slice>,
    pps: Rc<Pps>,
    t: Turn,
    k: int,
    p: Pace,
    r: int,
)
    requires
        is_window(p, r),
        k >= 0,
        delay::is_steady(m, k, p),
        is_windowed(m.dpb.entries, k, p, r),
        m.dpb.max_num_pics == pps.sps.max_dpb_frames,
        machine::prepares(m, unit, slice, pps, t),
        t.result is Ok,
        delay::keeps_pace(t, k, p),
        keeps_turn(t, k, r),
    ensures
        is_turned(t, k, p, r),
{
    let (c, sps) = (laws::slice_of(slice), laws::sps_of(pps));
    assert(delay::is_on_pace(c, sps, k, p));
    delay::lemma_prepared(m, c, sps, unit.timestamp, k, p);
    if k > 0 {
        lemma_renumbered(m.dpb, k, p, r);
    } else {
        let n = m.prepared(c, sps, unit.timestamp).0;
        assert(n.dpb.entries.len() == 0);
    }
}

proof fn lemma_begins(
    m: MemoryState,
    unit: Unit,
    slice: Rc<Slice>,
    t: Turn,
    k: int,
    p: Pace,
    r: int,
)
    requires
        is_window(p, r),
        k >= 0,
        delay::is_steady(m, k, p),
        is_windowed(m.dpb.entries, k, p, r),
        machine::begins(m, unit, slice, t),
        t.result is Ok,
        delay::keeps_pace(t, k, p),
        keeps_turn(t, k, r),
    ensures
        is_turned(t, k, p, r),
{
    let pps = m.pps[slice.header.pic_parameter_set_id];
    let sps = laws::sps_of(pps);
    let limited = m.limited(sps);
    if machine::serves(limited, sps) {
        lemma_prepares(limited.cropped(sps), unit, slice, pps, t, k, p, r);
    }
}

proof fn lemma_advances(
    m: MemoryState,
    unit: Unit,
    current: Option<CurrentPicture>,
    t: Turn,
    k: int,
    p: Pace,
    r: int,
)
    requires
        is_window(p, r),
        k >= 0,
        match current {
            Some(c) => is_in_line(m, c.pic, k, p, r),
            None => delay::is_steady(m, k, p) && is_windowed(m.dpb.entries, k, p, r),
        },
        machine::advances(m, unit, current, t),
        t.result is Ok,
        delay::keeps_pace(t, k, p),
        keeps_turn(t, k, r),
    ensures
        is_turned(t, k, p, r),
{
    let (i, pps, e) = machine::stop(unit.nals@, unit.next as int, m.pps);
    let n = MemoryState { pps, ..m };
    if i < unit.nals@.len() {
        let slice = unit.nals@[i]->Slice_0.unwrap();
        let past = Unit { next: (i + 1) as usize, ..unit };
        if current is None {
            lemma_begins(n, past, slice, t, k, p, r);
        }
    }
}

proof fn lemma_decoding(
    before: Turn,
    unit: Unit,
    wait: Wait,
    reply: Reply,
    after: Turn,
    k: int,
    p: Pace,
    r: int,
)
    requires
        is_window(p, r),
        k >= 0,
        before.work == (Work::Decoding { unit, wait }),
        delay::is_paced(before, k, p),
        is_turned(before, k, p, r),
        keeps_turn(before, k, r),
        order_laws::is_coded_in_order(before),
        machine::answers(before.work, reply),
        machine::resumed(before.memory, before.work, reply, after),
        after.result is Ok,
        ({
            let next = k + order_laws::decoded_next(before.work, Event::Answer(reply)).len();
            delay::keeps_pace(after, next, p) && keeps_turn(after, next, r)
        }),
    ensures
        is_turned(
            after,
            k + order_laws::decoded_next(before.work, Event::Answer(reply)).len(),
            p,
            r,
        ),
{
    let m = before.memory;
    match (wait, reply) {
        (Wait::Sequence { slice, pps, sequence }, Reply::Done) => {
            let n = MemoryState { sequence: Some(sequence@), ..m };
            lemma_prepares(n, unit, slice, pps, after, k, p, r);
        },
        (Wait::Slice { current }, Reply::Done) => {
            lemma_advances(m, unit, Some(current), after, k, p, r);
        },
        (Wait::Submit { current, following }, Reply::Done) => {
            let marks = current.first.header.dec_ref_pic_marking;
            turns_free_the_oldest(m, current.pic, marks, k, p, r);
            lemma_finished(m, current.pic, current.handle, marks, k, p, r);
            delay::lemma_finished(m, current.pic, current.handle, marks, r as u8, k, p);
            let n = m.finished(current.pic, current.handle, marks, r as u8).0;
            match following {
                Some(slice) => {
                    lemma_begins(n, unit, slice, after, k + 1, p, r);
                },
                None => {},
            }
        },
        _ => {},
    }
}

proof fn lemma_turn(before: Turn, e: Event, after: Turn, k: int, p: Pace, r: int)
    requires
        is_window(p, r),
        k >= 0,
        machine::machine_wf(before.memory, before.work),
        delay::is_paced(before, k, p),
        is_turned(before, k, p, r),
        keeps_turn(before, k, r),
        order_laws::is_coded_in_order(before),
        laws::leads(before, e, after),
        !(e is Flush),
        after.result is Ok,
        ({
            let next = k + order_laws::decoded_next(before.work, e).len();
            delay::keeps_pace(after, next, p) && keeps_turn(after, next, r)
        }),
    ensures
        is_turned(after, k + order_laws::decoded_next(before.work, e).len(), p, r),
{
    reveal(laws::leads);
    match e {
        Event::Feed(unit) => {
            lemma_advances(before.memory, unit, None, after, k, p, r);
        },
        Event::Flush(_) => {},
        Event::Answer(reply) => match before.work {
            Work::Idle => {},
            Work::Decoding { unit, wait } => {
                lemma_decoding(before, unit, wait, reply, after, k, p, r);
            },
            Work::Delivering(d) => {
                assert(after.memory.dpb == before.memory.dpb);
            },
        },
    }
}

////// Over the life of a decoder

/// Whether the life `turns` is that of a stream of pace `p`, coded in output order and not
/// flushed, whose pictures take their turn in a window of `r`.
pub open spec fn is_turned_life(turns: Seq<Turn>, events: Seq<Event>, p: Pace, r: int) -> bool {
    &&& laws::is_life(turns, events)
    &&& laws::is_kept(turns, events)
    &&& is_window(p, r)
    &&& forall|i: int| 0 <= i < events.len() ==> !((#[trigger] events[i]) is Flush)
    &&& forall|i: int| 0 <= i < turns.len() ==> order_laws::is_coded_in_order(#[trigger] turns[i])
    &&& forall|i: int|
        0 <= i < turns.len() ==> {
            let k = order_laws::decoded_in_order(turns, events, i).len() as int;
            delay::keeps_pace(#[trigger] turns[i], k, p) && keeps_turn(turns[i], k, r)
        }
}

/// What holds after turn `n`.
spec fn is_turned_at(turns: Seq<Turn>, events: Seq<Event>, n: int, p: Pace, r: int) -> bool {
    let k = order_laws::decoded_in_order(turns, events, n).len() as int;
    &&& delay::is_paced(turns[n], k, p)
    &&& is_turned(turns[n], k, p, r)
    &&& delay::makes_room(turns[n], k, p)
}

proof fn lemma_room(t: Turn, k: int, p: Pace, r: int)
    requires
        is_window(p, r),
        k >= 0,
        delay::is_paced(t, k, p),
        is_turned(t, k, p, r),
        keeps_turn(t, k, r),
    ensures
        delay::makes_room(t, k, p),
{
    match t.work {
        Work::Decoding { unit: _, wait: Wait::Submit { current, .. } } => {
            let marks = current.first.header.dec_ref_pic_marking;
            turns_free_the_oldest(t.memory, current.pic, marks, k, p, r);
        },
        _ => {},
    }
}

proof fn lemma_turned(turns: Seq<Turn>, events: Seq<Event>, n: int, p: Pace, r: int)
    requires
        is_turned_life(turns, events, p, r),
        0 <= n < turns.len(),
    ensures
        is_turned_at(turns, events, n, p, r),
    decreases n,
{
    let k = order_laws::decoded_in_order(turns, events, n).len() as int;
    assert(delay::keeps_pace(turns[n], k, p) && keeps_turn(turns[n], k, r));
    if n > 0 {
        lemma_turned(turns, events, n - 1, p, r);
        let before = turns[n - 1];
        let e = events[n - 1];
        let earlier = order_laws::decoded_in_order(turns, events, n - 1).len() as int;
        assert(laws::leads(before, e, turns[n - 1 + 1]));
        assert(machine::machine_wf(before.memory, before.work));
        assert(turns[n].result is Ok);
        assert(delay::keeps_pace(before, earlier, p) && keeps_turn(before, earlier, r));
        delay::lemma_turn(before, e, turns[n], earlier, p);
        lemma_turn(before, e, turns[n], earlier, p, r);
    }
    lemma_room(turns[n], k, p, r);
}

/// A stream of reference frames coded in output order, whose references come and go in
/// turn, trails by as many pictures as its buffer holds: whether it slides the window or
/// has operations unmark the oldest, and from one picture to the next either.
pub proof fn windowed_streams_trail_by_the_buffer(
    turns: Seq<Turn>,
    events: Seq<Event>,
    n: int,
    p: Pace,
    r: int,
)
    requires
        is_turned_life(turns, events, p, r),
        0 <= n < turns.len(),
        turns[n].work is Idle,
    ensures
        delay::is_paced_life(turns, events, p),
        ({
            let coded = order_laws::decoded_in_order(turns, events, n);
            order_laws::handed_in_order(turns, n) == coded.take(
                coded.len() - delay::smaller(coded.len() as int, p.frames),
            )
        }),
{
    assert forall|i: int| 0 <= i < turns.len() implies delay::makes_room(
        #[trigger] turns[i],
        order_laws::decoded_in_order(turns, events, i).len() as int,
        p,
    ) by {
        lemma_turned(turns, events, i, p, r);
    }
    delay::output_trails_by_the_buffer(turns, events, n, p);
}

} // verus!
