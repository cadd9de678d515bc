//! The order pictures come out in where they are not coded in it.

use vstd::prelude::*;

use crate::decode::laws;
use crate::decode::laws::order as order_laws;
use crate::decode::laws::Event;
use crate::decode::machine;
use crate::decode::machine::{CurrentPicture, Nal, Reply, Turn, Unit, Wait, Work};
use crate::decode::poc;
use crate::decode::state::MemoryState;
use crate::h264::dpb;
use crate::h264::dpb::laws as dpb_laws;
use crate::h264::dpb::order;
use crate::h264::dpb::order::Ticket;
use crate::h264::picture::PictureData;
use crate::h264::syntax::RefPicMarking;
use crate::surface::Handle;

verus! {

////// Coded video sequences

/// The pictures decoded so far, in the order they are to come out: those of coded video
/// sequences that are over, and those of the present one, by order count.
pub struct Program {
    pub past: Seq<Handle>,
    pub present: Seq<Ticket>,
}

/// `p` once the present coded video sequence is over.
pub open spec fn closed_off(p: Program) -> Program {
    Program { past: p.past + order::pictures(p.present), present: Seq::empty() }
}

/// Whether `pic`, once marked, starts a coded video sequence: it is an IDR picture, or
/// restarts the counts.
pub open spec fn starts_over(pic: PictureData) -> bool {
    pic.spec_idr() || pic.has_mmco_5
}

/// `p` once `pic`, as marked, has been decoded into `handle`.
pub open spec fn enters(p: Program, pic: PictureData, handle: Handle) -> Program {
    let t = Ticket { pic_order_cnt: pic.pic_order_cnt, reference: Some(handle) };
    if starts_over(pic) {
        Program { present: seq![t], ..closed_off(p) }
    } else {
        Program { present: order::joined(p.present, t), ..p }
    }
}

/// The picture `current` as marked once it is decoded with the memory `m`.
pub open spec fn as_marked(m: MemoryState, current: CurrentPicture) -> PictureData {
    m.marked(
        current.pic,
        current.first.header.dec_ref_pic_marking,
        current.pps.sps.max_num_ref_frames,
    ).1
}

/// How many pictures are still in the buffer of `m` once it has made room for `pic`,
/// which was marked with `marks`.
pub open spec fn left_waiting(
    m: MemoryState,
    pic: PictureData,
    marks: RefPicMarking,
    max_num_ref_frames: u8,
) -> nat {
    let (t, marked, _) = m.marked(pic, marks, max_num_ref_frames);
    order::queue(dpb::left_after_bumping(t.dpb.pruned(), marked).entries).len()
}

/// Whether `pic`, once marked, comes in time for the order `present`, where `left` of it
/// are still in the buffer: it is not below one that has left, nor level with any.
pub open spec fn is_in_time(present: Seq<Ticket>, left: nat, pic: PictureData) -> bool {
    !starts_over(pic) ==> {
        &&& forall|i: int|
            0 <= i < present.len() - left ==> (#[trigger] present[i]).pic_order_cnt
                < pic.pic_order_cnt
        &&& forall|i: int|
            0 <= i < present.len() ==> (#[trigger] present[i]).pic_order_cnt != pic.pic_order_cnt
    }
}

////// One picture

proof fn lemma_cancel(a: Seq<Handle>, b: Seq<Handle>, c: Seq<Handle>)
    requires
        a + c == b + c,
    ensures
        a == b,
{
    let (x, y) = (a + c, b + c);
    assert(x.len() == a.len() + c.len() && y.len() == b.len() + c.len());
    assert(x.take(a.len() as int) =~= a);
    assert(y.take(b.len() as int) =~= b);
    assert(x == y);
}

/// What the memory promises once a picture has been decoded, where the rest of the
/// program has gone out as `out`.
spec fn keeps_to(out: Seq<Handle>, m: MemoryState, p: Program) -> bool {
    &&& out + order_laws::promised(m) == p.past + order::pictures(p.present)
    &&& order::is_end_of(order_laws::queued(m), p.present)
    &&& order_laws::depth_fits(m)
}

proof fn lemma_pictures_of_one(t: Ticket)
    requires
        t.reference is Some,
    ensures
        order::pictures(seq![t]) == seq![t.reference.unwrap()],
{
    assert(seq![t].drop_first() =~= Seq::<Ticket>::empty());
    assert(order::pictures(seq![t].drop_first()) =~= Seq::<Handle>::empty());
    assert(order::pictures(seq![t]) =~= seq![t.reference.unwrap()]);
}

/// A picture placed in a buffer where nothing waits.
proof fn lemma_placed_alone(m: MemoryState, pic: PictureData, handle: Handle)
    requires
        !pic.nonexisting,
        starts_over(pic),
        pic.has_mmco_5 || order_laws::queued(m).len() == 0,
        order_laws::depth_fits(m),
        m.placed(pic, handle).1 is Ok,
    ensures
        order_laws::promised(m.placed(pic, handle).0) == order_laws::promised(m).push(handle),
        order::is_end_of(
            order_laws::queued(m.placed(pic, handle).0),
            seq![Ticket { pic_order_cnt: pic.pic_order_cnt, reference: Some(handle) }],
        ),
        order_laws::depth_fits(m.placed(pic, handle).0),
{
    let t = Ticket { pic_order_cnt: pic.pic_order_cnt, reference: Some(handle) };
    let cached = MemoryState { prev: poc::PrevPicInfo::of(pic), ..m };
    order_laws::lemma_unchanged(m, cached);
    order_laws::lemma_draining(cached);
    let emptied = if pic.has_mmco_5 {
        cached.drained()
    } else {
        cached
    };
    assert(order_laws::queued(emptied).len() == 0);
    order_laws::lemma_bumping(emptied, pic);
    let bumped = emptied.bumped(pic);
    assert(order_laws::queued(bumped).len() == 0);
    order::lemma_nothing_queued(bumped.dpb.entries);
    let n = m.placed(pic, handle).0;
    if bumped.dpb.has_room() {
        order::later_pictures_leave_last(bumped.dpb, pic, handle);
        assert(order_laws::promised(n) =~= order_laws::promised(bumped).push(handle));
        assert(n.dpb.entries.drop_last() =~= bumped.dpb.entries);
        assert(order_laws::queued(bumped) =~= Seq::<Ticket>::empty());
        assert(order_laws::queued(n) =~= seq![t]);
        assert(seq![t].skip(0) =~= seq![t]);
    } else {
        order::outputs_follow_the_queue(bumped.dpb.entries);
        assert(order_laws::promised(n) =~= order_laws::promised(bumped).push(handle));
        assert(order_laws::queued(n) =~= seq![t].skip(1));
    }
}

/// A picture placed in time.
proof fn lemma_placed_in_time(
    out: Seq<Handle>,
    m: MemoryState,
    pic: PictureData,
    handle: Handle,
    p: Program,
)
    requires
        !pic.nonexisting,
        !starts_over(pic),
        keeps_to(out, m, p),
        is_in_time(
            p.present,
            order::queue(dpb::left_after_bumping(m.dpb.pruned(), pic).entries).len(),
            pic,
        ),
        m.placed(pic, handle).1 is Ok,
    ensures
        keeps_to(out, m.placed(pic, handle).0, enters(p, pic, handle)),
{
    let t = Ticket { pic_order_cnt: pic.pic_order_cnt, reference: Some(handle) };
    let cached = MemoryState { prev: poc::PrevPicInfo::of(pic), ..m };
    order_laws::lemma_unchanged(m, cached);
    order_laws::lemma_bumping(cached, pic);
    let bumped = cached.bumped(pic);
    order_laws::lemma_alike(m, cached, bumped);
    let left = order_laws::queued(bumped);
    order::lemma_ends(left, order_laws::queued(m), p.present);
    let gone = p.present.take(p.present.len() - left.len());
    assert(p.present =~= gone + left);
    assert forall|i: int| 0 <= i < gone.len() implies (#[trigger] gone[i]).pic_order_cnt
        < t.pic_order_cnt by {
        assert(gone[i] == p.present[i]);
    }
    order::lemma_joins_after(gone, left, t);
    let q = order::joined(left, t);
    let present = order::joined(p.present, t);
    assert(present == gone + q);
    order::lemma_pictures_concat(gone, left);
    order::lemma_pictures_concat(gone, q);
    order::outputs_follow_the_queue(bumped.dpb.entries);
    // What has left the buffer has gone out or is ready.
    assert((out + bumped.ready) + order::pictures(left) =~= out + order_laws::promised(bumped));
    assert((p.past + order::pictures(gone)) + order::pictures(left) =~= p.past + order::pictures(
        p.present,
    ));
    lemma_cancel(
        out + bumped.ready,
        p.past + order::pictures(gone),
        order::pictures(left),
    );
    let n = m.placed(pic, handle).0;
    if bumped.dpb.has_room() {
        assert(n.dpb.entries.drop_last() =~= bumped.dpb.entries);
        assert(order_laws::queued(n) == q);
        order::outputs_follow_the_queue(n.dpb.entries);
        assert(out + order_laws::promised(n) =~= (out + bumped.ready) + order::pictures(q));
        assert(p.past + order::pictures(present) =~= (p.past + order::pictures(gone))
            + order::pictures(q));
        assert(q =~= present.skip(present.len() - q.len()));
    } else {
        dpb_laws::direct_output_keeps_the_order(cached.dpb.pruned(), pic);
        order::lemma_queued_from(bumped.dpb.entries, pic.pic_order_cnt);
        assert forall|i: int| 0 <= i < left.len() implies t.pic_order_cnt < (
        #[trigger] left[i]).pic_order_cnt by {
            assert(left[i] == p.present[gone.len() + i]);
        }
        order::lemma_joins_in_front(left, t);
        order::lemma_pictures_concat(seq![t], left);
        lemma_pictures_of_one(t);
        assert(order_laws::queued(n) == left);
        assert(n.ready == bumped.ready.push(handle));
        assert(out + order_laws::promised(n) =~= (out + bumped.ready) + (seq![handle]
            + order::pictures(left)));
        assert(p.past + order::pictures(present) =~= (p.past + order::pictures(gone))
            + order::pictures(q));
        assert(left =~= present.skip(present.len() - left.len()));
    }
}

/// A decoded picture takes its place in the program.
proof fn lemma_finished(
    out: Seq<Handle>,
    m: MemoryState,
    pic: PictureData,
    handle: Handle,
    marks: RefPicMarking,
    max_num_ref_frames: u8,
    p: Program,
)
    requires
        !pic.nonexisting,
        pic.spec_idr() ==> order_laws::queued(m).len() == 0,
        keeps_to(out, m, p),
        is_in_time(
            p.present,
            left_waiting(m, pic, marks, max_num_ref_frames),
            m.marked(pic, marks, max_num_ref_frames).1,
        ),
        m.finished(pic, handle, marks, max_num_ref_frames).1 is Ok,
    ensures
        keeps_to(
            out,
            m.finished(pic, handle, marks, max_num_ref_frames).0,
            enters(p, m.marked(pic, marks, max_num_ref_frames).1, handle),
        ),
{
    let (t, marked, r) = m.marked(pic, marks, max_num_ref_frames);
    order_laws::lemma_marking(m, pic, marks, max_num_ref_frames);
    assert(keeps_to(out, t, p));
    if starts_over(marked) {
        lemma_placed_alone(t, marked, handle);
        let n = t.placed(marked, handle).0;
        let q = enters(p, marked, handle);
        lemma_pictures_of_one(q.present[0]);
        assert(q.present =~= seq![q.present[0]]);
        assert(out + order_laws::promised(n) =~= (out + order_laws::promised(t)).push(handle));
        assert(q.past + order::pictures(q.present) =~= (p.past + order::pictures(p.present)).push(
            handle,
        ));
    } else {
        lemma_placed_in_time(out, t, marked, handle, p);
    }
}

////// Turn by turn

/// The program once the event `e` has happened to a decoder after the turn `before`.
pub open spec fn goes_on(p: Program, before: Turn, e: Event) -> Program {
    match (before.work, e) {
        (
            Work::Decoding { unit: _, wait: Wait::Submit { current, .. } },
            Event::Answer(Reply::Done),
        ) => enters(p, as_marked(before.memory, current), current.handle),
        (_, Event::Flush(_)) => closed_off(p),
        _ => p,
    }
}

/// Whether the picture the hardware decodes after the turn `t`, if any, comes in time
/// for the program `p`.
pub open spec fn comes_in_time(p: Program, t: Turn) -> bool {
    t.work matches Work::Decoding { unit: _, wait: Wait::Submit { current, .. } } ==> is_in_time(
        p.present,
        left_waiting(
            t.memory,
            current.pic,
            current.first.header.dec_ref_pic_marking,
            current.pps.sps.max_num_ref_frames,
        ),
        as_marked(t.memory, current),
    )
}

/// What holds after each turn, where `handed` has been handed over and `p` is the program
/// so far.
spec fn is_on_program(handed: Seq<Handle>, t: Turn, p: Program) -> bool {
    &&& handed + order_laws::in_line(t) == p.past + order::pictures(p.present)
    &&& order::is_end_of(order_laws::queued(t.memory), p.present)
    &&& order_laws::depth_fits(t.memory)
    &&& order_laws::finds_nothing_waiting(t)
}

/// Nothing decoded: the line stays, and so does the program.
proof fn lemma_stays(handed: Seq<Handle>, m: MemoryState, t: Turn, p: Program)
    requires
        keeps_to(handed, m, p),
        order_laws::in_line(t) == order_laws::promised(m),
        order::is_end_of(order_laws::queued(t.memory), order_laws::queued(m)),
        order_laws::finds_nothing_waiting(t),
        order_laws::depth_fits(t.memory),
    ensures
        is_on_program(handed, t, p),
{
    order::lemma_ends(order_laws::queued(t.memory), order_laws::queued(m), p.present);
}

proof fn lemma_decoding(
    handed: Seq<Handle>,
    before: Turn,
    unit: Unit,
    wait: Wait,
    reply: Reply,
    after: Turn,
    p: Program,
)
    requires
        before.work == (Work::Decoding { unit, wait }),
        machine::machine_wf(before.memory, before.work),
        machine::answers(before.work, reply),
        machine::resumed(before.memory, before.work, reply, after),
        after.result is Ok,
        laws::nothing_discarded(before.work),
        is_on_program(handed, before, p),
        comes_in_time(p, before),
    ensures
        is_on_program(handed, after, goes_on(p, before, Event::Answer(reply))),
{
    let m = before.memory;
    let q = order_laws::queued(m);
    assert(q.skip(0) =~= q);
    match (wait, reply) {
        (Wait::Sequence { slice, pps, sequence }, Reply::Done) => {
            let n = MemoryState { sequence: Some(sequence@), ..m };
            assert(order_laws::promised(n) == order_laws::promised(m));
            assert(keeps_to(handed, n, p));
            order_laws::lemma_prepares(n, unit, slice, pps, after);
            lemma_stays(handed, n, after, p);
        },
        (Wait::Slice { current }, Reply::Done) => {
            order_laws::lemma_advances(m, unit, Some(current), after);
            lemma_stays(handed, m, after, p);
        },
        (Wait::Submit { current, following }, Reply::Done) => {
            let marks = current.first.header.dec_ref_pic_marking;
            let max = current.pps.sps.max_num_ref_frames;
            lemma_finished(handed, m, current.pic, current.handle, marks, max, p);
            laws::lemma_finishing_keeps_pps(m, current.pic, current.handle, marks, max);
            let (n, r) = m.finished(current.pic, current.handle, marks, max);
            let next = goes_on(p, before, Event::Answer(reply));
            match following {
                Some(slice) => {
                    order_laws::lemma_begins(n, unit, slice, after);
                },
                None => {
                    order_laws::lemma_delivers(n, unit.output, after);
                },
            }
            lemma_stays(handed, n, after, next);
        },
        _ => {
            assert(order_laws::promised(after.memory) == order_laws::promised(m));
            assert(order_laws::in_line(after) == order_laws::promised(m));
            lemma_stays(handed, m, after, p);
        },
    }
}

proof fn lemma_turn(handed: Seq<Handle>, before: Turn, e: Event, after: Turn, p: Program)
    requires
        machine::machine_wf(before.memory, before.work),
        laws::leads(before, e, after),
        after.result is Ok,
        laws::nothing_discarded(before.work),
        e matches Event::Feed(unit) ==> forall|k: int|
            0 <= k < unit.nals@.len() ==> (#[trigger] unit.nals@[k] matches Nal::Slice(Some(slice))
                ==> !laws::discards(*slice)),
        is_on_program(handed, before, p),
        comes_in_time(p, before),
    ensures
        is_on_program(
            handed + order_laws::handed_next(before.work, after),
            after,
            goes_on(p, before, e),
        ),
{
    reveal(laws::leads);
    let m = before.memory;
    let none = Seq::<Handle>::empty();
    assert(handed + none =~= handed);
    match e {
        Event::Feed(unit) => {
            order_laws::lemma_advances(m, unit, None, after);
            lemma_stays(handed, m, after, p);
        },
        Event::Flush(output) => {
            order_laws::lemma_draining(m);
            order_laws::lemma_delivers(m.reset(), output, after);
            let next = closed_off(p);
            assert(order::pictures(next.present) =~= none);
            assert(next.past + none =~= p.past + order::pictures(p.present));
            assert(order_laws::queued(m.reset()) =~= next.present.skip(0));
            lemma_stays(handed, m.reset(), after, next);
        },
        Event::Answer(reply) => match before.work {
            Work::Idle => {},
            Work::Delivering(d) => {
                order_laws::lemma_delivery(m, d, reply, after);
                let next = order_laws::handed_next(before.work, after);
                assert((handed + next) + order_laws::in_line(after) =~= handed + (next
                    + order_laws::in_line(after)));
                assert(order_laws::queued(after.memory) == order_laws::queued(m));
            },
            Work::Decoding { unit, wait } => {
                lemma_decoding(handed, before, unit, wait, reply, after, p);
            },
        },
    }
}

////// Over the life of a decoder

/// The program the first `n` events make.
pub open spec fn program_by(turns: Seq<Turn>, events: Seq<Event>, n: int) -> Program
    decreases n,
{
    if n <= 0 {
        Program { past: Seq::empty(), present: Seq::empty() }
    } else {
        goes_on(program_by(turns, events, n - 1), turns[n - 1], events[n - 1])
    }
}

/// Whether no picture is decoded below one of its coded video sequence that has left the
/// buffer, nor level with one.
pub open spec fn is_timely(turns: Seq<Turn>, events: Seq<Event>) -> bool {
    forall|i: int|
        0 <= i < turns.len() ==> comes_in_time(program_by(turns, events, i), #[trigger] turns[i])
}

proof fn lemma_program(turns: Seq<Turn>, events: Seq<Event>, n: int)
    requires
        laws::is_life(turns, events),
        laws::is_kept(turns, events),
        is_timely(turns, events),
        0 <= n < turns.len(),
    ensures
        is_on_program(
            order_laws::handed_in_order(turns, n),
            turns[n],
            program_by(turns, events, n),
        ),
        order::ascends(program_by(turns, events, n).present),
    decreases n,
{
    if n == 0 {
        let t = turns[0];
        let p = program_by(turns, events, 0);
        order_laws::lemma_outputs_of_nothing();
        assert(order_laws::in_line(t) =~= Seq::<Handle>::empty());
        assert(order_laws::handed_in_order(turns, 0) + order_laws::in_line(t) =~= p.past
            + order::pictures(p.present));
        assert(order_laws::queued(t.memory) =~= p.present.skip(0));
    } else {
        lemma_program(turns, events, n - 1);
        let before = turns[n - 1];
        let e = events[n - 1];
        let p = program_by(turns, events, n - 1);
        assert(laws::leads(before, e, turns[n - 1 + 1]));
        assert(machine::machine_wf(before.memory, before.work));
        assert(turns[n].result is Ok);
        assert(laws::nothing_discarded(before.work));
        assert(comes_in_time(p, before));
        lemma_turn(order_laws::handed_in_order(turns, n - 1), before, e, turns[n], p);
        lemma_ascends(p, before, e);
    }
}

proof fn lemma_ascends(p: Program, before: Turn, e: Event)
    requires
        order::ascends(p.present),
        comes_in_time(p, before),
    ensures
        order::ascends(goes_on(p, before, e).present),
{
    match (before.work, e) {
        (
            Work::Decoding { unit: _, wait: Wait::Submit { current, .. } },
            Event::Answer(Reply::Done),
        ) => {
            let pic = as_marked(before.memory, current);
            let t = Ticket {
                pic_order_cnt: pic.pic_order_cnt,
                reference: Some(current.handle),
            };
            if !starts_over(pic) {
                order::joining_keeps_the_order(p.present, t);
            }
        },
        _ => {},
    }
}

/// Pictures come out one coded video sequence after the other, those of one sequence in
/// ascending order count, over any number of calls: what has been handed over, followed
/// by what is in line, is what has been decoded in this order. Where a picture is decoded
/// below one that has left the buffer already, it is too late to keep to it.
pub proof fn pictures_come_in_output_order(turns: Seq<Turn>, events: Seq<Event>, n: int)
    requires
        laws::is_life(turns, events),
        laws::is_kept(turns, events),
        is_timely(turns, events),
        0 <= n < turns.len(),
    ensures
        ({
            let p = program_by(turns, events, n);
            &&& order_laws::handed_in_order(turns, n) + order_laws::in_line(turns[n]) == p.past
                + order::pictures(p.present)
            &&& order::ascends(p.present)
        }),
{
    lemma_program(turns, events, n);
}

} // verus!
