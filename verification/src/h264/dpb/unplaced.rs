//! Which surface a picture is in makes no difference to what the buffer does: every
//! operation does the same to pictures whose surfaces have been forgotten.

use vstd::prelude::*;

use crate::h264::dpb;
use crate::h264::dpb::mmco;
use crate::h264::dpb::mmco::Marking;
use crate::h264::dpb::{DpbEntry, DpbState};
use crate::h264::picture::{PictureData, Reference};
use crate::h264::syntax::RefPicMarkingInner;
use crate::surface::Handle;

verus! {

/// `h` with its surface forgotten.
pub open spec fn handle(h: Handle) -> Handle {
    Handle { surface: 0, ..h }
}

/// The pictures `s` with their surfaces forgotten.
pub open spec fn handles(s: Seq<Handle>) -> Seq<Handle> {
    s.map_values(|h: Handle| handle(h))
}

/// `e` with the surface of its picture forgotten.
pub open spec fn entry(e: DpbEntry) -> DpbEntry {
    DpbEntry {
        reference: match e.reference {
            Some(h) => Some(handle(h)),
            None => None,
        },
        ..e
    }
}

/// The entries `s` with the surfaces of their pictures forgotten.
pub open spec fn entries(s: Seq<DpbEntry>) -> Seq<DpbEntry> {
    s.map_values(|e: DpbEntry| entry(e))
}

/// `d` with the surfaces of its pictures forgotten.
pub open spec fn buffer(d: DpbState) -> DpbState {
    d.with(entries(d.entries))
}

////// Output

proof fn lemma_any_waiting(s: Seq<DpbEntry>)
    ensures
        dpb::any_waiting(entries(s)) == dpb::any_waiting(s),
{
    if dpb::any_waiting(s) {
        let i = choose|i: int| 0 <= i < s.len() && dpb::waiting(#[trigger] s[i]);
        assert(dpb::waiting(entries(s)[i]));
    }
    if dpb::any_waiting(entries(s)) {
        let i = choose|i: int|
            0 <= i < entries(s).len() && dpb::waiting(#[trigger] entries(s)[i]);
        assert(dpb::waiting(s[i]));
    }
}

proof fn lemma_next_output(s: Seq<DpbEntry>)
    requires
        dpb::any_waiting(s),
    ensures
        dpb::next_output(entries(s)) == dpb::next_output(s),
        0 <= dpb::next_output(s) < s.len(),
        dpb::after_bump(entries(s)) == entries(dpb::after_bump(s)),
{
    dpb::lemma_next_output_exists(s);
    let i = dpb::next_output(s);
    let t = entries(s);
    assert forall|j: int| 0 <= j < t.len() && dpb::waiting(#[trigger] t[j]) implies
        dpb::output_before(t, i, j) by {
        assert(dpb::waiting(s[j]));
        assert(dpb::output_before(s, i, j));
    }
    assert(dpb::is_next_output(t, i));
    dpb::lemma_next_output_unique(t, i);
    assert(dpb::after_bump(t) =~= entries(dpb::after_bump(s)));
}

proof fn lemma_cons(e: DpbEntry, s: Seq<DpbEntry>)
    ensures
        entries(seq![e] + s) == seq![entry(e)] + entries(s),
{
    assert(entries(seq![e] + s) =~= seq![entry(e)] + entries(s));
}

/// Draining goes the same way without the surfaces.
pub proof fn output_sequence(s: Seq<DpbEntry>)
    ensures
        dpb::output_sequence(entries(s)) == entries(dpb::output_sequence(s)),
    decreases dpb::waiting_count(s),
{
    lemma_any_waiting(s);
    if dpb::any_waiting(s) {
        dpb::lemma_bump_counts_down(s);
        lemma_next_output(s);
        output_sequence(dpb::after_bump(s));
        lemma_cons(s[dpb::next_output(s)], dpb::output_sequence(dpb::after_bump(s)));
    } else {
        assert(entries(dpb::output_sequence(s)) =~= Seq::<DpbEntry>::empty());
    }
}

/// The pictures of entries without surfaces are those of the entries, without surfaces.
pub proof fn pictures(s: Seq<DpbEntry>)
    ensures
        dpb::handles(entries(s)) == handles(dpb::handles(s)),
    decreases s.len(),
{
    if s.len() == 0 {
        assert(dpb::handles(entries(s)) =~= handles(dpb::handles(s)));
    } else {
        assert(entries(s).drop_first() =~= entries(s.drop_first()));
        pictures(s.drop_first());
        assert(dpb::handles(entries(s)) =~= handles(dpb::handles(s)));
    }
}

/// Making room goes the same way without the surfaces.
pub proof fn bumping(d: DpbState, pic: PictureData)
    ensures
        dpb::bumped(buffer(d), pic) == entries(dpb::bumped(d, pic)),
        dpb::left_after_bumping(buffer(d), pic) == buffer(dpb::left_after_bumping(d, pic)),
    decreases dpb::waiting_count(d.entries),
{
    lemma_any_waiting(d.entries);
    if dpb::any_waiting(d.entries) {
        lemma_next_output(d.entries);
    }
    assert(buffer(d).bumps(pic) == d.bumps(pic));
    if d.bumps(pic) {
        dpb::lemma_bump_counts_down(d.entries);
        bumping(d.bumped_once(), pic);
        assert(buffer(d).bumped_once() == buffer(d.bumped_once()));
        lemma_cons(d.entries[dpb::next_output(d.entries)], dpb::bumped(d.bumped_once(), pic));
    } else {
        assert(entries(dpb::bumped(d, pic)) =~= Seq::<DpbEntry>::empty());
    }
}

/// Dropping what nothing needs goes the same way without the surfaces.
pub proof fn pruning(d: DpbState)
    ensures
        buffer(d).pruned() == buffer(d.pruned()),
    decreases d.entries.len(),
{
    let p = |e: DpbEntry| dpb::in_use(e);
    let s = d.entries;
    reveal(Seq::filter);
    if s.len() > 0 {
        pruning(d.with(s.drop_last()));
        assert(entries(s).drop_last() =~= entries(s.drop_last()));
        let f = s.drop_last().filter(p);
        assert(entries(s.drop_last()).filter(p) == entries(f));
        if dpb::in_use(s.last()) {
            assert(s.filter(p) == f.push(s.last()));
            assert(entries(s).filter(p) =~= entries(s.filter(p)));
        } else {
            assert(s.filter(p) == f);
            assert(entries(s).filter(p) =~= entries(s.filter(p)));
        }
    }
    assert(buffer(d).pruned().entries =~= buffer(d.pruned()).entries);
}

/// Storing goes the same way without the surfaces.
pub proof fn storing(d: DpbState, pic: PictureData, reference: Option<Handle>)
    ensures
        buffer(d).stored(
            pic,
            match reference {
                Some(h) => Some(handle(h)),
                None => None,
            },
        ) == buffer(d.stored(pic, reference)),
{
    let bare = match reference {
        Some(h) => Some(handle(h)),
        None => None,
    };
    assert(buffer(d).stored(pic, bare).entries =~= buffer(d.stored(pic, reference)).entries);
}

////// Marking

/// Numbering goes the same way without the surfaces.
pub proof fn renumbering(d: DpbState, frame_num: u32, max_frame_num: u32)
    ensures
        buffer(d).renumbered(frame_num, max_frame_num) == buffer(
            d.renumbered(frame_num, max_frame_num),
        ),
{
    assert(buffer(d).renumbered(frame_num, max_frame_num).entries =~= buffer(
        d.renumbered(frame_num, max_frame_num),
    ).entries);
}

/// Unmarking goes the same way without the surfaces.
pub proof fn unmarking(d: DpbState)
    ensures
        buffer(d).all_unused() == buffer(d.all_unused()),
{
    assert(buffer(d).all_unused().entries =~= buffer(d.all_unused()).entries);
}

proof fn lemma_reference_count(s: Seq<DpbEntry>)
    ensures
        dpb::reference_count(entries(s)) == dpb::reference_count(s),
    decreases s.len(),
{
    if s.len() > 0 {
        assert(entries(s).drop_last() =~= entries(s.drop_last()));
        lemma_reference_count(s.drop_last());
    }
}

proof fn lemma_oldest(s: Seq<DpbEntry>)
    ensures
        dpb::any_short_term(entries(s)) == dpb::any_short_term(s),
        dpb::any_short_term(s) ==> dpb::oldest(entries(s)) == dpb::oldest(s) && 0 <= dpb::oldest(s)
            < s.len(),
{
    let t = entries(s);
    if dpb::any_short_term(s) {
        dpb::lemma_oldest_exists(s);
        let i = dpb::oldest(s);
        assert(dpb::short_term(t[i]));
        assert forall|j: int| 0 <= j < t.len() && dpb::short_term(#[trigger] t[j]) implies
            t[i].pic.frame_num_wrap < t[j].pic.frame_num_wrap || (t[i].pic.frame_num_wrap
            == t[j].pic.frame_num_wrap && i <= j) by {
            assert(dpb::short_term(s[j]));
        }
        assert(dpb::is_oldest(t, i));
        dpb::lemma_oldest_unique(t, i);
    }
    if dpb::any_short_term(t) {
        let i = choose|i: int| 0 <= i < t.len() && dpb::short_term(#[trigger] t[i]);
        assert(dpb::short_term(s[i]));
    }
}

proof fn lemma_slid(s: Seq<DpbEntry>, max: nat)
    ensures
        dpb::slid(entries(s), max) == entries(dpb::slid(s, max)),
    decreases dpb::reference_count(s),
{
    lemma_reference_count(s);
    lemma_oldest(s);
    if dpb::reference_count(s) >= max && dpb::any_short_term(s) {
        dpb::lemma_oldest_exists(s);
        let i = dpb::oldest(s);
        let e = dpb::marked(s[i], Reference::Unused);
        dpb::lemma_reference_count_update(s, i, e);
        lemma_slid(s.update(i, e), max);
        assert(entries(s.update(i, e)) =~= entries(s).update(
            i,
            dpb::marked(entries(s)[i], Reference::Unused),
        ));
    }
}

/// The sliding window goes the same way without the surfaces.
pub proof fn sliding(d: DpbState, max_num_ref_frames: u8)
    ensures
        buffer(d).slid(max_num_ref_frames) == buffer(d.slid(max_num_ref_frames)),
{
    lemma_slid(
        d.entries,
        if max_num_ref_frames == 0 {
            1
        } else {
            max_num_ref_frames as nat
        },
    );
}

proof fn lemma_short_term_numbered(s: Seq<DpbEntry>, pic_num: int)
    ensures
        dpb::short_term_numbered(entries(s), pic_num) == dpb::short_term_numbered(s, pic_num),
        dpb::short_term_numbered(s, pic_num) matches Some(i) ==> 0 <= i < s.len(),
{
    let t = entries(s);
    assert forall|i: int| dpb::is_short_term_numbered(t, pic_num, i)
        == dpb::is_short_term_numbered(s, pic_num, i) by {
        if dpb::is_short_term_numbered(s, pic_num, i) {
            assert forall|j: int| 0 <= j < i implies !(dpb::short_term(#[trigger] t[j])
                && t[j].pic.pic_num == pic_num) by {
                assert(s[j].pic == t[j].pic);
            }
        }
        if dpb::is_short_term_numbered(t, pic_num, i) {
            assert forall|j: int| 0 <= j < i implies !(dpb::short_term(#[trigger] s[j])
                && s[j].pic.pic_num == pic_num) by {
                assert(s[j].pic == t[j].pic);
            }
        }
    }
    if exists|i: int| dpb::is_short_term_numbered(s, pic_num, i) {
        let a = choose|i: int| dpb::is_short_term_numbered(s, pic_num, i);
        assert(dpb::is_short_term_numbered(t, pic_num, a));
        let b = choose|i: int| dpb::is_short_term_numbered(t, pic_num, i);
        assert(dpb::is_short_term_numbered(s, pic_num, b));
        assert(dpb::short_term(s[a]) && dpb::short_term(s[b]));
        assert(a == b);
    }
}

proof fn lemma_long_term_numbered(s: Seq<DpbEntry>, num: u32)
    ensures
        dpb::long_term_numbered(entries(s), num) == dpb::long_term_numbered(s, num),
        dpb::long_term_numbered(s, num) matches Some(i) ==> 0 <= i < s.len(),
{
    let t = entries(s);
    assert forall|i: int| dpb::is_long_term_numbered(t, num, i) == dpb::is_long_term_numbered(
        s,
        num,
        i,
    ) by {
        if dpb::is_long_term_numbered(s, num, i) {
            assert forall|j: int| 0 <= j < i implies !(dpb::long_term(#[trigger] t[j])
                && t[j].pic.long_term_pic_num == num) by {
                assert(s[j].pic == t[j].pic);
            }
        }
        if dpb::is_long_term_numbered(t, num, i) {
            assert forall|j: int| 0 <= j < i implies !(dpb::long_term(#[trigger] s[j])
                && s[j].pic.long_term_pic_num == num) by {
                assert(s[j].pic == t[j].pic);
            }
        }
    }
    if exists|i: int| dpb::is_long_term_numbered(s, num, i) {
        let a = choose|i: int| dpb::is_long_term_numbered(s, num, i);
        assert(dpb::is_long_term_numbered(t, num, a));
        let b = choose|i: int| dpb::is_long_term_numbered(t, num, i);
        assert(dpb::is_long_term_numbered(s, num, b));
        assert(dpb::long_term(s[a]) && dpb::long_term(s[b]));
        assert(a == b);
    }
}

/// `s` with the surfaces of its pictures forgotten.
pub open spec fn marking(s: Marking) -> Marking {
    Marking { dpb: buffer(s.dpb), ..s }
}

proof fn lemma_operated(s: Marking, m: RefPicMarkingInner)
    ensures
        match mmco::operated(s, m) {
            Ok(t) => mmco::operated(marking(s), m) == Ok::<Marking, dpb::MmcoError>(marking(t)),
            Err(e) => mmco::operated(marking(s), m) == Err::<Marking, dpb::MmcoError>(e),
        },
{
    let s0 = s.dpb.entries;
    lemma_short_term_numbered(s0, dpb::pic_num_x(s.pic, m));
    lemma_long_term_numbered(s0, m.long_term_pic_num);
    unmarking(s.dpb);
    let op = m.memory_management_control_operation;
    let freed = s.dpb.index_freed(m.long_term_frame_idx);
    assert(buffer(s.dpb).index_freed(m.long_term_frame_idx).entries =~= buffer(freed).entries);
    assert(dpb::all_capped(buffer(s.dpb), m.max_long_term_frame_idx).entries =~= buffer(
        dpb::all_capped(s.dpb, m.max_long_term_frame_idx),
    ).entries);
    if op == 1 || op == 2 {
        let i = if op == 1 {
            dpb::short_term_numbered(s0, dpb::pic_num_x(s.pic, m))
        } else {
            dpb::long_term_numbered(s0, m.long_term_pic_num)
        };
        if i is Some {
            assert(buffer(s.dpb).remarked(i.unwrap(), Reference::Unused).entries =~= buffer(
                s.dpb.remarked(i.unwrap(), Reference::Unused),
            ).entries);
        }
    } else if op == 3 {
        let i = dpb::short_term_numbered(s0, dpb::pic_num_x(s.pic, m));
        if i is Some {
            let idx = m.long_term_frame_idx;
            assert(mmco::made_long_term(buffer(freed), i.unwrap(), idx).entries =~= buffer(
                mmco::made_long_term(freed, i.unwrap(), idx),
            ).entries);
        }
    }
}

/// The memory management control operations go the same way without the surfaces.
pub proof fn operating(s: Marking, ops: Seq<RefPicMarkingInner>)
    ensures
        mmco::all_operated(marking(s), ops).0 == marking(mmco::all_operated(s, ops).0),
        mmco::all_operated(marking(s), ops).1 == mmco::all_operated(s, ops).1,
    decreases ops.len(),
{
    if ops.len() > 0 && ops[0].memory_management_control_operation != 0 {
        lemma_operated(s, ops[0]);
        match mmco::operated(s, ops[0]) {
            Ok(t) => {
                operating(t, ops.drop_first());
            },
            Err(_) => {},
        }
    }
}

} // verus!
