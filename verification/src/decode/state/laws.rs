//! What decoding a picture does to what the decoder remembers.

use vstd::arithmetic::div_mod::{
    lemma_fundamental_div_mod_converse, lemma_small_mod,
};
use vstd::arithmetic::power2::pow2;
use vstd::prelude::*;

use crate::decode::error::DecodeError;
use crate::decode::marking;
use crate::decode::poc;
use crate::decode::sequence;
use crate::decode::state;
use crate::decode::state::MemoryState;
use crate::h264::dpb;
use crate::h264::dpb::mmco;
use crate::h264::dpb::mmco::Marking;
use crate::h264::dpb::{DpbEntry, DpbState};
use crate::h264::picture::{PictureData, Reference};
use crate::h264::syntax::{MaxLongTermFrameIdx, RefPicMarking, Slice, Sps};
use crate::surface::Handle;

verus! {

////// What the pool gets back

/// Entries are let go of one by one, in their order.
pub proof fn entries_are_let_go_of_in_order(a: Seq<DpbEntry>, b: Seq<DpbEntry>, all: bool)
    ensures
        state::let_go(a + b, all) == state::let_go(a, all) + state::let_go(b, all),
    decreases b.len(),
{
    if b.len() == 0 {
        assert(a + b =~= a);
        assert(state::let_go(a, all) + state::let_go(b, all) =~= state::let_go(a, all));
    } else {
        entries_are_let_go_of_in_order(a, b.drop_last(), all);
        assert((a + b).drop_last() =~= a + b.drop_last());
        assert(state::let_go(a + b, all) =~= state::let_go(a, all) + state::let_go(b, all));
    }
}

/// Of one entry, the picture decoded for it is let go of: always where the buffer is
/// emptied, and otherwise where it is neither a reference nor waiting to be output.
pub proof fn entries_in_use_are_not_let_go_of(e: DpbEntry)
    ensures
        e.reference is None ==> state::let_go(seq![e], true).len() == 0,
        e.reference matches Some(h) ==> state::let_go(seq![e], true) == seq![h],
        e.pic.needed_for_output || e.pic.reference != Reference::Unused ==> state::let_go(
            seq![e],
            false,
        ).len() == 0,
        !e.pic.needed_for_output && e.pic.reference == Reference::Unused ==> state::let_go(
            seq![e],
            false,
        ) == state::let_go(seq![e], true),
{
    assert(seq![e].drop_last() =~= Seq::<DpbEntry>::empty());
    assert(seq![e].last() == e);
    reveal_with_fuel(state::let_go, 2);
    match e.reference {
        Some(h) => {
            assert(Seq::<Handle>::empty().push(h) =~= seq![h]);
        },
        None => {},
    }
}

/// Pictures that leave the buffer give their surfaces back, as far as nothing that stays
/// is in them: all of them where the buffer is emptied, those out of use where a picture
/// makes room for itself.
pub proof fn pictures_that_leave_give_their_surfaces_back(m: MemoryState, pic: PictureData)
    requires
        m.sequence is Some,
    ensures
        ({
            let pool = m.sequence->0.surfaces;
            let (out, gone, left) = (m.drained(), m.discarded(), m.bumped(pic));
            let all = state::let_go(m.dpb.entries, true);
            let unused = state::let_go(m.dpb.entries, false);
            let none = Seq::<DpbEntry>::empty();
            &&& out.sequence matches Some(s) && s.surfaces == sequence::returned(
                pool,
                all,
                none,
                out.ready,
            )
            &&& gone.sequence matches Some(s) && s.surfaces == sequence::returned(
                pool,
                all,
                none,
                m.ready,
            )
            &&& left.sequence matches Some(s) && s.surfaces == sequence::returned(
                pool,
                unused,
                left.dpb.entries,
                left.ready,
            )
        }),
{
}

////// Gaps in the frame numbers

/// The buffer of `m` as a picture invented for the number `unused` finds it: every
/// reference renumbered as that picture sees it, and the window slid.
pub open spec fn window(m: MemoryState, sps: Sps, unused: int) -> DpbState {
    m.dpb.renumbered(
        unused as u32,
        pow2((sps.log2_max_frame_num_minus4 + 4) as nat) as u32,
    ).slid(sps.max_num_ref_frames).pruned()
}

/// Whether `n` is what inventing a picture numbered `unused` makes of `m`: pictures
/// leave for it as for any other, and it is stored as a short-term reference that is
/// never output.
pub open spec fn is_invented(
    m: MemoryState,
    n: MemoryState,
    sps: Sps,
    unused: int,
    timestamp: u64,
    pic: PictureData,
) -> bool {
    let left = dpb::left_after_bumping(window(m, sps, unused), pic);
    &&& pic.frame_num == unused
    &&& pic.nonexisting
    &&& pic.reference == Reference::ShortTerm
    &&& pic.is_idr is No
    &&& pic.timestamp == timestamp
    &&& n.dpb.entries.len() == left.entries.len() + 1
    &&& n.dpb.entries.drop_last() == left.entries
    &&& n.dpb.entries.last().reference is None
    &&& !n.dpb.entries.last().pic.needed_for_output
    &&& n.dpb.entries.last().pic == (PictureData { needed_for_output: false, ..pic })
    &&& n.ready == m.ready + dpb::handles(dpb::bumped(window(m, sps, unused), pic))
    &&& n.prev_ref == m.prev_ref
    &&& n.prev == m.prev
    &&& n.max_long_term_frame_idx == m.max_long_term_frame_idx
    &&& n.pps == m.pps
}

proof fn lemma_bumping_keeps_limits(d: DpbState, pic: PictureData)
    ensures
        dpb::left_after_bumping(d, pic).max_num_pics == d.max_num_pics,
        dpb::left_after_bumping(d, pic).max_num_reorder_frames == d.max_num_reorder_frames,
    decreases dpb::waiting_count(d.entries),
{
    if d.bumps(pic) {
        dpb::lemma_bump_counts_down(d.entries);
        lemma_bumping_keeps_limits(d.bumped_once(), pic);
    }
}

/// A gap is filled number by number, around the frame numbers there are, up to the
/// number the gap ends at.
pub proof fn gaps_are_filled_in_turn(
    m: MemoryState,
    sps: Sps,
    unused: int,
    frame_num: int,
    timestamp: u64,
)
    requires
        sps.valid(),
        0 <= unused < pow2((sps.log2_max_frame_num_minus4 + 4) as nat),
        0 <= frame_num < pow2((sps.log2_max_frame_num_minus4 + 4) as nat),
    ensures
        unused == frame_num ==> m.filled(sps, unused, frame_num, timestamp) == (
            m,
            Ok::<(), DecodeError>(()),
        ),
        unused != frame_num ==> ({
            let max = pow2((sps.log2_max_frame_num_minus4 + 4) as nat) as int;
            let coded = PictureData::non_existing(unused as u32, timestamp);
            match poc::ordered(m.prev_ref, m.prev, coded, sps) {
                Err(e) => m.filled(sps, unused, frame_num, timestamp).1 == Err::<
                    (),
                    DecodeError,
                >(e),
                Ok(pic) => if dpb::left_after_bumping(window(m, sps, unused), pic).entries.len()
                    >= m.dpb.max_num_pics {
                    m.filled(sps, unused, frame_num, timestamp).1 == Err::<(), DecodeError>(
                        DecodeError::StoreNonExisting,
                    )
                } else {
                    exists|n: MemoryState|
                        {
                            &&& #[trigger] is_invented(m, n, sps, unused, timestamp, pic)
                            &&& m.filled(sps, unused, frame_num, timestamp) == n.filled(
                                sps,
                                (unused + 1) % max,
                                frame_num,
                                timestamp,
                            )
                        }
                },
            }
        }),
{
    if unused != frame_num {
        let max = sps.spec_max_frame_num() as int;
        poc::laws::lemma_frame_numbers(sps);
        assert(state::next_frame_num(unused, max) == (unused + 1) % max) by {
            if unused + 1 < max {
                lemma_small_mod((unused + 1) as nat, max as nat);
            } else {
                lemma_fundamental_div_mod_converse(unused + 1, max, 1, 0);
            }
        }
        let coded = PictureData::non_existing(unused as u32, timestamp);
        match poc::ordered(m.prev_ref, m.prev, coded, sps) {
            Err(_) => {},
            Ok(pic) => {
                poc::laws::counting_changes_nothing_else(m.prev_ref, m.prev, coded, sps, pic);
                let marked = MemoryState {
                    prev: poc::prev_after(m.prev, coded),
                    dpb: m.dpb.renumbered(unused as u32, max as u32).slid(sps.max_num_ref_frames),
                    ..m
                };
                let bumped = marked.bumped(pic);
                lemma_bumping_keeps_limits(window(m, sps, unused), pic);
                if bumped.dpb.has_room() {
                    let n = bumped.stored(pic, None);
                    assert(n.dpb.entries.drop_last() =~= bumped.dpb.entries);
                    assert(is_invented(m, n, sps, unused, timestamp, pic));
                }
            },
        }
    }
}

/// A frame number that repeats or follows the last reference's leaves no gap, and an IDR
/// picture follows the number zero.
pub proof fn numbers_in_turn_leave_no_gap(m: MemoryState, slice: Slice, sps: Sps, timestamp: u64)
    requires
        sps.valid(),
        ({
            let last = if slice.idr_pic_flag {
                0
            } else {
                m.prev_ref.frame_num as int
            };
            let max = pow2((sps.log2_max_frame_num_minus4 + 4) as nat) as int;
            slice.header.frame_num == last || slice.header.frame_num == (last + 1) % max
        }),
    ensures
        !slice.idr_pic_flag ==> m.prepared(slice, sps, timestamp) == m.initiated(
            slice,
            sps,
            timestamp,
        ),
        slice.idr_pic_flag ==> exists|n: MemoryState|
            {
                &&& #[trigger] n.initiated(slice, sps, timestamp) == m.prepared(
                    slice,
                    sps,
                    timestamp,
                )
                &&& n.prev_ref.frame_num == 0
                &&& n.dpb == m.dpb
                &&& n.ready == m.ready
                &&& n.prev == m.prev
            },
{
    let n = m.renumbering(slice.idr_pic_flag);
    assert(n.initiated(slice, sps, timestamp) == m.prepared(slice, sps, timestamp));
}

/// Any other frame number is a gap: of no matter to an empty buffer, refused where the
/// sequence rules gaps out, and filled from the number that should have come.
pub proof fn other_numbers_are_gaps(m: MemoryState, slice: Slice, sps: Sps, timestamp: u64)
    requires
        sps.valid(),
        !slice.idr_pic_flag,
        slice.header.frame_num != m.prev_ref.frame_num,
        slice.header.frame_num != (m.prev_ref.frame_num + 1) % (pow2(
            (sps.log2_max_frame_num_minus4 + 4) as nat,
        ) as int),
    ensures
        ({
            let max = pow2((sps.log2_max_frame_num_minus4 + 4) as nat) as int;
            let prepared = m.prepared(slice, sps, timestamp);
            if m.dpb.entries.len() == 0 {
                prepared == m.initiated(slice, sps, timestamp)
            } else if !sps.gaps_in_frame_num_value_allowed_flag {
                prepared == (
                    m,
                    Err::<PictureData, DecodeError>(
                        DecodeError::FrameNumGap(slice.header.frame_num as u32),
                    ),
                )
            } else {
                match m.filled(
                    sps,
                    (m.prev_ref.frame_num + 1) % max,
                    slice.header.frame_num as int,
                    timestamp,
                ) {
                    (n, Ok(_)) => prepared == n.initiated(slice, sps, timestamp),
                    (n, Err(e)) => prepared == (n, Err::<PictureData, DecodeError>(e)),
                }
            }
        }),
{
}

/// Nothing that precedes the decoding of a picture changes the limits of the buffer.
pub proof fn preparing_keeps_the_limits(m: MemoryState, slice: Slice, sps: Sps, timestamp: u64)
    requires
        slice.header.frame_num < sps.spec_max_frame_num(),
    ensures
        ({
            let n = m.prepared(slice, sps, timestamp).0;
            &&& n.dpb.max_num_pics == m.dpb.max_num_pics
            &&& n.dpb.max_num_reorder_frames == m.dpb.max_num_reorder_frames
        }),
{
    let s = m.renumbering(slice.idr_pic_flag);
    let max = sps.spec_max_frame_num() as int;
    lemma_filling_keeps_limits(
        s,
        sps,
        (s.prev_ref.frame_num + 1) % max,
        slice.header.frame_num as int,
        timestamp,
    );
}

proof fn lemma_filling_keeps_limits(
    m: MemoryState,
    sps: Sps,
    unused: int,
    frame_num: int,
    timestamp: u64,
)
    requires
        0 <= unused < sps.spec_max_frame_num(),
        0 <= frame_num < sps.spec_max_frame_num(),
    ensures
        ({
            let n = m.filled(sps, unused, frame_num, timestamp).0;
            &&& n.dpb.max_num_pics == m.dpb.max_num_pics
            &&& n.dpb.max_num_reorder_frames == m.dpb.max_num_reorder_frames
        }),
    decreases
            state::frame_num_distance(
                unused,
                frame_num,
                sps.spec_max_frame_num() as int,
            ),
{
    if unused != frame_num {
        let max = sps.spec_max_frame_num();
        let invented = PictureData::non_existing(unused as u32, timestamp);
        match poc::ordered(m.prev_ref, m.prev, invented, sps) {
            Err(_) => {},
            Ok(pic) => {
                let marked = MemoryState {
                    prev: poc::prev_after(m.prev, invented),
                    dpb: m.dpb.renumbered(unused as u32, max as u32).slid(sps.max_num_ref_frames),
                    ..m
                };
                lemma_bumping_keeps_limits(marked.dpb.pruned(), pic);
                let bumped = marked.bumped(pic);
                if bumped.dpb.has_room() {
                    lemma_filling_keeps_limits(
                        bumped.stored(pic, None),
                        sps,
                        state::next_frame_num(unused, max as int),
                        frame_num,
                        timestamp,
                    );
                }
            },
        }
    }
}

////// Before and after a picture

/// An IDR picture finds the buffer empty: what waited is output, unless the picture says
/// that it is not. Any other finds the same pictures, numbered as it sees them.
pub proof fn pictures_find_the_buffer_in_order(
    m: MemoryState,
    slice: Slice,
    sps: Sps,
    timestamp: u64,
)
    ensures
        ({
            let (n, r) = m.initiated(slice, sps, timestamp);
            let coded = PictureData::of_slice(slice, sps, timestamp);
            let waiting = dpb::handles(dpb::output_sequence(m.dpb.entries));
            &&& r == poc::ordered(m.prev_ref, m.prev, coded, sps)
            &&& n.prev_ref == m.prev_ref
            &&& n.prev.frame_num == m.prev.frame_num
            &&& n.prev.has_mmco_5 == m.prev.has_mmco_5
            &&& n.prev.frame_num_offset == if m.prev.has_mmco_5 && (sps.pic_order_cnt_type == 1
                || sps.pic_order_cnt_type == 2) {
                0
            } else {
                m.prev.frame_num_offset
            }
            &&& n.max_long_term_frame_idx == m.max_long_term_frame_idx
            &&& n.pps == m.pps
            &&& r is Err ==> n.dpb == m.dpb && n.ready == m.ready
            &&& r is Ok && slice.idr_pic_flag ==> {
                &&& n.dpb.entries.len() == 0
                &&& slice.header.dec_ref_pic_marking.no_output_of_prior_pics_flag ==> n.ready
                    == m.ready
                &&& !slice.header.dec_ref_pic_marking.no_output_of_prior_pics_flag ==> n.ready
                    == m.ready + waiting
            }
            &&& r is Ok && !slice.idr_pic_flag ==> {
                &&& n.ready == m.ready
                &&& n.dpb == m.dpb.renumbered(
                    slice.header.frame_num as u32,
                    pow2((sps.log2_max_frame_num_minus4 + 4) as nat) as u32,
                )
            }
        }),
{
    let (n, r) = m.initiated(slice, sps, timestamp);
    if r is Ok && slice.idr_pic_flag {
        let emptied = m.dpb.with(Seq::empty());
        assert(emptied.renumbered(
            slice.header.frame_num as u32,
            sps.spec_max_frame_num() as u32,
        ).entries.len() == 0);
    }
}

/// Only references are marked, and the last of them is what the next picture counts
/// from.
pub proof fn references_are_remembered(
    m: MemoryState,
    pic: PictureData,
    marks: RefPicMarking,
    max_num_ref_frames: u8,
)
    ensures
        ({
            let (n, marked, r) = m.marked(pic, marks, max_num_ref_frames);
            let before = Marking {
                dpb: m.dpb,
                pic,
                max_long_term_frame_idx: m.max_long_term_frame_idx,
            };
            let (after, done) = marking::marked(before, marks, max_num_ref_frames);
            &&& pic.reference == Reference::Unused ==> n == m && marked == pic && r is Ok
            &&& pic.reference != Reference::Unused ==> {
                &&& n.dpb == after.dpb
                &&& n.max_long_term_frame_idx == after.max_long_term_frame_idx
                &&& marked == after.pic
                &&& r == done
                &&& r is Ok ==> {
                    &&& n.prev_ref.frame_num == marked.frame_num
                    &&& n.prev_ref.has_mmco_5 == marked.has_mmco_5
                    &&& n.prev_ref.top_field_order_cnt == marked.top_field_order_cnt
                    &&& n.prev_ref.pic_order_cnt_msb == marked.pic_order_cnt_msb
                    &&& n.prev_ref.pic_order_cnt_lsb == marked.pic_order_cnt_lsb
                    &&& n.prev_ref.field == marked.field
                }
                &&& r is Err ==> n.prev_ref == m.prev_ref
            }
            &&& n.prev == m.prev
            &&& n.ready == m.ready
            &&& n.pps == m.pps
            &&& n.sequence == m.sequence
        }),
{
}

/// How a picture is marked: an IDR picture drops every reference before it, operations
/// go before the window, and the window is for pictures without any.
pub proof fn marking_goes_by_the_kind_of_picture(
    s: Marking,
    marks: RefPicMarking,
    max_num_ref_frames: u8,
    i: int,
)
    requires
        0 <= i < s.dpb.entries.len(),
    ensures
        ({
            let (t, r) = marking::marked(s, marks, max_num_ref_frames);
            &&& s.pic.is_idr is Yes ==> {
                &&& r is Ok
                &&& t.dpb.entries.len() == s.dpb.entries.len()
                &&& t.dpb.entries[i].pic == (PictureData {
                    reference: Reference::Unused,
                    ..s.dpb.entries[i].pic
                })
                &&& t.dpb.entries[i].reference == s.dpb.entries[i].reference
                &&& t.pic.reference == if marks.long_term_reference_flag {
                    Reference::LongTerm
                } else {
                    Reference::ShortTerm
                }
                &&& marks.long_term_reference_flag ==> t.pic.long_term_frame_idx == 0
                &&& t.max_long_term_frame_idx == if marks.long_term_reference_flag {
                    MaxLongTermFrameIdx::Idx(0)
                } else {
                    MaxLongTermFrameIdx::NoLongTermFrameIndices
                }
            }
            &&& s.pic.is_idr is No && marks.adaptive_ref_pic_marking_mode_flag ==> t
                == mmco::all_operated(s, marks.inner@).0 && (r is Ok
                <==> mmco::all_operated(s, marks.inner@).1 is Ok)
            &&& s.pic.is_idr is No && !marks.adaptive_ref_pic_marking_mode_flag ==> {
                &&& r is Ok
                &&& t.dpb == s.dpb.slid(max_num_ref_frames)
                &&& t.pic == s.pic
                &&& t.max_long_term_frame_idx == s.max_long_term_frame_idx
            }
        }),
{
}

/// A decoded picture is stored where a buffer is free once those before it have left;
/// where none is, a reference fails and any other picture is output at once.
pub proof fn pictures_are_stored_or_output(m: MemoryState, pic: PictureData, handle: Handle)
    ensures
        ({
            let (n, r) = m.placed(pic, handle);
            let before = if pic.has_mmco_5 {
                m.dpb.with(Seq::empty())
            } else {
                m.dpb
            };
            let waiting = if pic.has_mmco_5 {
                dpb::handles(dpb::output_sequence(m.dpb.entries))
            } else {
                Seq::empty()
            };
            let left = dpb::left_after_bumping(before.pruned(), pic);
            let out = m.ready + waiting + dpb::handles(dpb::bumped(before.pruned(), pic));
            &&& n.prev.frame_num == pic.frame_num
            &&& n.prev.frame_num_offset == pic.frame_num_offset
            &&& n.prev.has_mmco_5 == pic.has_mmco_5
            &&& n.prev_ref == m.prev_ref
            &&& n.max_long_term_frame_idx == m.max_long_term_frame_idx
            &&& n.pps == m.pps
            &&& if left.entries.len() < m.dpb.max_num_pics {
                &&& r is Ok
                &&& n.ready == out
                &&& n.dpb.entries.drop_last() == left.entries
                &&& n.dpb.entries.len() == left.entries.len() + 1
                &&& n.dpb.entries.last() == DpbEntry {
                    pic: PictureData { needed_for_output: !pic.nonexisting, ..pic },
                    reference: Some(handle),
                }
            } else if pic.reference == Reference::Unused {
                &&& r is Ok
                &&& n.ready == out.push(handle)
                &&& n.dpb == left
            } else {
                &&& r == Err::<(), DecodeError>(DecodeError::StorePicture)
                &&& n.ready == out
                &&& n.dpb == left
            }
        }),
{
    let before = if pic.has_mmco_5 {
        m.dpb.with(Seq::empty())
    } else {
        m.dpb
    };
    lemma_bumping_keeps_limits(before.pruned(), pic);
    let left = dpb::left_after_bumping(before.pruned(), pic);
    let (n, r) = m.placed(pic, handle);
    if !pic.has_mmco_5 {
        assert(m.ready + Seq::<Handle>::empty() =~= m.ready);
    }
    if left.entries.len() < m.dpb.max_num_pics {
        assert(n.dpb.entries.drop_last() =~= left.entries);
    }
}

/// A picture is marked, then placed; one that cannot be marked is not placed.
pub proof fn pictures_are_marked_before_they_are_placed(
    m: MemoryState,
    pic: PictureData,
    handle: Handle,
    marks: RefPicMarking,
    max_num_ref_frames: u8,
)
    ensures
        ({
            let (n, marked, r) = m.marked(pic, marks, max_num_ref_frames);
            let finished = m.finished(pic, handle, marks, max_num_ref_frames);
            &&& r is Ok ==> finished == n.placed(marked, handle)
            &&& r is Err ==> finished == (n, r)
        }),
{
}

} // verus!
