//! What the decoder remembers between pictures, and how decoding a picture
//! changes it.

pub mod laws;

use std::collections::HashMap;
use std::rc::Rc;

use vstd::prelude::*;

use crate::decode::error::DecodeError;
use crate::decode::marking;
use crate::decode::marking::reference_pic_marking;
use crate::decode::poc;
use crate::decode::poc::{compute_pic_order_count, PrevPicInfo, PrevReferencePicInfo};
use crate::decode::sequence;
use crate::decode::sequence::{Sequence, SequenceState};
use crate::h264::dpb;
use crate::h264::dpb::mmco::Marking;
use crate::h264::dpb::{Dpb, DpbEntry, DpbState};
use crate::h264::picture::{Field, PictureData};
use crate::h264::syntax::{MaxLongTermFrameIdx, Pps, RefPicMarking, Slice, Sps};
use crate::surface::Handle;

verus! {

broadcast use vstd::std_specs::hash::group_hash_axioms;

/// The decoder's memory.
#[derive(Debug)]
pub struct Memory {
    pub dpb: Dpb,
    /// Cached variables from the previous reference picture.
    pub prev_ref_pic_info: PrevReferencePicInfo,
    /// Cached variables from the previous picture.
    pub prev_pic_info: PrevPicInfo,
    pub max_long_term_frame_idx: MaxLongTermFrameIdx,
    /// The active sequence, rebuilt when the SPS changes something the driver's
    /// side of it depends on.
    pub sequence: Option<Sequence>,
    /// Pictures bumped out of the DPB, in output order, awaiting delivery.
    pub ready: Vec<Handle>,
    /// The picture parameter sets the stream has sent.
    pub pps: HashMap<u8, Rc<Pps>>,
}

/// What a [`Memory`] stands for.
#[verifier::ext_equal]
pub struct MemoryState {
    pub dpb: DpbState,
    pub prev_ref: PrevReferencePicInfo,
    pub prev: PrevPicInfo,
    pub max_long_term_frame_idx: MaxLongTermFrameIdx,
    pub sequence: Option<SequenceState>,
    pub ready: Seq<Handle>,
    pub pps: Map<u8, Rc<Pps>>,
}

impl View for Memory {
    type V = MemoryState;

    open spec fn view(&self) -> MemoryState {
        MemoryState {
            dpb: self.dpb@,
            prev_ref: self.prev_ref_pic_info,
            prev: self.prev_pic_info,
            max_long_term_frame_idx: self.max_long_term_frame_idx,
            sequence: match self.sequence {
                Some(s) => Some(s@),
                None => None,
            },
            ready: self.ready@,
            pps: self.pps@,
        }
    }
}

/// The frame number after `frame_num`, where there are `max` of them.
pub open spec fn next_frame_num(frame_num: int, max: int) -> int {
    if frame_num + 1 == max {
        0
    } else {
        frame_num + 1
    }
}

/// Whether nothing is remembered of the pictures before the next one.
pub open spec fn starts_over(m: MemoryState) -> bool {
    &&& m.prev_ref.frame_num == 0
    &&& !m.prev_ref.has_mmco_5
    &&& m.prev_ref.top_field_order_cnt == 0
    &&& m.prev_ref.pic_order_cnt_msb == 0
    &&& m.prev_ref.pic_order_cnt_lsb == 0
    &&& m.prev_ref.field == Field::Frame
    &&& m.prev.frame_num == 0
    &&& m.prev.frame_num_offset == 0
    &&& !m.prev.has_mmco_5
    &&& m.max_long_term_frame_idx == MaxLongTermFrameIdx::NoLongTermFrameIndices
}

/// How many steps lead from the frame number `from` to `to`.
pub open spec fn frame_num_distance(from: int, to: int, max: int) -> int {
    if from <= to {
        to - from
    } else {
        to + max - from
    }
}

/// The reorder depth the decoded picture buffer works with under `sps`: none
/// where the sequence claims one deeper than the buffer.
pub open spec fn reorder_depth(sps: Sps) -> usize {
    if sps.max_num_order_frames > sps.max_dpb_frames {
        0
    } else {
        sps.max_num_order_frames as usize
    }
}

/// The pictures of the entries of `s` that nothing needs any more, in order, or of all
/// of them.
pub open spec fn let_go(s: Seq<DpbEntry>, all: bool) -> Seq<Handle>
    decreases s.len(),
{
    if s.len() == 0 {
        Seq::empty()
    } else {
        let rest = let_go(s.drop_last(), all);
        match s.last().reference {
            Some(h) if all || !dpb::in_use(s.last()) => rest.push(h),
            _ => rest,
        }
    }
}

impl MemoryState {
    /// The memory of a decoder that has seen nothing.
    pub open spec fn initial() -> MemoryState {
        MemoryState {
            dpb: DpbState::initial(),
            prev_ref: PrevReferencePicInfo::initial(),
            prev: PrevPicInfo::initial(),
            max_long_term_frame_idx: MaxLongTermFrameIdx::NoLongTermFrameIndices,
            sequence: None,
            ready: Seq::empty(),
            pps: Map::empty(),
        }
    }

    /// The decoder has let go of the pictures `gone`, in this order: the pool has the
    /// surfaces back that nothing else refers to.
    pub open spec fn freed(self, gone: Seq<Handle>) -> MemoryState {
        MemoryState {
            sequence: match self.sequence {
                Some(s) => Some(
                    SequenceState {
                        surfaces: sequence::returned(
                            s.surfaces,
                            gone,
                            self.dpb.entries,
                            self.ready,
                        ),
                        ..s
                    },
                ),
                None => None,
            },
            ..self
        }
    }

    /// Every picture still to be output has moved to the ready queue, in output
    /// order, and the buffer is empty.
    pub open spec fn drained(self) -> MemoryState {
        MemoryState {
            dpb: self.dpb.with(Seq::empty()),
            ready: self.ready + dpb::handles(dpb::output_sequence(self.dpb.entries)),
            ..self
        }.freed(let_go(self.dpb.entries, true))
    }

    /// The buffer is empty, and what was in it is not output.
    pub open spec fn discarded(self) -> MemoryState {
        MemoryState { dpb: self.dpb.with(Seq::empty()), ..self }.freed(
            let_go(self.dpb.entries, true),
        )
    }

    /// Drained, and awaiting a new IDR.
    pub open spec fn reset(self) -> MemoryState {
        MemoryState {
            prev_ref: PrevReferencePicInfo::initial(),
            prev: PrevPicInfo::initial(),
            max_long_term_frame_idx: MaxLongTermFrameIdx::NoLongTermFrameIndices,
            ..self.drained()
        }
    }

    /// The buffer's limits follow `sps` (C.4.5.3).
    pub open spec fn limited(self, sps: Sps) -> MemoryState {
        MemoryState {
            dpb: DpbState {
                max_num_pics: sps.max_dpb_frames,
                max_num_reorder_frames: reorder_depth(sps),
                ..self.dpb
            },
            ..self
        }
    }

    /// The active sequence shows what `sps` leaves of it.
    pub open spec fn cropped(self, sps: Sps) -> MemoryState {
        MemoryState {
            sequence: match self.sequence {
                Some(s) => Some(sequence::cropped(s, sps)),
                None => None,
            },
            ..self
        }
    }

    /// `pic` has pushed out the pictures it needs the room of (C.4.5.3).
    pub open spec fn bumped(self, pic: PictureData) -> MemoryState {
        MemoryState {
            dpb: dpb::left_after_bumping(self.dpb.pruned(), pic),
            ready: self.ready + dpb::handles(dpb::bumped(self.dpb.pruned(), pic)),
            ..self
        }.freed(let_go(self.dpb.entries, false))
    }

    /// `pic`, decoded into `reference`, is in the buffer.
    pub open spec fn stored(self, pic: PictureData, reference: Option<Handle>) -> MemoryState {
        MemoryState { dpb: self.dpb.stored(pic, reference), ..self }
    }

    /// 8.2.5.2: pictures invented for the frame numbers from `unused` up to, but
    /// not including, `frame_num`.
    pub open spec fn filled(self, sps: Sps, unused: int, frame_num: int, timestamp: u64) -> (
        MemoryState,
        Result<(), DecodeError>,
    )
        decreases frame_num_distance(unused, frame_num, sps.spec_max_frame_num() as int),
        when 0 <= unused < sps.spec_max_frame_num() && 0 <= frame_num < sps.spec_max_frame_num()
    {
        let max = sps.spec_max_frame_num();
        if unused == frame_num {
            (self, Ok(()))
        } else {
            let invented = PictureData::non_existing(unused as u32, timestamp);
            let ordering = MemoryState { prev: poc::prev_after(self.prev, invented), ..self };
            match poc::ordered(self.prev_ref, self.prev, invented, sps) {
                Err(e) => (ordering, Err(e)),
                Ok(pic) => {
                    let marked = MemoryState {
                        dpb: self.dpb.renumbered(unused as u32, max as u32).slid(
                            sps.max_num_ref_frames,
                        ),
                        ..ordering
                    };
                    let bumped = marked.bumped(pic);
                    if bumped.dpb.has_room() {
                        bumped.stored(pic, None).filled(
                            sps,
                            next_frame_num(unused, max as int),
                            frame_num,
                            timestamp,
                        )
                    } else {
                        (bumped, Err(DecodeError::StoreNonExisting))
                    }
                },
            }
        }
    }

    /// Whether `frame_num` neither repeats nor follows the previous reference
    /// picture's.
    pub open spec fn skips_to(self, frame_num: int, sps: Sps) -> bool {
        &&& frame_num != self.prev_ref.frame_num
        &&& frame_num != (self.prev_ref.frame_num + 1) % (sps.spec_max_frame_num() as int)
    }

    /// The frame numbers skipped on the way to `frame_num` have been made up for,
    /// unless the buffer holds nothing that would notice.
    pub open spec fn gap_handled(self, sps: Sps, frame_num: int, timestamp: u64) -> (
        MemoryState,
        Result<(), DecodeError>,
    ) {
        if self.dpb.entries.len() == 0 {
            (self, Ok(()))
        } else if !sps.gaps_in_frame_num_value_allowed_flag {
            (self, Err(DecodeError::FrameNumGap(frame_num as u32)))
        } else {
            self.filled(
                sps,
                (self.prev_ref.frame_num + 1) % (sps.spec_max_frame_num() as int),
                frame_num,
                timestamp,
            )
        }
    }

    /// The picture of `slice` has been worked out, and the buffer made ready for
    /// it: emptied for an IDR, its references numbered as the picture sees them.
    pub open spec fn initiated(self, slice: Slice, sps: Sps, timestamp: u64) -> (
        MemoryState,
        Result<PictureData, DecodeError>,
    ) {
        let coded = PictureData::of_slice(slice, sps, timestamp);
        let ordering = MemoryState { prev: poc::prev_after(self.prev, coded), ..self };
        match poc::ordered(self.prev_ref, self.prev, coded, sps) {
            Err(e) => (ordering, Err(e)),
            Ok(pic) => {
                let emptied = if !slice.idr_pic_flag {
                    ordering
                } else if slice.header.dec_ref_pic_marking.no_output_of_prior_pics_flag {
                    ordering.discarded()
                } else {
                    ordering.drained()
                };
                (
                    MemoryState {
                        dpb: emptied.dpb.renumbered(
                            slice.header.frame_num as u32,
                            sps.spec_max_frame_num() as u32,
                        ),
                        ..emptied
                    },
                    Ok(pic),
                )
            },
        }
    }

    /// An IDR picture restarts the frame numbers.
    pub open spec fn renumbering(self, idr: bool) -> MemoryState {
        if idr {
            MemoryState {
                prev_ref: PrevReferencePicInfo { frame_num: 0, ..self.prev_ref },
                ..self
            }
        } else {
            self
        }
    }

    /// Everything that precedes the decoding of the picture `slice` starts, under
    /// the sequence `sps`.
    pub open spec fn prepared(self, slice: Slice, sps: Sps, timestamp: u64) -> (
        MemoryState,
        Result<PictureData, DecodeError>,
    ) {
        let s = self.renumbering(slice.idr_pic_flag);
        let frame_num = slice.header.frame_num as int;
        if s.skips_to(frame_num, sps) {
            match s.gap_handled(sps, frame_num, timestamp) {
                (t, Ok(_)) => t.initiated(slice, sps, timestamp),
                (t, Err(e)) => (t, Err(e)),
            }
        } else {
            s.initiated(slice, sps, timestamp)
        }
    }

    /// The reference marking of a decoded picture, where it is a reference: what
    /// the memory becomes, and the picture.
    pub open spec fn marked(self, pic: PictureData, m: RefPicMarking, max_num_ref_frames: u8) -> (
        MemoryState,
        PictureData,
        Result<(), DecodeError>,
    ) {
        if pic.spec_is_ref() {
            let (t, r) = marking::marked(
                Marking {
                    dpb: self.dpb,
                    pic,
                    max_long_term_frame_idx: self.max_long_term_frame_idx,
                },
                m,
                max_num_ref_frames,
            );
            (
                MemoryState {
                    dpb: t.dpb,
                    max_long_term_frame_idx: t.max_long_term_frame_idx,
                    prev_ref: match r {
                        Ok(_) => PrevReferencePicInfo::of(t.pic),
                        Err(_) => self.prev_ref,
                    },
                    ..self
                },
                t.pic,
                r,
            )
        } else {
            (self, pic, Ok(()))
        }
    }

    /// A decoded and marked picture takes its place: in the buffer if it is a
    /// reference or there is room for it (C.4.5.1, C.4.5.2), in the ready queue
    /// otherwise.
    pub open spec fn placed(self, pic: PictureData, handle: Handle) -> (
        MemoryState,
        Result<(), DecodeError>,
    ) {
        let cached = MemoryState { prev: PrevPicInfo::of(pic), ..self };
        let emptied = if pic.has_mmco_5 {
            cached.drained()
        } else {
            cached
        };
        let bumped = emptied.bumped(pic);
        if bumped.dpb.has_room() {
            (bumped.stored(pic, Some(handle)), Ok(()))
        } else if pic.spec_is_ref() {
            (bumped, Err(DecodeError::StorePicture))
        } else {
            (MemoryState { ready: bumped.ready.push(handle), ..bumped }, Ok(()))
        }
    }

    /// Everything that follows the decoding of a picture.
    pub open spec fn finished(
        self,
        pic: PictureData,
        handle: Handle,
        m: RefPicMarking,
        max_num_ref_frames: u8,
    ) -> (MemoryState, Result<(), DecodeError>) {
        match self.marked(pic, m, max_num_ref_frames) {
            (t, marked, Ok(_)) => t.placed(marked, handle),
            (t, _, Err(e)) => (t, Err(e)),
        }
    }
}

/// Adds `more` to the end of `list`.
fn append(list: &mut Vec<Handle>, more: &Vec<Handle>)
    ensures
        final(list)@ == old(list)@ + more@,
{
    let ghost start = list@;
    let mut i: usize = 0;
    while i < more.len()
        invariant
            i <= more@.len(),
            list@ == start + more@.take(i as int),
        decreases more@.len() - i,
    {
        list.push(more[i]);
        assert(more@.take(i as int + 1) =~= more@.take(i as int).push(more@[i as int]));
        i = i + 1;
    }
    assert(more@.take(i as int) =~= more@);
}

/// Collects the pictures of the entries of `dpb` that nothing needs any more, or of all
/// of them.
fn let_go_of(dpb: &Dpb, all: bool) -> (gone: Vec<Handle>)
    ensures
        gone@ == let_go(dpb@.entries, all),
{
    let entries = dpb.entries();
    let mut gone: Vec<Handle> = Vec::new();
    let mut i: usize = 0;
    while i < entries.len()
        invariant
            i <= entries@.len(),
            entries@ == dpb@.entries,
            gone@ == let_go(entries@.take(i as int), all),
        decreases entries@.len() - i,
    {
        proof {
            assert(entries@.take(i as int + 1).drop_last() =~= entries@.take(i as int));
        }
        let e = entries[i];
        if all || !(e.pic.needed_for_output || e.pic.is_ref()) {
            match e.reference {
                Some(h) => gone.push(h),
                None => {},
            }
        }
        i = i + 1;
    }
    assert(entries@.take(i as int) =~= entries@);
    gone
}

impl Memory {
    /// Whether the active sequence, if any, can be decoded and shown.
    pub open spec fn fit(self) -> bool {
        self.sequence matches Some(s) ==> s.wf()
    }

    /// Whether there is an active sequence where `before` has one, fit if that is.
    pub open spec fn follows(self, before: Memory) -> bool {
        &&& self.sequence is Some <==> before.sequence is Some
        &&& before.fit() ==> self.fit()
    }

    /// Gives the pool the surfaces of the pictures `gone` back that nothing else refers
    /// to.
    pub fn free(&mut self, gone: &Vec<Handle>)
        ensures
            final(self)@ == old(self)@.freed(gone@),
            final(self).follows(*old(self)),
            final(self).pps == old(self).pps,
    {
        match &mut self.sequence {
            Some(s) => {
                s.pool.give_back(gone, &self.dpb, &self.ready);
            },
            None => {},
        }
    }

    /// Returns the memory of a decoder that has seen nothing.
    pub fn new() -> (m: Memory)
        ensures
            m@ == MemoryState::initial(),
            m@.dpb.entries.len() == 0,
            m@.dpb.max_num_pics == 0,
            m@.dpb.max_num_reorder_frames == 0,
            m@.max_long_term_frame_idx == MaxLongTermFrameIdx::NoLongTermFrameIndices,
            m@.sequence is None,
            m@.ready.len() == 0,
            m@.pps.dom() =~= Set::empty(),
            starts_over(m@),
    {
        let m = Memory {
            dpb: Dpb::new(),
            prev_ref_pic_info: PrevReferencePicInfo::default(),
            prev_pic_info: PrevPicInfo::default(),
            max_long_term_frame_idx: MaxLongTermFrameIdx::NoLongTermFrameIndices,
            sequence: None,
            ready: Vec::new(),
            pps: HashMap::new(),
        };
        m
    }

    /// Moves everything left in the DPB to the ready queue.
    pub fn drain(&mut self)
        ensures
            final(self)@ == old(self)@.drained(),
            final(self)@.dpb.entries.len() == 0,
            final(self)@.ready == old(self)@.ready + dpb::handles(
                dpb::output_sequence(old(self)@.dpb.entries),
            ),
            final(self).follows(*old(self)),
            final(self).pps == old(self).pps,
    {
        let gone = let_go_of(&self.dpb, true);
        let out = self.dpb.drain();
        append(&mut self.ready, &out);
        self.free(&gone);
    }

    /// Drops everything left in the DPB.
    fn discard(&mut self)
        ensures
            final(self)@ == old(self)@.discarded(),
            final(self)@.dpb.entries.len() == 0,
            final(self)@.ready == old(self)@.ready,
            final(self).follows(*old(self)),
            final(self).pps == old(self).pps,
    {
        let gone = let_go_of(&self.dpb, true);
        self.dpb.clear();
        self.free(&gone);
    }

    /// Moves the DPB to the ready queue and awaits a new IDR.
    pub fn reset(&mut self)
        ensures
            final(self)@ == old(self)@.reset(),
            final(self)@.dpb.entries.len() == 0,
            final(self)@.ready == old(self)@.ready + dpb::handles(
                dpb::output_sequence(old(self)@.dpb.entries),
            ),
            starts_over(final(self)@),
            final(self).follows(*old(self)),
            final(self).pps == old(self).pps,
    {
        self.drain();
        self.prev_ref_pic_info = PrevReferencePicInfo::default();
        self.prev_pic_info = PrevPicInfo::default();
        self.max_long_term_frame_idx = MaxLongTermFrameIdx::NoLongTermFrameIndices;
    }

    /// Applies the limits of `sps` to the DPB.
    pub fn apply_limits(&mut self, sps: &Sps)
        ensures
            final(self)@ == old(self)@.limited(*sps),
            final(self)@.dpb.max_num_pics == sps.max_dpb_frames,
            final(self)@.dpb.max_num_reorder_frames == if sps.max_num_order_frames
                <= sps.max_dpb_frames {
                sps.max_num_order_frames as int
            } else {
                0
            },
            final(self)@.dpb.entries == old(self)@.dpb.entries,
            final(self)@.ready == old(self)@.ready,
            final(self).follows(*old(self)),
            final(self).pps == old(self).pps,
    {
        let max_num_order_frames: usize = sps.max_num_order_frames as usize;
        let max_num_reorder_frames: usize = if max_num_order_frames > sps.max_dpb_frames {
            0
        } else {
            max_num_order_frames
        };
        self.dpb.set_limits(sps.max_dpb_frames, max_num_reorder_frames);
    }

    /// Lets `pic` push out the pictures it needs the room of.
    fn bump(&mut self, pic: &PictureData)
        ensures
            final(self)@ == old(self)@.bumped(*pic),
            final(self).follows(*old(self)),
            final(self).pps == old(self).pps,
    {
        let gone = let_go_of(&self.dpb, false);
        let out = self.dpb.bump_as_needed(pic);
        append(&mut self.ready, &out);
        self.free(&gone);
    }

    /// 8.2.5.2: invents the pictures for the frame numbers a lossy stream skipped,
    /// so reference marking keeps working.
    pub fn handle_frame_num_gap(&mut self, sps: &Sps, frame_num: u32, timestamp: u64) -> (r: Result<
        (),
        DecodeError,
    >)
        requires
            sps.valid(),
            frame_num < sps.spec_max_frame_num(),
        ensures
            (final(self)@, r) == old(self)@.gap_handled(*sps, frame_num as int, timestamp),
            final(self).follows(*old(self)),
            final(self).pps == old(self).pps,
    {
        if self.dpb.is_empty() {
            return Ok(());
        }
        if !sps.gaps_in_frame_num_value_allowed_flag {
            return Err(DecodeError::FrameNumGap(frame_num));
        }
        let max_frame_num: u32 = sps.max_frame_num();
        let mut unused: u32 = ((self.prev_ref_pic_info.frame_num as u64 + 1) % (max_frame_num
            as u64)) as u32;
        let ghost end = self@.filled(*sps, unused as int, frame_num as int, timestamp);
        while unused != frame_num
            invariant
                sps.valid(),
                max_frame_num == sps.spec_max_frame_num(),
                unused < max_frame_num,
                frame_num < max_frame_num,
                end == old(self)@.gap_handled(*sps, frame_num as int, timestamp),
                self@.filled(*sps, unused as int, frame_num as int, timestamp) == end,
                self.follows(*old(self)),
                self.pps == old(self).pps,
            decreases
                    frame_num_distance(unused as int, frame_num as int, max_frame_num as int),
        {
            let mut pic = PictureData::new_non_existing(unused, timestamp);
            match compute_pic_order_count(
                &self.prev_ref_pic_info,
                &mut self.prev_pic_info,
                &mut pic,
                sps,
            ) {
                Ok(_) => {},
                Err(e) => {
                    return Err(e);
                },
            }
            self.dpb.update_pic_nums(unused, max_frame_num);
            self.dpb.sliding_window_marking(sps.max_num_ref_frames);
            self.bump(&pic);
            if !self.dpb.store_picture(pic, None) {
                return Err(DecodeError::StoreNonExisting);
            }
            unused = if unused + 1 == max_frame_num {
                0
            } else {
                unused + 1
            };
        }
        Ok(())
    }

    /// Builds the picture for `slice` and makes room for it in the DPB.
    pub fn init_current_pic(&mut self, slice: &Slice, sps: &Sps, timestamp: u64) -> (r: Result<
        PictureData,
        DecodeError,
    >)
        requires
            sps.valid(),
        ensures
            (final(self)@, r) == old(self)@.initiated(*slice, *sps, timestamp),
            final(self).follows(*old(self)),
            final(self).pps == old(self).pps,
    {
        let mut pic = PictureData::new_from_slice(slice, sps, timestamp);
        match compute_pic_order_count(
            &self.prev_ref_pic_info,
            &mut self.prev_pic_info,
            &mut pic,
            sps,
        ) {
            Ok(_) => {},
            Err(e) => {
                return Err(e);
            },
        }
        if pic.idr() {
            // C.4.5.3 clause 2: an IDR bumps the whole DPB, unless
            // no_output_of_prior_pics_flag says to discard it instead (C.4.4).
            if slice.header.dec_ref_pic_marking.no_output_of_prior_pics_flag {
                self.discard();
            } else {
                self.drain();
            }
        }
        self.dpb.update_pic_nums(slice.header.frame_num as u32, sps.max_frame_num());
        Ok(pic)
    }

    /// Does everything that precedes the decoding of the picture `slice` starts.
    pub fn prepare(&mut self, slice: &Slice, sps: &Sps, timestamp: u64) -> (r: Result<
        PictureData,
        DecodeError,
    >)
        requires
            sps.valid(),
            slice.header.frame_num < sps.spec_max_frame_num(),
        ensures
            (final(self)@, r) == old(self)@.prepared(*slice, *sps, timestamp),
            final(self).follows(*old(self)),
            final(self).pps == old(self).pps,
    {
        if slice.idr_pic_flag {
            self.prev_ref_pic_info.frame_num = 0;
        }
        let frame_num: u32 = slice.header.frame_num as u32;
        let max_frame_num: u32 = sps.max_frame_num();
        let next: u64 = (self.prev_ref_pic_info.frame_num as u64 + 1) % (max_frame_num as u64);
        if frame_num != self.prev_ref_pic_info.frame_num && frame_num as u64 != next {
            match self.handle_frame_num_gap(sps, frame_num, timestamp) {
                Ok(_) => {},
                Err(e) => {
                    return Err(e);
                },
            }
        }
        self.init_current_pic(slice, sps, timestamp)
    }

    /// Runs the reference marking and bumping H.264 calls for once
    /// `pic`, coded with `m`, has been decoded into `handle`.
    pub fn finish(
        &mut self,
        pic: PictureData,
        handle: Handle,
        m: &RefPicMarking,
        max_num_ref_frames: u8,
    ) -> (r: Result<(), DecodeError>)
        ensures
            (final(self)@, r) == old(self)@.finished(pic, handle, *m, max_num_ref_frames),
            final(self).follows(*old(self)),
            final(self).pps == old(self).pps,
    {
        let mut pic = pic;
        if pic.is_ref() {
            match reference_pic_marking(
                &mut self.dpb,
                &mut self.max_long_term_frame_idx,
                &mut pic,
                m,
                max_num_ref_frames,
            ) {
                Ok(_) => {},
                Err(e) => {
                    return Err(e);
                },
            }
            self.prev_ref_pic_info.fill(&pic);
        }
        self.prev_pic_info.fill(&pic);

        // C.4.5.3 clause 3: a picture with memory_management_control_operation
        // equal to 5 empties the DPB.
        if pic.has_mmco_5 {
            self.drain();
        }
        // C.4.5.3 clauses 1, 4, 5, and 6.

        self.bump(&pic);

        // C.4.5.1: a reference picture is bumped until a frame buffer is free,
        // then stored. C.4.5.2: a non-reference picture is stored if a buffer is
        // free after bumping, and output directly otherwise.
        if pic.is_ref() || self.dpb.has_empty_frame_buffer() {
            if !self.dpb.store_picture(pic, Some(handle)) {
                return Err(DecodeError::StorePicture);
            }
        } else {
            self.ready.push(handle);
        }
        Ok(())
    }
}

} // verus!
