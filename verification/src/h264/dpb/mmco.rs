//! The adaptive memory management control operations (8.2.5.4).

use vstd::prelude::*;

use crate::h264::dpb;
use crate::h264::dpb::{Dpb, DpbEntry, DpbState, MmcoError};
use crate::h264::picture::{PictureData, Reference};
use crate::h264::syntax::{MaxLongTermFrameIdx, RefPicMarkingInner};

verus! {

/// What reference marking works on: the buffer, the picture just decoded, and
/// the largest long-term frame index in force.
#[verifier::ext_equal]
pub struct Marking {
    pub dpb: DpbState,
    pub pic: PictureData,
    pub max_long_term_frame_idx: MaxLongTermFrameIdx,
}

/// Operation 1: a short-term reference becomes unused.
pub open spec fn op_1(d: DpbState, pic: PictureData, m: RefPicMarkingInner) -> Result<
    DpbState,
    MmcoError,
> {
    match dpb::short_term_numbered(d.entries, dpb::pic_num_x(pic, m)) {
        Some(i) => Ok(d.remarked(i, Reference::Unused)),
        None => Err(MmcoError::NoShortTermPic),
    }
}

/// Operation 2: a long-term reference becomes unused.
pub open spec fn op_2(d: DpbState, m: RefPicMarkingInner) -> Result<DpbState, MmcoError> {
    match dpb::long_term_numbered(d.entries, m.long_term_pic_num) {
        Some(i) => Ok(d.remarked(i, Reference::Unused)),
        None => Err(MmcoError::NoLongTermPic),
    }
}

/// `d` with entry `i` turned into the long-term reference of frame index `idx`.
pub open spec fn made_long_term(d: DpbState, i: int, idx: u32) -> DpbState {
    d.with(
        d.entries.update(
            i,
            DpbEntry {
                pic: PictureData {
                    reference: Reference::LongTerm,
                    long_term_frame_idx: idx,
                    ..d.entries[i].pic
                },
                ..d.entries[i]
            },
        ),
    )
}

/// Operation 3: a short-term reference becomes a long-term one, taking its frame
/// index from whoever held it.
pub open spec fn op_3(d: DpbState, pic: PictureData, m: RefPicMarkingInner) -> Result<
    DpbState,
    MmcoError,
> {
    match dpb::short_term_numbered(d.entries, dpb::pic_num_x(pic, m)) {
        Some(i) => if d.entries[i].pic.nonexisting {
            Err(MmcoError::ExpectedExisting)
        } else {
            Ok(made_long_term(d.index_freed(m.long_term_frame_idx), i, m.long_term_frame_idx))
        },
        None => Err(MmcoError::NoShortTermPic),
    }
}

/// Whether operation 5 can take the order counts of `pic` relative to their minimum.
pub open spec fn can_restart(pic: PictureData) -> bool {
    &&& i32::MIN <= pic.top_field_order_cnt - pic.pic_order_cnt <= i32::MAX
    &&& i32::MIN <= pic.bottom_field_order_cnt - pic.pic_order_cnt <= i32::MAX
}

/// Carries out the operation `m`.
pub open spec fn operated(s: Marking, m: RefPicMarkingInner) -> Result<Marking, MmcoError> {
    let op = m.memory_management_control_operation;
    if op == 1 {
        match op_1(s.dpb, s.pic, m) {
            Ok(dpb) => Ok(Marking { dpb, ..s }),
            Err(e) => Err(e),
        }
    } else if op == 2 {
        match op_2(s.dpb, m) {
            Ok(dpb) => Ok(Marking { dpb, ..s }),
            Err(e) => Err(e),
        }
    } else if op == 3 {
        match op_3(s.dpb, s.pic, m) {
            Ok(dpb) => Ok(Marking { dpb, ..s }),
            Err(e) => Err(e),
        }
    } else if op == 4 {
        Ok(
            Marking {
                dpb: dpb::all_capped(s.dpb, m.max_long_term_frame_idx),
                max_long_term_frame_idx: m.max_long_term_frame_idx,
                ..s
            },
        )
    } else if op == 5 {
        if can_restart(s.pic) {
            Ok(
                Marking {
                    dpb: s.dpb.all_unused(),
                    pic: dpb::restarted(s.pic),
                    max_long_term_frame_idx: MaxLongTermFrameIdx::NoLongTermFrameIndices,
                },
            )
        } else {
            Err(MmcoError::Overflow)
        }
    } else if op == 6 {
        Ok(
            Marking {
                dpb: s.dpb.index_freed(m.long_term_frame_idx),
                pic: PictureData {
                    reference: Reference::LongTerm,
                    long_term_frame_idx: m.long_term_frame_idx,
                    ..s.pic
                },
                ..s
            },
        )
    } else {
        Err(MmcoError::UnknownMmco(op))
    }
}

/// Carries out the operations `ops` in order, up to the first that is zero, or
/// up to one that fails: then what came before it stands.
pub open spec fn all_operated(s: Marking, ops: Seq<RefPicMarkingInner>) -> (
    Marking,
    Result<(), MmcoError>,
)
    decreases ops.len(),
{
    if ops.len() == 0 || ops[0].memory_management_control_operation == 0 {
        (s, Ok(()))
    } else {
        match operated(s, ops[0]) {
            Ok(t) => all_operated(t, ops.drop_first()),
            Err(e) => (s, Err(e)),
        }
    }
}

impl Dpb {
    /// Marks entry `i` as `reference`.
    fn remark(&mut self, i: usize, reference: Reference)
        requires
            i < old(self)@.entries.len(),
        ensures
            final(self)@ == old(self)@.remarked(i as int, reference),
    {
        let mut e = self.entries[i];
        e.pic.reference = reference;
        self.entries[i] = e;
        assert(self@ =~= old(self)@.remarked(i as int, reference));
    }

    /// Takes the long-term frame index `idx` from whoever holds it.
    fn free_index(&mut self, idx: u32)
        ensures
            final(self)@ == old(self)@.index_freed(idx),
    {
        let ghost start = self.entries@;
        let mut i: usize = 0;
        while i < self.entries.len()
            invariant
                i <= self.entries@.len() == start.len(),
                start == old(self)@.entries,
                self.max_num_pics == old(self)@.max_num_pics,
                self.max_num_reorder_frames == old(self)@.max_num_reorder_frames,
                forall|k: int| 0 <= k < i ==> self.entries@[k] == dpb::index_freed(start[k], idx),
                forall|k: int| i <= k < start.len() ==> self.entries@[k] == start[k],
            decreases self.entries@.len() - i,
        {
            let mut e = self.entries[i];
            if e.pic.reference == Reference::LongTerm && e.pic.long_term_frame_idx == idx {
                e.pic.reference = Reference::Unused;
                self.entries[i] = e;
            }
            i = i + 1;
        }
        assert(self@ =~= old(self)@.index_freed(idx));
    }

    /// Operation 1: marks a short-term reference as unused.
    pub fn mmco_op_1(&mut self, pic: &PictureData, m: &RefPicMarkingInner) -> (r: Result<
        (),
        MmcoError,
    >)
        ensures
            match op_1(old(self)@, *pic, *m) {
                Ok(d) => r == Ok::<(), MmcoError>(()) && final(self)@ == d,
                Err(e) => r == Err::<(), MmcoError>(e) && final(self)@ == old(self)@,
            },
    {
        let x: i64 = pic.pic_num as i64 - (m.difference_of_pic_nums_minus1 as i64 + 1);
        match self.find_short_term_with_pic_num(x) {
            Some(i) => {
                self.remark(i, Reference::Unused);
                Ok(())
            },
            None => Err(MmcoError::NoShortTermPic),
        }
    }

    /// Operation 2: marks a long-term reference as unused.
    pub fn mmco_op_2(&mut self, m: &RefPicMarkingInner) -> (r: Result<(), MmcoError>)
        ensures
            match op_2(old(self)@, *m) {
                Ok(d) => r == Ok::<(), MmcoError>(()) && final(self)@ == d,
                Err(e) => r == Err::<(), MmcoError>(e) && final(self)@ == old(self)@,
            },
    {
        match self.find_long_term_with_long_term_pic_num(m.long_term_pic_num) {
            Some(i) => {
                self.remark(i, Reference::Unused);
                Ok(())
            },
            None => Err(MmcoError::NoLongTermPic),
        }
    }

    /// Operation 3: turns a short-term reference into a long-term one.
    pub fn mmco_op_3(&mut self, pic: &PictureData, m: &RefPicMarkingInner) -> (r: Result<
        (),
        MmcoError,
    >)
        ensures
            match op_3(old(self)@, *pic, *m) {
                Ok(d) => r == Ok::<(), MmcoError>(()) && final(self)@ == d,
                Err(e) => r == Err::<(), MmcoError>(e) && final(self)@ == old(self)@,
            },
    {
        let x: i64 = pic.pic_num as i64 - (m.difference_of_pic_nums_minus1 as i64 + 1);
        match self.find_short_term_with_pic_num(x) {
            Some(i) => {
                if self.entries[i].pic.nonexisting {
                    return Err(MmcoError::ExpectedExisting);
                }
                self.free_index(m.long_term_frame_idx);
                let ghost freed = self@;
                let mut e = self.entries[i];
                e.pic.reference = Reference::LongTerm;
                e.pic.long_term_frame_idx = m.long_term_frame_idx;
                self.entries[i] = e;
                assert(self@ =~= made_long_term(freed, i as int, m.long_term_frame_idx));
                Ok(())
            },
            None => Err(MmcoError::NoShortTermPic),
        }
    }

    /// Operation 4: marks every long-term reference of a frame index above the
    /// new limit as unused, and returns that limit.
    pub fn mmco_op_4(&mut self, m: &RefPicMarkingInner) -> (max: MaxLongTermFrameIdx)
        ensures
            max == m.max_long_term_frame_idx,
            final(self)@ == dpb::all_capped(old(self)@, max),
    {
        let max = m.max_long_term_frame_idx;
        let ghost start = self.entries@;
        let mut i: usize = 0;
        while i < self.entries.len()
            invariant
                i <= self.entries@.len() == start.len(),
                start == old(self)@.entries,
                self.max_num_pics == old(self)@.max_num_pics,
                self.max_num_reorder_frames == old(self)@.max_num_reorder_frames,
                forall|k: int| 0 <= k < i ==> self.entries@[k] == dpb::capped(start[k], max),
                forall|k: int| i <= k < start.len() ==> self.entries@[k] == start[k],
            decreases self.entries@.len() - i,
        {
            let mut e = self.entries[i];
            let above = match max {
                MaxLongTermFrameIdx::NoLongTermFrameIndices => true,
                MaxLongTermFrameIdx::Idx(limit) => e.pic.long_term_frame_idx > limit,
            };
            if e.pic.reference == Reference::LongTerm && above {
                e.pic.reference = Reference::Unused;
                self.entries[i] = e;
            }
            i = i + 1;
        }
        assert(self@ =~= dpb::all_capped(old(self)@, max));
        max
    }

    /// Operation 5: marks every reference as unused and restarts the frame
    /// numbers and order counts at `pic`.
    pub fn mmco_op_5(&mut self, pic: &mut PictureData) -> (r: Result<
        MaxLongTermFrameIdx,
        MmcoError,
    >)
        ensures
            if can_restart(*old(pic)) {
                &&& r == Ok::<MaxLongTermFrameIdx, MmcoError>(
                    MaxLongTermFrameIdx::NoLongTermFrameIndices,
                )
                &&& final(self)@ == old(self)@.all_unused()
                &&& *final(pic) == dpb::restarted(*old(pic))
            } else {
                &&& r == Err::<MaxLongTermFrameIdx, MmcoError>(MmcoError::Overflow)
                &&& final(self)@ == old(self)@
                &&& *final(pic) == *old(pic)
            },
    {
        let top: i64 = pic.top_field_order_cnt as i64 - pic.pic_order_cnt as i64;
        let bottom: i64 = pic.bottom_field_order_cnt as i64 - pic.pic_order_cnt as i64;
        if top < i32::MIN as i64 || top > i32::MAX as i64 || bottom < i32::MIN as i64 || bottom
            > i32::MAX as i64 {
            return Err(MmcoError::Overflow);
        }
        self.mark_all_as_unused_for_ref();
        pic.has_mmco_5 = true;
        pic.frame_num = 0;
        pic.top_field_order_cnt = top as i32;
        pic.bottom_field_order_cnt = bottom as i32;
        pic.pic_order_cnt = 0;
        Ok(MaxLongTermFrameIdx::NoLongTermFrameIndices)
    }

    /// Operation 6: marks the current picture as a long-term reference.
    pub fn mmco_op_6(&mut self, pic: &mut PictureData, m: &RefPicMarkingInner)
        ensures
            final(self)@ == old(self)@.index_freed(m.long_term_frame_idx),
            *final(pic) == (PictureData {
                reference: Reference::LongTerm,
                long_term_frame_idx: m.long_term_frame_idx,
                ..*old(pic)
            }),
    {
        self.free_index(m.long_term_frame_idx);
        pic.reference = Reference::LongTerm;
        pic.long_term_frame_idx = m.long_term_frame_idx;
    }
}

} // verus!
