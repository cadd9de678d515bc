//! Reference picture marking (8.2.5).

use vstd::prelude::*;

use crate::decode::error::DecodeError;
use crate::h264::dpb::mmco;
use crate::h264::dpb::mmco::Marking;
use crate::h264::dpb::{Dpb, MmcoError};
use crate::h264::picture::{PictureData, Reference};
use crate::h264::syntax::{MaxLongTermFrameIdx, RefPicMarking, RefPicMarkingInner};

verus! {

/// What marking makes of `s` for an IDR picture: nothing before it is a
/// reference, and it is the first one, long-term if it says so.
pub open spec fn idr_marked(s: Marking, long_term: bool) -> Marking {
    Marking {
        dpb: s.dpb.all_unused(),
        pic: if long_term {
            PictureData { reference: Reference::LongTerm, long_term_frame_idx: 0, ..s.pic }
        } else {
            PictureData { reference: Reference::ShortTerm, ..s.pic }
        },
        max_long_term_frame_idx: if long_term {
            MaxLongTermFrameIdx::Idx(0)
        } else {
            MaxLongTermFrameIdx::NoLongTermFrameIndices
        },
    }
}

/// 8.2.5.1: what marking makes of `s` once its picture, coded with `m`, is
/// decoded. Where an operation fails, those before it stand.
pub open spec fn marked(s: Marking, m: RefPicMarking, max_num_ref_frames: u8) -> (
    Marking,
    Result<(), DecodeError>,
) {
    if s.pic.spec_idr() {
        (idr_marked(s, m.long_term_reference_flag), Ok(()))
    } else if m.adaptive_ref_pic_marking_mode_flag {
        let (t, r) = mmco::all_operated(s, m.inner@);
        (
            t,
            match r {
                Ok(_) => Ok(()),
                Err(e) => Err(DecodeError::Mmco(e)),
            },
        )
    } else {
        (Marking { dpb: s.dpb.slid(max_num_ref_frames), ..s }, Ok(()))
    }
}

/// The state marking works on.
pub open spec fn marking_of(dpb: Dpb, pic: PictureData, max: MaxLongTermFrameIdx) -> Marking {
    Marking { dpb: dpb@, pic, max_long_term_frame_idx: max }
}

/// Carries out one memory management control operation.
fn operate(
    dpb: &mut Dpb,
    max: &mut MaxLongTermFrameIdx,
    pic: &mut PictureData,
    m: &RefPicMarkingInner,
) -> (r: Result<(), MmcoError>)
    ensures
        match mmco::operated(marking_of(*old(dpb), *old(pic), *old(max)), *m) {
            Ok(t) => r == Ok::<(), MmcoError>(()) && marking_of(*final(dpb), *final(pic), *final(max))
                == t,
            Err(e) => r == Err::<(), MmcoError>(e) && marking_of(
                *final(dpb),
                *final(pic),
                *final(max),
            ) == marking_of(*old(dpb), *old(pic), *old(max)),
        },
{
    match m.memory_management_control_operation {
        1 => dpb.mmco_op_1(pic, m),
        2 => dpb.mmco_op_2(m),
        3 => dpb.mmco_op_3(pic, m),
        4 => {
            *max = dpb.mmco_op_4(m);
            Ok(())
        },
        5 => match dpb.mmco_op_5(pic) {
            Ok(none) => {
                *max = none;
                Ok(())
            },
            Err(e) => Err(e),
        },
        6 => {
            dpb.mmco_op_6(pic, m);
            Ok(())
        },
        other => Err(MmcoError::UnknownMmco(other)),
    }
}

/// 8.2.5.4: runs the picture's adaptive memory management control operations.
pub fn handle_memory_management_ops(
    dpb: &mut Dpb,
    max: &mut MaxLongTermFrameIdx,
    pic: &mut PictureData,
    ops: &Vec<RefPicMarkingInner>,
) -> (r: Result<(), MmcoError>)
    ensures
        (marking_of(*final(dpb), *final(pic), *final(max)), r) == mmco::all_operated(
            marking_of(*old(dpb), *old(pic), *old(max)),
            ops@,
        ),
{
    let ghost start = marking_of(*dpb, *pic, *max);
    let mut i: usize = 0;
    assert(ops@.skip(0) =~= ops@);
    while i < ops.len()
        invariant
            i <= ops@.len(),
            start == marking_of(*old(dpb), *old(pic), *old(max)),
            mmco::all_operated(marking_of(*dpb, *pic, *max), ops@.skip(i as int))
                == mmco::all_operated(start, ops@),
        decreases ops@.len() - i,
    {
        let m = &ops[i];
        assert(ops@.skip(i as int)[0] == *m);
        assert(ops@.skip(i as int).drop_first() =~= ops@.skip(i as int + 1));
        if m.memory_management_control_operation == 0 {
            return Ok(());
        }
        match operate(dpb, max, pic, m) {
            Ok(_) => {},
            Err(e) => {
                return Err(e);
            },
        }
        i = i + 1;
    }
    Ok(())
}

/// 8.2.5.1: marks the decoded picture, and those before it, as used or unused
/// for reference.
pub fn reference_pic_marking(
    dpb: &mut Dpb,
    max: &mut MaxLongTermFrameIdx,
    pic: &mut PictureData,
    m: &RefPicMarking,
    max_num_ref_frames: u8,
) -> (r: Result<(), DecodeError>)
    ensures
        (marking_of(*final(dpb), *final(pic), *final(max)), r) == marked(
            marking_of(*old(dpb), *old(pic), *old(max)),
            *m,
            max_num_ref_frames,
        ),
        old(pic).is_idr is Yes ==> {
            let (s, t) = (old(dpb)@.entries, final(dpb)@.entries);
            &&& r is Ok
            &&& t.len() == s.len()
            &&& forall|i: int|
                0 <= i < t.len() ==> (#[trigger] t[i]).pic.reference == Reference::Unused
            &&& final(pic).reference == if m.long_term_reference_flag {
                Reference::LongTerm
            } else {
                Reference::ShortTerm
            }
            &&& m.long_term_reference_flag ==> final(pic).long_term_frame_idx == 0 && *final(max)
                == MaxLongTermFrameIdx::Idx(0)
            &&& !m.long_term_reference_flag ==> *final(max)
                == MaxLongTermFrameIdx::NoLongTermFrameIndices
        },
        old(pic).is_idr is No && !m.adaptive_ref_pic_marking_mode_flag ==> {
            &&& r is Ok
            &&& final(dpb)@ == old(dpb)@.slid(max_num_ref_frames)
            &&& *final(pic) == *old(pic)
            &&& *final(max) == *old(max)
        },
        old(pic).is_idr is No && m.adaptive_ref_pic_marking_mode_flag ==> {
            let (t, done) = mmco::all_operated(
                marking_of(*old(dpb), *old(pic), *old(max)),
                m.inner@,
            );
            &&& final(dpb)@ == t.dpb
            &&& *final(pic) == t.pic
            &&& *final(max) == t.max_long_term_frame_idx
            &&& r == match done {
                Ok(_) => Ok::<(), DecodeError>(()),
                Err(e) => Err::<(), DecodeError>(DecodeError::Mmco(e)),
            }
        },
{
    if pic.idr() {
        dpb.mark_all_as_unused_for_ref();
        if m.long_term_reference_flag {
            pic.reference = Reference::LongTerm;
            pic.long_term_frame_idx = 0;
            *max = MaxLongTermFrameIdx::Idx(0);
        } else {
            pic.reference = Reference::ShortTerm;
            *max = MaxLongTermFrameIdx::NoLongTermFrameIndices;
        }
        return Ok(());
    }
    if m.adaptive_ref_pic_marking_mode_flag {
        match handle_memory_management_ops(dpb, max, pic, &m.inner) {
            Ok(_) => Ok(()),
            Err(e) => Err(DecodeError::Mmco(e)),
        }
    } else {
        dpb.sliding_window_marking(max_num_ref_frames);
        Ok(())
    }
}

} // verus!
