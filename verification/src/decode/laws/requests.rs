//! What the decoder asks the driver for: each request names the surface, size and
//! parameters of the picture it is about.

use std::rc::Rc;

use vstd::prelude::*;

use crate::decode::error::DecodeError;
use crate::decode::laws;
use crate::decode::laws::Event;
use crate::decode::lists;
use crate::decode::machine;
use crate::decode::machine::{
    CurrentPicture, Delivery, Nal, Output, Pixels, Reply, Request, Step, Turn, Unit, Wait, Work,
};
use crate::decode::nv12::VaImage;
use crate::decode::params;
use crate::decode::sequence;
use crate::decode::sequence::SequenceInfo;
use crate::decode::state;
use crate::decode::state::MemoryState;
use crate::h264::dpb;
use crate::h264::syntax::{Pps, Slice};
use crate::surface::Handle;
use crate::va::VaFailure;

verus! {

////// What requests name

/// Whether the slice parameters handed over with `slice` are those of the picture
/// `current`: its header, its size, and its lists of the buffer of `m`.
pub open spec fn is_slice_of(
    m: MemoryState,
    current: CurrentPicture,
    slice: Rc<Slice>,
    p: params::SliceParameterBufferH264,
) -> bool {
    let s = m.dpb.entries;
    let lists = current.ref_pic_lists;
    let max = m.max_long_term_frame_idx;
    &&& m.pps.contains_key(slice.header.pic_parameter_set_id)
    &&& current.pps == m.pps[slice.header.pic_parameter_set_id]
    &&& lists::list_0(s, current.pic, slice.header, lists, max) is Ok
    &&& lists::list_1(s, current.pic, slice.header, lists, max) is Ok
    &&& params::is_slice_param(
        p,
        slice.header,
        slice.data.len(),
        lists::list_0(s, current.pic, slice.header, lists, max)->Ok_0,
        lists::list_1(s, current.pic, slice.header, lists, max)->Ok_0,
        *current.pps.sps,
        *current.pps,
    )
}

/// Whether what the turn asks for, if anything, is what the decoder waits for, of the
/// picture it waits for it for.
pub open spec fn is_asked(t: Turn) -> bool {
    match t.result {
        Ok(Step::Ask(request)) => match request {
            Request::OpenSequence(r) => {
                &&& t.work matches Work::Decoding {
                    unit: _,
                    wait: Wait::Sequence { slice, pps, sequence },
                }
                &&& r.coded_width == pps.sps.width && r.coded_height == pps.sps.height
                &&& r.entrypoint == 1
                &&& r.rt_format == 1
                &&& r.profile == match pps.sps.profile_idc {
                    66 => 13int,
                    77 | 88 => 6,
                    _ => 7,
                }
                &&& sequence@.info.coded_width == pps.sps.width
                &&& sequence@.info.coded_height == pps.sps.height
                &&& sequence@.width == pps.sps.visible.max_x - pps.sps.visible.min_x
                &&& sequence@.height == pps.sps.visible.max_y - pps.sps.visible.min_y
                &&& sequence@.surfaces.len() == 0
            },
            Request::CreateSurface { rt_format, fourcc, width, height, usage_hint } => {
                &&& t.work matches Work::Decoding { unit: _, wait: Wait::Surface { .. } }
                &&& t.memory.sequence matches Some(s) && width == s.info.coded_width && height
                    == s.info.coded_height
                &&& rt_format == 1
                &&& fourcc == 0x3231564e
                &&& usage_hint == 1
            },
            Request::StartPicture { surface, pic_param, iq_matrix } => {
                &&& t.work matches Work::Decoding { unit, wait: Wait::Picture { slice, current } }
                &&& surface == current.handle.surface
                &&& current.handle.timestamp == unit.timestamp
                &&& t.memory.sequence matches Some(s) && current.handle.width == s.width
                    && current.handle.height == s.height
                &&& current.first == slice
                &&& params::is_pic_param(
                    pic_param,
                    slice.header,
                    current.pic,
                    surface,
                    t.memory.dpb.entries,
                    *current.pps.sps,
                    *current.pps,
                )
                &&& params::is_iq_matrix(iq_matrix, *current.pps)
            },
            Request::AddSlice { surface, slice_param, slice } => {
                &&& t.work matches Work::Decoding { unit: _, wait: Wait::Slice { current } }
                &&& surface == current.handle.surface
                &&& is_slice_of(t.memory, current, slice, slice_param)
            },
            Request::SubmitPicture { surface } => {
                &&& t.work matches Work::Decoding { unit: _, wait: Wait::Submit { current, .. } }
                &&& surface == current.handle.surface
            },
            Request::SyncSurface { surface } => {
                &&& t.work matches Work::Delivering(d)
                &&& d.wait == Pixels::Sync
                &&& surface == d.handles@[d.next as int].surface
            },
            Request::DeriveImage { surface, width, height } => {
                &&& t.work matches Work::Delivering(d)
                &&& d.wait == Pixels::Derive
                &&& d.output == Output::Frames
                &&& surface == d.handles@[d.next as int].surface
                &&& width == d.handles@[d.next as int].width
                &&& height == d.handles@[d.next as int].height
            },
            Request::QueryImageFormats => {
                &&& t.work matches Work::Delivering(d)
                &&& d.wait == Pixels::Formats
                &&& d.output == Output::Frames
            },
            Request::GetImage { surface, format: _, width, height } => {
                &&& t.work matches Work::Delivering(d)
                &&& d.wait == Pixels::Image
                &&& d.output == Output::Frames
                &&& surface == d.handles@[d.next as int].surface
                &&& width == d.handles@[d.next as int].width
                &&& height == d.handles@[d.next as int].height
            },
            Request::ExportPrime { surface } => {
                &&& t.work matches Work::Delivering(d)
                &&& d.wait == Pixels::Export
                &&& d.output == Output::Exported
                &&& surface == d.handles@[d.next as int].surface
            },
        },
        _ => t.work is Idle,
    }
}

proof fn lemma_delivers(m: MemoryState, output: Output, t: Turn)
    requires
        machine::delivers(m, output, t),
    ensures
        is_asked(t),
{
}

proof fn lemma_prepares(m: MemoryState, unit: Unit, slice: Rc<Slice>, pps: Rc<Pps>, t: Turn)
    requires
        machine::prepares(m, unit, slice, pps, t),
        m.sequence is Some,
        slice.header.frame_num < pps.sps.spec_max_frame_num(),
    ensures
        is_asked(t),
{
    laws::lemma_preparing_fits(m, laws::slice_of(slice), laws::sps_of(pps), unit.timestamp);
}

proof fn lemma_begins(m: MemoryState, unit: Unit, slice: Rc<Slice>, t: Turn)
    requires
        machine::conforms(m.pps, *slice),
        machine::pps_valid(m.pps),
        machine::begins(m, unit, slice, t),
    ensures
        is_asked(t),
{
    let id = slice.header.pic_parameter_set_id;
    if m.pps.contains_key(id) {
        let pps = m.pps[id];
        let limited = m.limited(laws::sps_of(pps));
        if machine::serves(limited, laws::sps_of(pps)) {
            lemma_prepares(limited.cropped(laws::sps_of(pps)), unit, slice, pps, t);
        }
    }
}

proof fn lemma_advances(m: MemoryState, unit: Unit, current: Option<CurrentPicture>, t: Turn)
    requires
        machine::pps_valid(m.pps),
        machine::advances(m, unit, current, t),
    ensures
        is_asked(t),
{
    laws::lemma_stop(unit.nals@, unit.next as int, m.pps);
    laws::shape::lemma_stop_valid(unit.nals@, unit.next as int, m.pps);
    let (i, pps, e) = machine::stop(unit.nals@, unit.next as int, m.pps);
    let n = MemoryState { pps, ..m };
    if e is None {
        if i >= unit.nals@.len() {
            if current is None {
                lemma_delivers(n, unit.output, t);
            }
        } else {
            let slice = unit.nals@[i]->Slice_0.unwrap();
            let past = Unit { next: (i + 1) as usize, ..unit };
            if current is None {
                lemma_begins(n, past, slice, t);
            }
        }
    }
}

/// Every request is about what the decoder then waits for: it opens the sequence of the
/// slice that needs it, makes surfaces of the coded size, and hands over, submits, syncs,
/// maps, copies and exports the picture in question, in its own surface and its own size.
/// A turn that asks for nothing leaves nothing outstanding.
pub proof fn requests_name_what_they_are_for(before: Turn, e: Event, after: Turn)
    requires
        machine::machine_wf(before.memory, before.work),
        laws::leads(before, e, after),
    ensures
        is_asked(after),
{
    reveal(laws::leads);
    let m = before.memory;
    match e {
        Event::Feed(unit) => {
            lemma_advances(m, unit, None, after);
        },
        Event::Flush(output) => {
            lemma_delivers(m.reset(), output, after);
        },
        Event::Answer(reply) => match before.work {
            Work::Decoding { unit, wait } => match (wait, reply) {
                (Wait::Sequence { slice, pps, sequence }, Reply::Done) => {
                    lemma_prepares(
                        MemoryState { sequence: Some(sequence@), ..m },
                        unit,
                        slice,
                        pps,
                        after,
                    );
                },
                (Wait::Slice { current }, Reply::Done) => {
                    lemma_advances(m, unit, Some(current), after);
                },
                (Wait::Submit { current, following }, Reply::Done) => {
                    let marks = current.first.header.dec_ref_pic_marking;
                    let max = current.pps.sps.max_num_ref_frames;
                    laws::lemma_finishing_keeps_pps(m, current.pic, current.handle, marks, max);
                    let (n, r) = m.finished(current.pic, current.handle, marks, max);
                    match (r, following) {
                        (Ok(_), Some(slice)) => {
                            lemma_begins(n, unit, slice, after);
                        },
                        (Ok(_), None) => {
                            lemma_delivers(n, unit.output, after);
                        },
                        _ => {},
                    }
                },
                _ => {},
            },
            _ => {},
        },
    }
}

/// Where surfaces cannot be mapped, the image is of the first format that is NV12; a
/// driver without one fails the call.
pub proof fn images_are_of_the_first_nv12_format(
    before: Turn,
    formats: Vec<u32>,
    after: Turn,
)
    requires
        laws::leads(before, Event::Answer(Reply::Formats(formats)), after),
    ensures
        match after.result {
            Ok(Step::Ask(Request::GetImage { surface: _, format, .. })) => {
                &&& format < formats@.len()
                &&& formats@[format as int] == 0x3231564e
                &&& forall|j: int| 0 <= j < format ==> formats@[j] != 0x3231564e
            },
            Err(e) => {
                &&& e == DecodeError::NoNv12Format
                &&& forall|j: int| 0 <= j < formats@.len() ==> formats@[j] != 0x3231564e
            },
            _ => false,
        },
{
    reveal(laws::leads);
    let f = formats@;
    assert(formats.len() == f.len());
    if exists|k: int| machine::is_nv12_format(f, k) {
        let k = machine::nv12_format(f).unwrap();
        assert(machine::is_nv12_format(f, k));
    } else {
        lemma_no_nv12(f, f.len() as int);
    }
}

proof fn lemma_no_nv12(formats: Seq<u32>, n: int)
    requires
        0 <= n <= formats.len(),
        forall|k: int| !machine::is_nv12_format(formats, k),
    ensures
        forall|j: int| 0 <= j < n ==> formats[j] != 0x3231564e,
    decreases n,
{
    if n > 0 {
        lemma_no_nv12(formats, n - 1);
        assert(!machine::is_nv12_format(formats, n - 1));
    }
}

/// A surface the driver has created joins the pool, and the picture it was created for
/// goes into it.
pub proof fn created_surfaces_join_the_pool(before: Turn, surface: u32, after: Turn)
    requires
        machine::machine_wf(before.memory, before.work),
        laws::leads(before, Event::Answer(Reply::Surface(surface)), after),
    ensures
        before.memory.sequence is Some && after.memory.sequence is Some,
        after.memory.sequence->0.surfaces == before.memory.sequence->0.surfaces.push(surface),
        after.memory.sequence->0.info == before.memory.sequence->0.info,
        after.memory.dpb == before.memory.dpb,
        after.memory.ready == before.memory.ready,
        after.work matches Work::Decoding { unit: _, wait: Wait::Picture { slice: _, current } }
            && current.handle.surface == surface,
{
    reveal(laws::leads);
}

////// What is read of an access unit

/// Whether a unit is read past: a parameter set that is fit for use, or nothing the
/// decoder has a use for.
pub open spec fn is_read_past(nal: Nal) -> bool {
    match nal {
        Nal::Sps(Some(sps)) => sps.valid(),
        Nal::Pps(Some(pps)) => pps.sps.valid(),
        Nal::Other => true,
        _ => false,
    }
}

/// Whether `nal` is a picture parameter set of the number `id`.
pub open spec fn is_pps(nal: Nal, id: u8) -> bool {
    nal matches Nal::Pps(Some(pps)) && pps.pic_parameter_set_id == id
}

/// Whether none of the units from `a` up to `b` is a picture parameter set of the number
/// `id`.
pub open spec fn is_unnamed(nals: Seq<Nal>, a: int, b: int, id: u8) -> bool {
    forall|j: int| a <= j < b ==> !is_pps(#[trigger] nals[j], id)
}

/// Units are read up to the first that is a slice or does not hold what it should, and
/// what that is decides the error. Of the picture parameter sets read, and those known
/// before, the last of each number counts.
pub proof fn units_are_read_up_to_a_slice(nals: Seq<Nal>, i: int, pps: Map<u8, Rc<Pps>>)
    requires
        0 <= i <= nals.len(),
    ensures
        ({
            let (k, known, e) = machine::stop(nals, i, pps);
            &&& i <= k <= nals.len()
            &&& forall|j: int| i <= j < k ==> is_read_past(#[trigger] nals[j])
            &&& k < nals.len() ==> !is_read_past(nals[k])
            &&& k == nals.len() ==> e is None
            &&& k < nals.len() ==> match nals[k] {
                Nal::Sps(_) => e == Some(DecodeError::Sps),
                Nal::Pps(_) => e == Some(DecodeError::Pps),
                Nal::Slice(None) => e == Some(DecodeError::SliceHeader),
                Nal::Slice(Some(slice)) => {
                    let id = slice.header.pic_parameter_set_id;
                    if known.contains_key(id) && !slice.valid_for(*known[id].sps) {
                        e == Some(DecodeError::SliceHeader)
                    } else {
                        e is None
                    }
                },
                Nal::Other => false,
            }
            &&& forall|id: u8|
                is_unnamed(nals, i, k, id) ==> (#[trigger] known.contains_key(id)
                    <==> pps.contains_key(id)) && (pps.contains_key(id) ==> known[id] == pps[id])
            &&& forall|j: int, id: u8|
                i <= j < k && #[trigger] is_pps(nals[j], id) && is_unnamed(nals, j + 1, k, id)
                    ==> known.contains_key(id) && Nal::Pps(Some(known[id])) == nals[j]
        }),
    decreases nals.len() - i,
{
    if i < nals.len() && is_read_past(nals[i]) {
        let (k, known, e) = machine::stop(nals, i, pps);
        let seen = match nals[i] {
            Nal::Pps(Some(p)) => pps.insert(p.pic_parameter_set_id, p),
            _ => pps,
        };
        units_are_read_up_to_a_slice(nals, i + 1, seen);
        assert(machine::stop(nals, i + 1, seen) == (k, known, e));
        assert forall|j: int| i <= j < k implies is_read_past(#[trigger] nals[j]) by {}
        assert forall|id: u8| is_unnamed(nals, i, k, id) implies (#[trigger] known.contains_key(id)
            <==> pps.contains_key(id)) && (pps.contains_key(id) ==> known[id] == pps[id]) by {
            assert(!is_pps(nals[i], id));
            assert(is_unnamed(nals, i + 1, k, id));
            assert(known.contains_key(id) <==> seen.contains_key(id));
        }
        assert forall|j: int, id: u8|
            i <= j < k && #[trigger] is_pps(nals[j], id) && is_unnamed(
                nals,
                j + 1,
                k,
                id,
            ) implies known.contains_key(id) && Nal::Pps(Some(known[id])) == nals[j] by {
            if j == i {
                assert(seen.contains_key(id));
                assert(known.contains_key(id) <==> seen.contains_key(id));
            }
        }
    }
}

////// Where pictures begin and end

/// A slice of the first macroblock ends the picture in flight and starts the next; any
/// other is part of the picture in flight. The picture also ends with its access unit.
pub proof fn pictures_end_where_the_next_begins(
    before: Turn,
    unit: Unit,
    current: CurrentPicture,
    after: Turn,
)
    requires
        before.work == (Work::Decoding { unit, wait: Wait::Slice { current } }),
        unit.next <= unit.nals@.len(),
        laws::leads(before, Event::Answer(Reply::Done), after),
    ensures
        ({
            let (k, known, e) = machine::stop(unit.nals@, unit.next as int, before.memory.pps);
            &&& after.memory.pps == known
            &&& e is Some ==> (after.result matches Err(f) && f == e->0)
            &&& e is None && k == unit.nals@.len() ==> {
                &&& after.result matches Ok(Step::Ask(Request::SubmitPicture { .. }))
                &&& after.work matches Work::Decoding {
                    unit: u,
                    wait: Wait::Submit { current: c, following },
                }
                &&& c == current
                &&& following is None
                &&& u.next == k && u.nals == unit.nals && u.output == unit.output && u.timestamp
                    == unit.timestamp
            }
            &&& e is None && k < unit.nals@.len() ==> {
                let slice = unit.nals@[k]->Slice_0.unwrap();
                if slice.header.first_mb_in_slice == 0 {
                    &&& after.result matches Ok(Step::Ask(Request::SubmitPicture { .. }))
                    &&& after.work matches Work::Decoding {
                        unit: u,
                        wait: Wait::Submit { current: c, following },
                    }
                    &&& c == current
                    &&& following == Some(slice)
                    &&& u.next == k + 1 && u.nals == unit.nals && u.output == unit.output
                        && u.timestamp == unit.timestamp
                } else {
                    match after.result {
                        Ok(Step::Ask(Request::AddSlice { slice: added, .. })) => added == slice,
                        Ok(_) => false,
                        Err(_) => true,
                    }
                }
            }
        }),
{
    reveal(laws::leads);
    assert(unit.nals.len() == unit.nals@.len());
    units_are_read_up_to_a_slice(unit.nals@, unit.next as int, before.memory.pps);
}

/// A slice is added under its own parameter sets, where these are known and of the same
/// sequence as the picture's.
pub proof fn slices_keep_to_the_sequence_of_their_picture(
    m: MemoryState,
    unit: Unit,
    current: CurrentPicture,
    slice: Rc<Slice>,
    t: Turn,
)
    requires
        machine::slices(m, unit, current, slice, t),
    ensures
        ({
            let id = slice.header.pic_parameter_set_id;
            let s = m.dpb.entries;
            let lists = current.ref_pic_lists;
            let max = m.max_long_term_frame_idx;
            let l0 = lists::list_0(s, current.pic, slice.header, lists, max);
            let l1 = lists::list_1(s, current.pic, slice.header, lists, max);
            if !m.pps.contains_key(id) {
                t.result matches Err(e) && e == DecodeError::UnknownPps(id)
            } else if SequenceInfo::of(*m.pps[id].sps) != SequenceInfo::of(*current.pps.sps) {
                t.result matches Err(e) && e == DecodeError::SequenceChanged
            } else if l0 is Err {
                t.result matches Err(e) && e == l0->Err_0
            } else if l1 is Err {
                t.result matches Err(e) && e == l1->Err_0
            } else {
                &&& t.memory == m
                &&& t.result matches Ok(Step::Ask(Request::AddSlice { slice: added, .. }))
                &&& added == slice
                &&& t.work matches Work::Decoding { unit: u, wait: Wait::Slice { current: c } }
                &&& u == unit
                &&& c.pps == m.pps[id]
                &&& c.pic == current.pic && c.first == current.first && c.handle
                    == current.handle && c.ref_pic_lists == current.ref_pic_lists
            }
        }),
{
}

/// A picture begins under the parameter sets its slice names: the buffer's limits follow
/// them at once, and what was decoded against another sequence is let out before the
/// driver opens the new one.
pub proof fn pictures_begin_under_their_parameter_sets(
    m: MemoryState,
    unit: Unit,
    slice: Rc<Slice>,
    t: Turn,
)
    requires
        machine::pps_valid(m.pps),
        machine::conforms(m.pps, *slice),
        machine::begins(m, unit, slice, t),
    ensures
        ({
            let id = slice.header.pic_parameter_set_id;
            let sps = *m.pps[id].sps;
            if !m.pps.contains_key(id) {
                &&& t.memory == m
                &&& t.result matches Err(e) && e == DecodeError::UnknownPps(id)
            } else {
                &&& t.memory.dpb.max_num_pics == sps.max_dpb_frames
                &&& t.memory.dpb.max_num_reorder_frames == if sps.max_num_order_frames
                    <= sps.max_dpb_frames {
                    sps.max_num_order_frames as int
                } else {
                    0
                }
                &&& if m.sequence is Some && m.sequence->0.info == SequenceInfo::of(sps) {
                    !(t.result matches Ok(Step::Ask(Request::OpenSequence(_))))
                } else {
                    &&& t.memory.dpb.entries.len() == 0
                    &&& t.memory.ready == m.ready + dpb::handles(
                        dpb::output_sequence(m.dpb.entries),
                    )
                    &&& match sequence::refusal(sps) {
                        Some(e) => t.result matches Err(f) && f == e,
                        None => {
                            &&& t.result matches Ok(Step::Ask(Request::OpenSequence(_)))
                            &&& t.work matches Work::Decoding {
                                unit: u,
                                wait: Wait::Sequence { slice: s, pps, .. },
                            }
                            &&& u == unit
                            &&& s == slice
                            &&& pps == m.pps[id]
                        },
                    }
                }
            }
        }),
{
    let id = slice.header.pic_parameter_set_id;
    if m.pps.contains_key(id) {
        let pps = m.pps[id];
        let sps = laws::sps_of(pps);
        let limited = m.limited(sps);
        if machine::serves(limited, sps) {
            state::laws::preparing_keeps_the_limits(
                limited.cropped(sps),
                laws::slice_of(slice),
                sps,
                unit.timestamp,
            );
        }
    }
}

/// A decoded picture is marked as its first slice says and among as many references as
/// its sequence allows; then comes the picture that follows it in the access unit, or the
/// delivery of what came due.
pub proof fn decoded_pictures_are_finished(
    before: Turn,
    unit: Unit,
    current: CurrentPicture,
    following: Option<Rc<Slice>>,
    after: Turn,
)
    requires
        before.work == (Work::Decoding { unit, wait: Wait::Submit { current, following } }),
        laws::leads(before, Event::Answer(Reply::Done), after),
    ensures
        ({
            let (n, r) = before.memory.finished(
                current.pic,
                current.handle,
                current.first.header.dec_ref_pic_marking,
                current.pps.sps.max_num_ref_frames,
            );
            match r {
                Err(e) => after.result matches Err(f) && f == e,
                Ok(_) => match following {
                    Some(slice) => machine::begins(n, unit, slice, after),
                    None => {
                        &&& after.memory == (MemoryState { ready: Seq::empty(), ..n })
                        &&& n.ready.len() == 0 ==> after.work is Idle
                        &&& n.ready.len() > 0 ==> {
                            &&& after.work matches Work::Delivering(d)
                            &&& d.handles@ == n.ready
                            &&& d.next == 0
                            &&& d.output == unit.output
                        }
                    },
                },
            }
        }),
{
    reveal(laws::leads);
}

////// What failing leaves

/// A driver that fails fails the call, with what it failed with, and nothing stays
/// outstanding; only where a surface cannot be mapped is it copied instead.
pub proof fn failures_are_reported(before: Turn, failure: VaFailure, after: Turn)
    requires
        laws::leads(before, Event::Answer(Reply::Failed(failure)), after),
    ensures
        ({
            let mapping = before.work matches Work::Delivering(d) && d.wait == Pixels::Derive;
            &&& mapping ==> (after.result matches Ok(Step::Ask(Request::QueryImageFormats)))
            &&& !mapping ==> {
                &&& after.result matches Err(e) && e == DecodeError::Device(failure)
                &&& after.work is Idle
            }
        }),
{
    reveal(laws::leads);
}

/// A picture given up leaves its surface first in line for the next one.
pub proof fn pictures_given_up_leave_their_surface(before: Turn, reply: Reply, after: Turn)
    requires
        laws::leads(before, Event::Answer(reply), after),
        after.result is Err,
        reply is Failed,
    ensures
        (before.work matches Work::Decoding { unit: _, wait } ==> (machine::flying(
            wait,
        ) matches Some(h) ==> (before.memory.sequence matches Some(s) ==> (s.surfaces.contains(h.surface)
            && !sequence::referred_to(before.memory.dpb.entries, before.memory.ready, h.surface)
            ==> {
            &&& after.memory.sequence matches Some(n) && n.surfaces.last() == h.surface
            &&& sequence::free_surface(
                after.memory.sequence->0.surfaces,
                after.memory.dpb.entries,
                after.memory.ready,
            ) == Some(h.surface)
        })))),
{
    reveal(laws::leads);
    match before.work {
        Work::Decoding { unit: _, wait } => match (machine::flying(wait), before.memory.sequence) {
            (Some(h), Some(s)) => {
                let m = before.memory;
                if s.surfaces.contains(h.surface) && !sequence::referred_to(
                    m.dpb.entries,
                    m.ready,
                    h.surface,
                ) {
                    reveal_with_fuel(sequence::returned, 2);
                    assert(seq![h].drop_last() =~= Seq::<Handle>::empty());
                    let n = after.memory.sequence->0.surfaces;
                    assert(n == sequence::retired(s.surfaces, h.surface).push(h.surface));
                    assert(sequence::is_next_free(n, m.dpb.entries, m.ready, n.len() - 1));
                    let k = choose|k: int|
                        sequence::is_next_free(n, m.dpb.entries, m.ready, k);
                    assert(sequence::is_next_free(n, m.dpb.entries, m.ready, k));
                    if k < n.len() - 1 {
                        assert(sequence::referred_to(m.dpb.entries, m.ready, n[n.len() - 1]));
                    }
                }
            },
            _ => {},
        },
        _ => {},
    }
}

/// Pictures that have been handed over, or given up on the way out, leave their surfaces
/// too, the last of them first in line for the next picture.
pub proof fn delivered_pictures_leave_their_surfaces(before: Turn, reply: Reply, after: Turn)
    requires
        machine::machine_wf(before.memory, before.work),
        laws::leads(before, Event::Answer(reply), after),
        before.work is Delivering,
        after.work is Idle,
    ensures
        ({
            let h = before.work->Delivering_0.handles@.last();
            let m = after.memory;
            m.sequence matches Some(s) ==> (s.surfaces.contains(h.surface)
                && !sequence::referred_to(m.dpb.entries, m.ready, h.surface)
                ==> s.surfaces.last() == h.surface)
        }),
{
    reveal(laws::leads);
    let d = before.work->Delivering_0;
    let left = match (d.wait, reply) {
        (Pixels::Export, Reply::Exported(_)) => machine::surface_retired(
            before.memory,
            machine::due(d).surface,
        ),
        _ => before.memory,
    };
    assert(after.memory == left.freed(d.handles@));
    reveal(sequence::returned);
}

/// An image mapped from a surface is read where it is NV12; any other is left for a copy
/// of the same picture.
pub proof fn only_nv12_is_read(before: Turn, d: Delivery, image: VaImage, after: Turn)
    requires
        before.work == Work::Delivering(d),
        d.wait == Pixels::Derive,
        laws::leads(before, Event::Answer(Reply::Image(image)), after),
    ensures
        image.fourcc == 0x3231564e <==> !(after.result matches Ok(
            Step::Ask(Request::QueryImageFormats),
        )),
        image.fourcc != 0x3231564e ==> {
            &&& after.memory == before.memory
            &&& after.work matches Work::Delivering(n)
            &&& n.handles == d.handles
            &&& n.next == d.next
            &&& n.frames == d.frames
        },
{
    reveal(laws::leads);
}

} // verus!
