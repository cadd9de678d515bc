//! The decoder's conversation with the driver: what it asks for, what it is
//! answered, and where it stands in between.

use std::rc::Rc;

use vstd::prelude::*;

use crate::decode::error::DecodeError;
use crate::decode::lists;
use crate::decode::nv12;
use crate::decode::nv12::{Frame, VaImage};
use crate::decode::params;
use crate::decode::params::{
    IQMatrixBufferH264, PictureParameterBufferH264, SliceParameterBufferH264,
};
use crate::decode::sequence;
use crate::decode::sequence::{Sequence, SequenceInfo, SequenceRequest, SequenceState};
use crate::decode::state::MemoryState;
use crate::h264::dpb::ref_lists::ReferencePicLists;
use crate::h264::picture::PictureData;
use crate::h264::syntax::{Pps, Slice, Sps};
use crate::surface::{DrmPrimeSurfaceDescriptor, Handle};
use crate::va::{
    VaFailure, USAGE_HINT_DECODER, VA_FOURCC_NV12, VA_RT_FORMAT_YUV420,
};

verus! {

/// One NAL unit of an access unit, as the bitstream parser reads it. A unit that
/// does not parse carries nothing.
#[derive(Debug)]
pub enum Nal {
    Sps(Option<Rc<Sps>>),
    Pps(Option<Rc<Pps>>),
    Slice(Option<Rc<Slice>>),
    /// Anything the decoder has no use for.
    Other,
}

/// What a decoded picture is delivered as.
#[derive(Clone, Copy, Debug, PartialEq, Eq, Structural)]
pub enum Output {
    Frames,
    Exported,
}

/// One decoded picture, left in the surface the hardware wrote it into.
///
/// The GPU counterpart of [`Frame`]: same picture, same timestamp, but a DRM
/// PRIME descriptor for the surface rather than a copy of its pixels.
///
/// NV12, and one object holding both planes, which is what the Intel and AMD
/// drivers export. Read the modifier off the object before assuming anything
/// about the layout: a decode target is tiled, and the plane pitches carry
/// padding the visible size does not imply.
#[derive(Debug)]
pub struct ExportedFrame {
    /// Timestamp of the access unit this picture was coded in.
    pub timestamp: u64,
    /// Visible width in pixels, i.e. after the SPS cropping rectangle.
    pub width: u32,
    /// Visible height in pixels.
    pub height: u32,
    /// The surface's export: format, modifier, and the offset and pitch of each
    /// plane.
    pub descriptor: DrmPrimeSurfaceDescriptor,
}

/// What the decoder needs the driver to do next.
#[derive(Debug)]
pub enum Request {
    /// Create a config, and a context of it.
    OpenSequence(SequenceRequest),
    /// Create one decode target.
    CreateSurface { rt_format: u32, fourcc: u32, width: u32, height: u32, usage_hint: u32 },
    /// Start a picture in `surface` with these two buffers.
    StartPicture {
        surface: u32,
        pic_param: PictureParameterBufferH264,
        iq_matrix: IQMatrixBufferH264,
    },
    /// Add a slice to the picture in `surface`: its parameters, and its NAL unit.
    AddSlice { surface: u32, slice_param: SliceParameterBufferH264, slice: Rc<Slice> },
    /// Begin, render, end, and sync the picture in `surface`.
    SubmitPicture { surface: u32 },
    /// Wait for `surface`.
    SyncSurface { surface: u32 },
    /// Map the surface's own buffer.
    DeriveImage { surface: u32, width: u32, height: u32 },
    /// List the image formats there are.
    QueryImageFormats,
    /// Copy `surface` into an image of the format at index `format` of that list.
    GetImage { surface: u32, format: usize, width: u32, height: u32 },
    /// Export `surface` as DRM PRIME.
    ExportPrime { surface: u32 },
}

/// What the driver answered.
#[derive(Debug)]
pub enum Reply {
    Done,
    Surface(u32),
    Image(VaImage),
    /// The fourcc of each image format, in the driver's order.
    Formats(Vec<u32>),
    Exported(DrmPrimeSurfaceDescriptor),
    Failed(VaFailure),
}

/// What comes of feeding the decoder.
#[derive(Debug)]
pub enum Step {
    /// The decoder waits for the driver.
    Ask(Request),
    /// Done: the pictures that came due, in output order.
    Frames(Vec<Frame>),
    /// Done: the pictures that came due, in output order, on the GPU.
    Exported(Vec<ExportedFrame>),
}

/// The picture currently being assembled, held across the slices that make it up.
#[derive(Debug)]
pub struct CurrentPicture {
    pub pic: PictureData,
    /// The slice that started it.
    pub first: Rc<Slice>,
    /// PPS active for the last slice seen.
    pub pps: Rc<Pps>,
    /// The surface the driver renders into.
    pub handle: Handle,
    /// Per-picture reference lists, modified per slice.
    pub ref_pic_lists: ReferencePicLists,
}

/// An access unit on its way through the decoder.
#[derive(Debug)]
pub struct Unit {
    pub nals: Vec<Nal>,
    /// The NAL unit to look at next.
    pub next: usize,
    pub timestamp: u64,
    pub output: Output,
}

/// What decoding waits for.
#[derive(Debug)]
pub enum Wait {
    /// The driver to open `sequence`, for the picture `slice` starts.
    Sequence { slice: Rc<Slice>, pps: Rc<Pps>, sequence: Sequence },
    /// A surface for the picture `slice` starts.
    Surface {
        slice: Rc<Slice>,
        pps: Rc<Pps>,
        pic: PictureData,
        ref_pic_lists: ReferencePicLists,
    },
    /// The picture's buffers; `slice` is its first slice.
    Picture { slice: Rc<Slice>, current: CurrentPicture },
    /// A slice's buffers.
    Slice { current: CurrentPicture },
    /// The hardware. `following` starts the next picture.
    Submit { current: CurrentPicture, following: Option<Rc<Slice>> },
}

/// What delivery of one picture waits for.
#[derive(Clone, Copy, Debug, PartialEq, Eq, Structural)]
pub enum Pixels {
    Sync,
    Derive,
    Formats,
    Image,
    Export,
}

/// The pictures that came due, on their way out.
#[derive(Debug)]
pub struct Delivery {
    /// All of them, in output order.
    pub handles: Vec<Handle>,
    /// The one to deliver next.
    pub next: usize,
    pub output: Output,
    pub frames: Vec<Frame>,
    pub exported: Vec<ExportedFrame>,
    pub wait: Pixels,
}

/// Where the decoder stands.
#[derive(Debug)]
pub enum Work {
    Idle,
    Decoding { unit: Unit, wait: Wait },
    Delivering(Delivery),
}

/// Where the decoder stands after a turn, and what the turn came to.
pub struct Turn {
    pub memory: MemoryState,
    pub work: Work,
    pub result: Result<Step, DecodeError>,
}

////// What each turn does

/// The turn failed: whatever was in flight is dropped, and the memory is `m`.
pub open spec fn fails(m: MemoryState, e: DecodeError, t: Turn) -> bool {
    &&& t.memory == m
    &&& t.work is Idle
    &&& t.result matches Err(f) && f == e
}

/// The turn failed, and the picture `h` in flight is given up.
pub open spec fn gives_up(m: MemoryState, h: Handle, e: DecodeError, t: Turn) -> bool {
    fails(m.freed(seq![h]), e, t)
}

/// The picture in flight at `wait`, if there is one.
pub open spec fn flying(wait: Wait) -> Option<Handle> {
    match wait {
        Wait::Sequence { .. } | Wait::Surface { .. } => None,
        Wait::Picture { slice: _, current } => Some(current.handle),
        Wait::Slice { current } => Some(current.handle),
        Wait::Submit { current, .. } => Some(current.handle),
    }
}

/// The driver failed at `wait`.
pub open spec fn breaks_off(m: MemoryState, wait: Wait, failure: VaFailure, t: Turn) -> bool {
    match flying(wait) {
        Some(h) => gives_up(m, h, DecodeError::Device(failure), t),
        None => fails(m, DecodeError::Device(failure), t),
    }
}

/// The turn leaves the decoder at `work`, waiting for `request`.
pub open spec fn asks(m: MemoryState, work: Work, request: Request, t: Turn) -> bool {
    &&& t.memory == m
    &&& t.work == work
    &&& t.result matches Ok(Step::Ask(r)) && r == request
}

/// The turn hands over nothing: no picture came due.
pub open spec fn hands_over_nothing(output: Output, t: Turn) -> bool {
    match output {
        Output::Frames => t.result matches Ok(Step::Frames(f)) && f@.len() == 0,
        Output::Exported => t.result matches Ok(Step::Exported(f)) && f@.len() == 0,
    }
}

/// `m` with nothing left in the ready queue.
pub open spec fn taken(m: MemoryState) -> MemoryState {
    MemoryState { ready: Seq::empty(), ..m }
}

/// The turn starts delivering the ready queue of `m`, in its order.
pub open spec fn delivers(m: MemoryState, output: Output, t: Turn) -> bool {
    &&& t.memory == taken(m)
    &&& if m.ready.len() == 0 {
        &&& t.work is Idle
        &&& hands_over_nothing(output, t)
    } else {
        &&& t.work matches Work::Delivering(d)
        &&& d.handles@ == m.ready
        &&& d.next == 0
        &&& d.output == output
        &&& d.frames@.len() == 0
        &&& d.exported@.len() == 0
        &&& d.wait == Pixels::Sync
        &&& t.result matches Ok(Step::Ask(Request::SyncSurface { surface })) && surface
            == m.ready[0].surface
    }
}

/// The picture `slice` starts goes into `surface`: the turn hands the driver its
/// parameters.
pub open spec fn starts(
    m: MemoryState,
    unit: Unit,
    slice: Rc<Slice>,
    pps: Rc<Pps>,
    pic: PictureData,
    surface: u32,
    t: Turn,
) -> bool {
    &&& t.memory == m
    &&& t.work matches Work::Decoding { unit: u, wait: Wait::Picture { slice: first, current } }
    &&& u == unit
    &&& first == slice
    &&& current.pic == pic
    &&& current.first == slice
    &&& current.pps == pps
    &&& current.handle == (Handle {
        surface,
        timestamp: unit.timestamp,
        width: m.sequence.unwrap().width,
        height: m.sequence.unwrap().height,
    })
    &&& current.ref_pic_lists.built(m.dpb.entries, pic)
    &&& t.result matches Ok(Step::Ask(Request::StartPicture { surface: s, pic_param, iq_matrix }))
    &&& s == surface
    &&& params::is_pic_param(
        pic_param,
        slice.header,
        pic,
        surface,
        m.dpb.entries,
        *pps.sps,
        *pps,
    )
    &&& params::is_iq_matrix(iq_matrix, *pps)
}

/// The request for one more decode target of `s`.
pub open spec fn surface_request(s: SequenceState) -> Request {
    Request::CreateSurface {
        rt_format: VA_RT_FORMAT_YUV420,
        fourcc: VA_FOURCC_NV12,
        width: s.info.coded_width,
        height: s.info.coded_height,
        usage_hint: USAGE_HINT_DECODER,
    }
}

/// The picture `slice` starts is worked out under the active sequence, and finds
/// a surface or asks for one.
pub open spec fn prepares(
    m: MemoryState,
    unit: Unit,
    slice: Rc<Slice>,
    pps: Rc<Pps>,
    t: Turn,
) -> bool {
    match m.prepared(*slice, *pps.sps, unit.timestamp) {
        (n, Err(e)) => fails(n, e, t),
        (n, Ok(pic)) => match sequence::free_surface(
            n.sequence.unwrap().surfaces,
            n.dpb.entries,
            n.ready,
        ) {
            Some(surface) => starts(n, unit, slice, pps, pic, surface, t),
            None => {
                &&& t.memory == n
                &&& t.work matches Work::Decoding {
                    unit: u,
                    wait: Wait::Surface { slice: s, pps: p, pic: c, ref_pic_lists },
                }
                &&& u == unit
                &&& s == slice
                &&& p == pps
                &&& c == pic
                &&& ref_pic_lists.built(n.dpb.entries, pic)
                &&& t.result matches Ok(Step::Ask(r)) && r == surface_request(n.sequence.unwrap())
            },
        },
    }
}

/// Whether the active sequence of `m` serves `sps` as it is.
pub open spec fn serves(m: MemoryState, sps: Sps) -> bool {
    m.sequence matches Some(s) && s.info == SequenceInfo::of(sps)
}

/// The turn starts the picture `slice` begins: under the active sequence if that
/// serves, cropped as the picture's own SPS has it, and after the driver has opened
/// another otherwise.
pub open spec fn begins(m: MemoryState, unit: Unit, slice: Rc<Slice>, t: Turn) -> bool {
    let id = slice.header.pic_parameter_set_id;
    if !m.pps.contains_key(id) {
        fails(m, DecodeError::UnknownPps(id), t)
    } else {
        let pps = m.pps[id];
        let limited = m.limited(*pps.sps);
        if serves(limited, *pps.sps) {
            prepares(limited.cropped(*pps.sps), unit, slice, pps, t)
        } else {
            match sequence::refusal(*pps.sps) {
                Some(e) => fails(limited.drained(), e, t),
                None => {
                    &&& t.memory == limited.drained()
                    &&& t.work matches Work::Decoding {
                        unit: u,
                        wait: Wait::Sequence { slice: s, pps: p, sequence },
                    }
                    &&& u == unit
                    &&& s == slice
                    &&& p == pps
                    &&& sequence@ == sequence::sequence_for(*pps.sps)
                    &&& t.result matches Ok(Step::Ask(Request::OpenSequence(r))) && r
                        == sequence::request_for(*pps.sps)
                },
            }
        }
    }
}

/// The turn hands the driver one slice of the picture `current`.
pub open spec fn slices(
    m: MemoryState,
    unit: Unit,
    current: CurrentPicture,
    slice: Rc<Slice>,
    t: Turn,
) -> bool {
    let id = slice.header.pic_parameter_set_id;
    if !m.pps.contains_key(id) {
        gives_up(m, current.handle, DecodeError::UnknownPps(id), t)
    } else if SequenceInfo::of(*m.pps[id].sps) != SequenceInfo::of(*current.pps.sps) {
        gives_up(m, current.handle, DecodeError::SequenceChanged, t)
    } else {
        let pps = m.pps[id];
        let max = m.max_long_term_frame_idx;
        let hdr = slice.header;
        let initial = current.ref_pic_lists;
        match lists::list_0(m.dpb.entries, current.pic, hdr, initial, max) {
            Err(e) => gives_up(m, current.handle, e, t),
            Ok(l0) => match lists::list_1(m.dpb.entries, current.pic, hdr, initial, max) {
                Err(e) => gives_up(m, current.handle, e, t),
                Ok(l1) => {
                    &&& t.memory == m
                    &&& t.work == (Work::Decoding {
                        unit,
                        wait: Wait::Slice { current: CurrentPicture { pps, ..current } },
                    })
                    &&& t.result matches Ok(
                        Step::Ask(Request::AddSlice { surface, slice_param, slice: data }),
                    )
                    &&& surface == current.handle.surface
                    &&& data == slice
                    &&& params::is_slice_param(
                        slice_param,
                        hdr,
                        slice.data.len(),
                        l0,
                        l1,
                        *pps.sps,
                        *pps,
                    )
                },
            },
        }
    }
}

/// Whether `slice` obeys the sequence it refers to, where `pps` knows it.
pub open spec fn conforms(pps: Map<u8, Rc<Pps>>, slice: Slice) -> bool {
    let id = slice.header.pic_parameter_set_id;
    pps.contains_key(id) ==> slice.valid_for(*pps[id].sps)
}

/// Where reading the units from `i` on stops: at a slice, at the end, or at a unit
/// that does not parse. Also, the parameter sets known by then.
pub open spec fn stop(nals: Seq<Nal>, i: int, pps: Map<u8, Rc<Pps>>) -> (
    int,
    Map<u8, Rc<Pps>>,
    Option<DecodeError>,
)
    decreases nals.len() - i,
{
    if i >= nals.len() {
        (nals.len() as int, pps, None)
    } else {
        match nals[i] {
            Nal::Sps(Some(sps)) if sps.valid() => stop(nals, i + 1, pps),
            Nal::Sps(_) => (i, pps, Some(DecodeError::Sps)),
            Nal::Pps(Some(p)) if p.sps.valid() => stop(
                nals,
                i + 1,
                pps.insert(p.pic_parameter_set_id, p),
            ),
            Nal::Pps(_) => (i, pps, Some(DecodeError::Pps)),
            Nal::Slice(Some(slice)) if conforms(pps, *slice) => (i, pps, None),
            Nal::Slice(_) => (i, pps, Some(DecodeError::SliceHeader)),
            Nal::Other => stop(nals, i + 1, pps),
        }
    }
}

/// The turn hands the hardware the picture `current`.
pub open spec fn submits(
    m: MemoryState,
    unit: Unit,
    current: CurrentPicture,
    following: Option<Rc<Slice>>,
    t: Turn,
) -> bool {
    asks(
        m,
        Work::Decoding { unit, wait: Wait::Submit { current, following } },
        Request::SubmitPicture { surface: current.handle.surface },
        t,
    )
}

/// The turn reads on in `unit` to the next slice, or to its end. A slice whose
/// `first_mb_in_slice` is zero starts a new picture, so the one in flight is done;
/// and so it is at the end of the unit.
pub open spec fn advances(
    m: MemoryState,
    unit: Unit,
    current: Option<CurrentPicture>,
    t: Turn,
) -> bool {
    let (i, pps, e) = stop(unit.nals@, unit.next as int, m.pps);
    let n = MemoryState { pps, ..m };
    match e {
        Some(e) => match current {
            Some(current) => gives_up(n, current.handle, e, t),
            None => fails(n, e, t),
        },
        None => if i >= unit.nals@.len() {
            let at_end = Unit { next: i as usize, ..unit };
            match current {
                Some(current) => submits(n, at_end, current, None, t),
                None => delivers(n, unit.output, t),
            }
        } else {
            let slice = unit.nals@[i]->Slice_0.unwrap();
            let past = Unit { next: (i + 1) as usize, ..unit };
            match current {
                Some(current) => if slice.header.first_mb_in_slice == 0 {
                    submits(n, past, current, Some(slice), t)
                } else {
                    slices(n, past, current, slice, t)
                },
                None => begins(n, past, slice, t),
            }
        },
    }
}

/// The hardware has decoded `current`: the turn marks, bumps, and stores it, then
/// starts the picture `following` begins or delivers what came due.
pub open spec fn finishes(
    m: MemoryState,
    unit: Unit,
    current: CurrentPicture,
    following: Option<Rc<Slice>>,
    t: Turn,
) -> bool {
    match m.finished(
        current.pic,
        current.handle,
        current.first.header.dec_ref_pic_marking,
        current.pps.sps.max_num_ref_frames,
    ) {
        (n, Err(e)) => gives_up(n, current.handle, e, t),
        (n, Ok(_)) => match following {
            Some(slice) => begins(n, unit, slice, t),
            None => delivers(n, unit.output, t),
        },
    }
}

/// `m` with `surface` added to the pool of the active sequence.
pub open spec fn adopted(m: MemoryState, surface: u32) -> MemoryState {
    let s = m.sequence.unwrap();
    MemoryState {
        sequence: Some(SequenceState { surfaces: s.surfaces.push(surface), ..s }),
        ..m
    }
}

/// `m` with `surface` gone from the pool of the active sequence.
pub open spec fn surface_retired(m: MemoryState, surface: u32) -> MemoryState {
    MemoryState {
        sequence: match m.sequence {
            Some(s) => Some(
                SequenceState { surfaces: sequence::retired(s.surfaces, surface), ..s },
            ),
            None => None,
        },
        ..m
    }
}

/// The picture delivered next by `d`.
pub open spec fn due(d: Delivery) -> Handle {
    d.handles@[d.next as int]
}

/// The turn failed, and the pictures of `d` are let go of.
pub open spec fn delivery_fails(m: MemoryState, d: Delivery, e: DecodeError, t: Turn) -> bool {
    fails(m.freed(d.handles@), e, t)
}

/// The turn goes on to the next picture of `d`, or is done, with `frames` and
/// `exported` delivered so far.
pub open spec fn delivered(
    m: MemoryState,
    d: Delivery,
    frames: Seq<Frame>,
    exported: Seq<ExportedFrame>,
    t: Turn,
) -> bool {
    if d.next + 1 < d.handles@.len() {
        &&& t.memory == m
        &&& t.work matches Work::Delivering(n)
        &&& n.handles == d.handles
        &&& n.next == d.next + 1
        &&& n.output == d.output
        &&& n.frames@ == frames
        &&& n.exported@ == exported
        &&& n.wait == Pixels::Sync
        &&& t.result matches Ok(Step::Ask(Request::SyncSurface { surface })) && surface
            == d.handles@[d.next + 1].surface
    } else {
        &&& t.memory == m.freed(d.handles@)
        &&& t.work is Idle
        &&& match d.output {
            Output::Frames => t.result matches Ok(Step::Frames(f)) && f@ == frames,
            Output::Exported => t.result matches Ok(Step::Exported(f)) && f@ == exported,
        }
    }
}

/// The turn copies the picture due out of `image`.
pub open spec fn downloads(m: MemoryState, d: Delivery, image: VaImage, t: Turn) -> bool {
    let h = due(d);
    if !nv12::image_holds(image, h, 0, h.height as int) {
        delivery_fails(m, d, nv12::plane_missing(image, h, 0, h.height as int), t)
    } else if !nv12::image_holds(image, h, 1, (h.height / 2) as int) {
        delivery_fails(m, d, nv12::plane_missing(image, h, 1, (h.height / 2) as int), t)
    } else {
        exists|frame: Frame|
            {
                &&& #[trigger] nv12::is_packed(Ok(frame), image, h)
                &&& delivered(m, d, d.frames@.push(frame), d.exported@, t)
            }
    }
}

/// Whether format `k` of `formats` is the first that is NV12.
pub open spec fn is_nv12_format(formats: Seq<u32>, k: int) -> bool {
    &&& 0 <= k < formats.len()
    &&& formats[k] == VA_FOURCC_NV12
    &&& forall|j: int| 0 <= j < k ==> formats[j] != VA_FOURCC_NV12
}

/// The first format of `formats` that is NV12, if there is one.
pub open spec fn nv12_format(formats: Seq<u32>) -> Option<int> {
    if exists|k: int| is_nv12_format(formats, k) {
        Some(choose|k: int| is_nv12_format(formats, k))
    } else {
        None
    }
}

/// The turn falls back from mapping the surface to copying it.
pub open spec fn falls_back(m: MemoryState, d: Delivery, t: Turn) -> bool {
    asks(
        m,
        Work::Delivering(Delivery { wait: Pixels::Formats, ..d }),
        Request::QueryImageFormats,
        t,
    )
}

/// What `reply` makes of a delivery.
pub open spec fn delivery_resumed(m: MemoryState, d: Delivery, reply: Reply, t: Turn) -> bool {
    let h = due(d);
    match (d.wait, reply) {
        (Pixels::Sync, Reply::Done) => match d.output {
            Output::Frames => asks(
                m,
                Work::Delivering(Delivery { wait: Pixels::Derive, ..d }),
                Request::DeriveImage { surface: h.surface, width: h.width, height: h.height },
                t,
            ),
            Output::Exported => asks(
                m,
                Work::Delivering(Delivery { wait: Pixels::Export, ..d }),
                Request::ExportPrime { surface: h.surface },
                t,
            ),
        },
        (Pixels::Derive, Reply::Image(image)) => if image.fourcc == VA_FOURCC_NV12 {
            downloads(m, d, image, t)
        } else {
            falls_back(m, d, t)
        },
        (Pixels::Derive, Reply::Failed(_)) => falls_back(m, d, t),
        (Pixels::Formats, Reply::Formats(formats)) => match nv12_format(formats@) {
            Some(k) => asks(
                m,
                Work::Delivering(Delivery { wait: Pixels::Image, ..d }),
                Request::GetImage {
                    surface: h.surface,
                    format: k as usize,
                    width: h.width,
                    height: h.height,
                },
                t,
            ),
            None => delivery_fails(m, d, DecodeError::NoNv12Format, t),
        },
        (Pixels::Image, Reply::Image(image)) => downloads(m, d, image, t),
        (Pixels::Export, Reply::Exported(descriptor)) => delivered(
            surface_retired(m, h.surface),
            d,
            d.frames@,
            d.exported@.push(
                ExportedFrame {
                    timestamp: h.timestamp,
                    width: h.width,
                    height: h.height,
                    descriptor,
                },
            ),
            t,
        ),
        (_, Reply::Failed(failure)) => delivery_fails(m, d, DecodeError::Device(failure), t),
        _ => true,
    }
}

/// What `reply` makes of a decoder that waits at `work`.
pub open spec fn resumed(m: MemoryState, work: Work, reply: Reply, t: Turn) -> bool {
    match work {
        Work::Idle => true,
        Work::Decoding { unit, wait } => match (wait, reply) {
            (_, Reply::Failed(failure)) => breaks_off(m, wait, failure, t),
            (Wait::Sequence { slice, pps, sequence }, Reply::Done) => prepares(
                MemoryState { sequence: Some(sequence@), ..m },
                unit,
                slice,
                pps,
                t,
            ),
            (Wait::Surface { slice, pps, pic, .. }, Reply::Surface(surface)) => starts(
                adopted(m, surface),
                unit,
                slice,
                pps,
                pic,
                surface,
                t,
            ),
            (Wait::Picture { slice, current }, Reply::Done) => slices(m, unit, current, slice, t),
            (Wait::Slice { current }, Reply::Done) => advances(m, unit, Some(current), t),
            (Wait::Submit { current, following }, Reply::Done) => finishes(
                m,
                unit,
                current,
                following,
                t,
            ),
            _ => true,
        },
        Work::Delivering(d) => delivery_resumed(m, d, reply, t),
    }
}

/// Whether `reply` answers what a decoder at `work` has asked.
pub open spec fn answers(work: Work, reply: Reply) -> bool {
    match (work, reply) {
        (Work::Idle, _) => false,
        (_, Reply::Failed(_)) => true,
        (Work::Decoding { unit: _, wait: Wait::Surface { .. } }, Reply::Surface(_)) => true,
        (Work::Decoding { unit: _, wait: Wait::Surface { .. } }, _) => false,
        (Work::Decoding { .. }, Reply::Done) => true,
        (Work::Delivering(d), _) => match (d.wait, reply) {
            (Pixels::Sync, Reply::Done) => true,
            (Pixels::Derive, Reply::Image(_)) => true,
            (Pixels::Formats, Reply::Formats(_)) => true,
            (Pixels::Image, Reply::Image(_)) => true,
            (Pixels::Export, Reply::Exported(_)) => true,
            _ => false,
        },
        _ => false,
    }
}

////// What holds between turns

/// Whether every parameter set is fit for use.
pub open spec fn pps_valid(pps: Map<u8, Rc<Pps>>) -> bool {
    forall|id: u8| pps.contains_key(id) ==> (#[trigger] pps[id]).sps.valid()
}

/// Whether the frames `f` are the pictures `h`, in order.
pub open spec fn frames_match(f: Seq<Frame>, h: Seq<Handle>) -> bool {
    &&& f.len() == h.len()
    &&& forall|i: int|
        0 <= i < f.len() ==> (#[trigger] f[i]).timestamp == h[i].timestamp && f[i].width
            == h[i].width && f[i].height == h[i].height
}

/// Whether the exports `f` are the pictures `h`, in order.
pub open spec fn exports_match(f: Seq<ExportedFrame>, h: Seq<Handle>) -> bool {
    &&& f.len() == h.len()
    &&& forall|i: int|
        0 <= i < f.len() ==> (#[trigger] f[i]).timestamp == h[i].timestamp && f[i].width
            == h[i].width && f[i].height == h[i].height
}

/// Whether a delivery has delivered what came before the picture due.
pub open spec fn delivery_wf(d: Delivery) -> bool {
    &&& d.next < d.handles@.len()
    &&& match d.wait {
        Pixels::Sync => true,
        Pixels::Derive | Pixels::Formats | Pixels::Image => d.output == Output::Frames,
        Pixels::Export => d.output == Output::Exported,
    }
    &&& d.output == Output::Frames ==> frames_match(d.frames@, d.handles@.take(d.next as int))
    &&& d.output == Output::Exported ==> exports_match(
        d.exported@,
        d.handles@.take(d.next as int),
    )
}

/// Whether the picture in flight is a decoded one, and its lists name entries of
/// the buffer.
pub open spec fn current_wf(m: MemoryState, current: CurrentPicture) -> bool {
    &&& !current.pic.nonexisting
    &&& current.ref_pic_lists.within(m.dpb.entries.len())
}

/// Whether decoding can go on from `wait` with the memory `m`.
pub open spec fn wait_wf(m: MemoryState, wait: Wait) -> bool {
    match wait {
        Wait::Sequence { slice, pps, sequence } => {
            &&& pps.sps.valid()
            &&& slice.valid_for(*pps.sps)
            &&& conforms(m.pps, *slice)
            &&& sequence.wf()
            &&& sequence@.surfaces.len() == 0
        },
        Wait::Surface { slice, pps, pic, ref_pic_lists } => {
            &&& pps.sps.valid()
            &&& conforms(m.pps, *slice)
            &&& m.sequence is Some
            &&& !pic.nonexisting
            &&& ref_pic_lists.built(m.dpb.entries, pic)
            &&& ref_pic_lists.within(m.dpb.entries.len())
        },
        Wait::Picture { slice, current } => conforms(m.pps, *slice) && current_wf(m, current),
        Wait::Slice { current } => current_wf(m, current),
        Wait::Submit { current, following } => {
            &&& current_wf(m, current)
            &&& following matches Some(slice) ==> conforms(m.pps, *slice)
        },
    }
}

/// What holds of a decoder between turns.
pub open spec fn machine_wf(m: MemoryState, work: Work) -> bool {
    &&& pps_valid(m.pps)
    &&& match work {
        Work::Idle => true,
        Work::Decoding { unit, wait } => unit.next <= unit.nals@.len() && wait_wf(m, wait),
        Work::Delivering(d) => m.ready.len() == 0 && delivery_wf(d),
    }
}

} // verus!
