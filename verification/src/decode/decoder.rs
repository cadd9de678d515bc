//! The decoder.

use std::rc::Rc;

use vstd::prelude::*;

use crate::decode::error::DecodeError;
use crate::decode::lists::create_ref_pic_lists;
use crate::decode::machine;
use crate::decode::machine::{
    CurrentPicture, Delivery, ExportedFrame, Nal, Output, Pixels, Reply, Request, Step, Turn, Unit,
    Wait, Work,
};
use crate::decode::nv12;
use crate::decode::nv12::{pack_nv12, VaImage};
use crate::decode::params::{build_iq_matrix, build_pic_param, build_slice_param};
use crate::decode::sequence;
use crate::decode::sequence::{is_referred_to, visible_size, Sequence, SequenceInfo};
use crate::decode::state::{Memory, MemoryState};
use crate::h264::dpb::ref_lists::ReferencePicLists;
use crate::h264::picture::PictureData;
use crate::h264::syntax::{Pps, Slice};
use crate::surface::{DrmPrimeSurfaceDescriptor, Handle};
use crate::va::{USAGE_HINT_DECODER, VA_FOURCC_NV12, VA_RT_FORMAT_YUV420};

verus! {

broadcast use vstd::std_specs::hash::group_hash_axioms;

/// An H.264 decoder. Built once, fed access units, emits NV12.
///
/// The decoder decides and the driver acts: each call either comes back with the
/// pictures that are due, or with a [`Request`] for the driver whose [`Reply`] goes
/// to [`Decoder::resume`].
#[derive(Debug)]
pub struct Decoder {
    memory: Memory,
    work: Work,
}

impl View for Decoder {
    type V = MemoryState;

    closed spec fn view(&self) -> MemoryState {
        self.memory@
    }
}

impl Decoder {
    /// Where the decoder stands.
    pub closed spec fn spec_work(self) -> Work {
        self.work
    }

    /// Whether no request is outstanding.
    pub open spec fn idle(self) -> bool {
        self.spec_work() is Idle
    }

    /// What holds of every decoder.
    pub closed spec fn wf(self) -> bool {
        &&& machine::machine_wf(self@, self.work)
        &&& self.memory.fit()
    }

    /// The turn that led here and came to `result`.
    pub open spec fn turn(self, result: Result<Step, DecodeError>) -> Turn {
        Turn { memory: self@, work: self.spec_work(), result }
    }

    /// Returns a decoder that has seen nothing.
    pub(crate) fn fresh() -> (d: Decoder)
        ensures
            d.wf(),
            d.idle(),
            d@ == MemoryState::initial(),
    {
        Decoder { memory: Memory::new(), work: Work::Idle }
    }

    /// Returns whether no request is outstanding.
    pub fn is_idle(&self) -> (b: bool)
        ensures
            b == self.idle(),
    {
        matches!(self.work, Work::Idle)
    }

    /// Returns whether the decoder still needs `surface`: a decoded picture is in
    /// it, or it may be decoded into again. Any other surface can be destroyed.
    pub fn keeps(&self, surface: u32) -> (b: bool)
        requires
            self.idle(),
        ensures
            b == (sequence::referred_to(self@.dpb.entries, self@.ready, surface) || (
            self@.sequence matches Some(s) && s.surfaces.contains(surface))),
    {
        let pooled = match &self.memory.sequence {
            Some(s) => s.pool.contains(surface),
            None => false,
        };
        pooled || is_referred_to(&self.memory.dpb, &self.memory.ready, surface)
    }

    /// Returns the active sequence, if there is one.
    pub fn sequence(&self) -> (s: Option<&Sequence>)
        ensures
            match s {
                Some(s) => self@.sequence == Some(s@),
                None => self@.sequence is None,
            },
    {
        match &self.memory.sequence {
            Some(s) => Some(s),
            None => None,
        }
    }

    /// Gives up on whatever is in flight.
    fn fail(&mut self, e: DecodeError) -> (r: Result<Step, DecodeError>)
        requires
            machine::pps_valid(old(self)@.pps),
            old(self).memory.fit(),
        ensures
            machine::fails(old(self)@, e, final(self).turn(r)),
            final(self).wf(),
    {
        self.work = Work::Idle;
        Err(e)
    }

    /// Gives up on the picture in flight, which is `handle`.
    fn give_up(&mut self, handle: Handle, e: DecodeError) -> (r: Result<Step, DecodeError>)
        requires
            machine::pps_valid(old(self)@.pps),
            old(self).memory.fit(),
        ensures
            machine::gives_up(old(self)@, handle, e, final(self).turn(r)),
            final(self).wf(),
    {
        let mut gone: Vec<Handle> = Vec::new();
        gone.push(handle);
        assert(gone@ =~= seq![handle]);
        self.memory.free(&gone);
        self.fail(e)
    }

    /// Gives up on the pictures of `d`.
    fn fail_delivery(&mut self, d: Delivery, e: DecodeError) -> (r: Result<Step, DecodeError>)
        requires
            machine::pps_valid(old(self)@.pps),
            old(self).memory.fit(),
        ensures
            machine::delivery_fails(old(self)@, d, e, final(self).turn(r)),
            final(self).wf(),
    {
        self.memory.free(&d.handles);
        self.fail(e)
    }

    /// Starts delivering the ready queue.
    fn deliver(&mut self, output: Output) -> (r: Result<Step, DecodeError>)
        requires
            machine::pps_valid(old(self)@.pps),
            old(self).memory.fit(),
        ensures
            machine::delivers(old(self)@, output, final(self).turn(r)),
            final(self).wf(),
    {
        let mut handles: Vec<Handle> = Vec::new();
        std::mem::swap(&mut handles, &mut self.memory.ready);
        if handles.len() == 0 {
            self.work = Work::Idle;
            return match output {
                Output::Frames => Ok(Step::Frames(Vec::new())),
                Output::Exported => Ok(Step::Exported(Vec::new())),
            };
        }
        let surface: u32 = handles[0].surface;
        self.work =
        Work::Delivering(
            Delivery {
                handles,
                next: 0,
                output,
                frames: Vec::new(),
                exported: Vec::new(),
                wait: Pixels::Sync,
            },
        );
        Ok(Step::Ask(Request::SyncSurface { surface }))
    }

    /// Hands the driver the parameters of the picture `slice` starts in `surface`.
    fn start(
        &mut self,
        unit: Unit,
        slice: Rc<Slice>,
        pps: Rc<Pps>,
        pic: PictureData,
        ref_pic_lists: ReferencePicLists,
        surface: u32,
    ) -> (r: Result<Step, DecodeError>)
        requires
            machine::pps_valid(old(self)@.pps),
            old(self).memory.sequence is Some,
            old(self).memory.fit(),
            pps.sps.valid(),
            machine::conforms(old(self)@.pps, *slice),
            unit.next <= unit.nals@.len(),
            !pic.nonexisting,
            ref_pic_lists.built(old(self)@.dpb.entries, pic),
            ref_pic_lists.within(old(self)@.dpb.entries.len()),
        ensures
            machine::starts(old(self)@, unit, slice, pps, pic, surface, final(self).turn(r)),
            final(self).wf(),
    {
        let (width, height): (u32, u32) = match &self.memory.sequence {
            Some(s) => (s.width, s.height),
            None => (0, 0),
        };
        let handle = Handle { surface, timestamp: unit.timestamp, width, height };
        let pic_param = build_pic_param(
            &slice.header,
            &pic,
            surface,
            &self.memory.dpb,
            &pps.sps,
            &pps,
        );
        let iq_matrix = build_iq_matrix(&pps);
        let current = CurrentPicture {
            pic,
            first: Rc::clone(&slice),
            pps,
            handle,
            ref_pic_lists,
        };
        self.work = Work::Decoding { unit, wait: Wait::Picture { slice, current } };
        Ok(Step::Ask(Request::StartPicture { surface, pic_param, iq_matrix }))
    }

    /// Works out the picture `slice` starts and finds a surface for it.
    fn prepare(&mut self, unit: Unit, slice: Rc<Slice>, pps: Rc<Pps>) -> (r: Result<
        Step,
        DecodeError,
    >)
        requires
            machine::pps_valid(old(self)@.pps),
            old(self).memory.sequence is Some,
            old(self).memory.fit(),
            pps.sps.valid(),
            slice.valid_for(*pps.sps),
            machine::conforms(old(self)@.pps, *slice),
            unit.next <= unit.nals@.len(),
        ensures
            machine::prepares(old(self)@, unit, slice, pps, final(self).turn(r)),
            final(self).wf(),
    {
        let pic = match self.memory.prepare(&slice, &pps.sps, unit.timestamp) {
            Ok(pic) => pic,
            Err(e) => {
                return self.fail(e);
            },
        };
        let ref_pic_lists = self.memory.dpb.build_ref_pic_lists(&pic);
        let (free, width, height): (Option<u32>, u32, u32) = match &self.memory.sequence {
            Some(s) => (
                s.pool.take(&self.memory.dpb, &self.memory.ready),
                s.pool.width,
                s.pool.height,
            ),
            None => (None, 0, 0),
        };
        match free {
            Some(surface) => self.start(unit, slice, pps, pic, ref_pic_lists, surface),
            None => {
                self.work =
                Work::Decoding { unit, wait: Wait::Surface { slice, pps, pic, ref_pic_lists } };
                Ok(
                    Step::Ask(
                        Request::CreateSurface {
                            rt_format: VA_RT_FORMAT_YUV420,
                            fourcc: VA_FOURCC_NV12,
                            width,
                            height,
                            usage_hint: USAGE_HINT_DECODER,
                        },
                    ),
                )
            },
        }
    }

    /// Starts the picture `slice` begins: looks up its parameter sets, and has the
    /// driver open their sequence if the active one does not serve.
    fn begin_picture(&mut self, unit: Unit, slice: Rc<Slice>) -> (r: Result<Step, DecodeError>)
        requires
            machine::pps_valid(old(self)@.pps),
            old(self).memory.fit(),
            machine::conforms(old(self)@.pps, *slice),
            unit.next <= unit.nals@.len(),
        ensures
            machine::begins(old(self)@, unit, slice, final(self).turn(r)),
            final(self).wf(),
    {
        let id: u8 = slice.header.pic_parameter_set_id;
        let pps = match self.memory.pps.get(&id) {
            Some(pps) => Rc::clone(pps),
            None => {
                return self.fail(DecodeError::UnknownPps(id));
            },
        };
        // C.4.5.3: the DPB limits follow the active SPS whether or not the
        // sequence has to be rebuilt.
        self.memory.apply_limits(&pps.sps);
        let info = SequenceInfo::new(&pps.sps);
        let serves = match &self.memory.sequence {
            Some(s) => s.info == info,
            None => false,
        };
        if serves {
            // The picture shows what its own SPS leaves of it, if that is a 4:2:0
            // picture; the driver's side of the sequence does not depend on that.
            match (visible_size(&pps.sps), &mut self.memory.sequence) {
                (Ok((width, height)), Some(s)) => {
                    s.width = width;
                    s.height = height;
                },
                _ => {},
            }
            return self.prepare(unit, slice, pps);
        }
        // Surfaces are about to change shape, so let everything decoded against
        // the old sequence out first.

        self.memory.drain();
        match Sequence::new(&pps.sps) {
            Ok((request, sequence)) => {
                self.work = Work::Decoding { unit, wait: Wait::Sequence { slice, pps, sequence } };
                Ok(Step::Ask(Request::OpenSequence(request)))
            },
            Err(e) => self.fail(e),
        }
    }

    /// Hands the driver one slice: its parameters, its reference lists, and the
    /// slice NAL unit itself.
    fn decode_slice(&mut self, unit: Unit, current: CurrentPicture, slice: Rc<Slice>) -> (r: Result<
        Step,
        DecodeError,
    >)
        requires
            machine::pps_valid(old(self)@.pps),
            old(self).memory.fit(),
            machine::conforms(old(self)@.pps, *slice),
            unit.next <= unit.nals@.len(),
            machine::current_wf(old(self)@, current),
        ensures
            machine::slices(old(self)@, unit, current, slice, final(self).turn(r)),
            final(self).wf(),
    {
        // A slice may refer to a different PPS than the one that started the
        // picture, as long as it names the same SPS.
        let id: u8 = slice.header.pic_parameter_set_id;
        let pps = match self.memory.pps.get(&id) {
            Some(pps) => Rc::clone(pps),
            None => {
                return self.give_up(current.handle, DecodeError::UnknownPps(id));
            },
        };
        if SequenceInfo::new(&pps.sps) != SequenceInfo::new(&current.pps.sps) {
            return self.give_up(current.handle, DecodeError::SequenceChanged);
        }
        let (list0, list1) = match create_ref_pic_lists(
            &self.memory.dpb,
            self.memory.max_long_term_frame_idx,
            &current.pic,
            &slice.header,
            &current.ref_pic_lists,
        ) {
            Ok(lists) => lists,
            Err(e) => {
                return self.give_up(current.handle, e);
            },
        };
        let slice_param = build_slice_param(
            &slice.header,
            slice.data.len(),
            &list0,
            &list1,
            &pps.sps,
            &pps,
        );
        let surface: u32 = current.handle.surface;
        let current = CurrentPicture { pps, ..current };
        self.work = Work::Decoding { unit, wait: Wait::Slice { current } };
        Ok(Step::Ask(Request::AddSlice { surface, slice_param, slice }))
    }

    /// Hands the hardware the picture `current`.
    fn submit(
        &mut self,
        unit: Unit,
        current: CurrentPicture,
        following: Option<Rc<Slice>>,
    ) -> (r: Result<Step, DecodeError>)
        requires
            machine::pps_valid(old(self)@.pps),
            old(self).memory.fit(),
            following matches Some(slice) ==> machine::conforms(old(self)@.pps, *slice),
            unit.next <= unit.nals@.len(),
            machine::current_wf(old(self)@, current),
        ensures
            machine::submits(old(self)@, unit, current, following, final(self).turn(r)),
            final(self).wf(),
    {
        let surface: u32 = current.handle.surface;
        self.work = Work::Decoding { unit, wait: Wait::Submit { current, following } };
        Ok(Step::Ask(Request::SubmitPicture { surface }))
    }

    /// Reads the units from `from` on, up to the next slice: keeps the parameter
    /// sets among them, and returns where that slice is.
    fn read(&mut self, nals: &Vec<Nal>, from: usize) -> (r: Result<usize, DecodeError>)
        requires
            machine::pps_valid(old(self)@.pps),
            from <= nals@.len(),
        ensures
            final(self).memory.sequence == old(self).memory.sequence,
            machine::pps_valid(final(self)@.pps),
            ({
                let (i, pps, e) = machine::stop(nals@, from as int, old(self)@.pps);
                &&& final(self)@ == (MemoryState { pps, ..old(self)@ })
                &&& match e {
                    Some(e) => r matches Err(f) && f == e,
                    None => {
                        &&& r matches Ok(k) && k == i
                        &&& i <= nals@.len()
                        &&& i < nals@.len() ==> (nals@[i] matches Nal::Slice(Some(slice))
                            && machine::conforms(pps, *slice))
                    },
                }
            }),
    {
        let ghost start = self@;
        let mut i: usize = from;
        while i < nals.len()
            invariant
                machine::pps_valid(self@.pps),
                self.memory.sequence == old(self).memory.sequence,
                i <= nals@.len(),
                start == old(self)@,
                self@ == (MemoryState { pps: self@.pps, ..start }),
                machine::stop(nals@, from as int, start.pps) == machine::stop(
                    nals@,
                    i as int,
                    self@.pps,
                ),
            decreases nals@.len() - i,
        {
            match &nals[i] {
                Nal::Sps(Some(sps)) => {
                    if !sps.is_valid() {
                        return Err(DecodeError::Sps);
                    }
                },
                Nal::Sps(None) => {
                    return Err(DecodeError::Sps);
                },
                Nal::Pps(Some(pps)) => {
                    if !pps.sps.is_valid() {
                        return Err(DecodeError::Pps);
                    }
                    self.memory.pps.insert(pps.pic_parameter_set_id, Rc::clone(pps));
                },
                Nal::Pps(None) => {
                    return Err(DecodeError::Pps);
                },
                Nal::Slice(Some(slice)) => {
                    let ok = match self.memory.pps.get(&slice.header.pic_parameter_set_id) {
                        Some(pps) => slice.is_valid_for(&pps.sps),
                        None => true,
                    };
                    if ok {
                        return Ok(i);
                    } else {
                        return Err(DecodeError::SliceHeader);
                    }
                },
                Nal::Slice(None) => {
                    return Err(DecodeError::SliceHeader);
                },
                Nal::Other => {},
            }
            i = i + 1;
        }
        Ok(i)
    }

    /// Goes on in `unit`, up to the next slice or its end.
    fn advance(&mut self, unit: Unit, current: Option<CurrentPicture>) -> (r: Result<
        Step,
        DecodeError,
    >)
        requires
            machine::pps_valid(old(self)@.pps),
            old(self).memory.fit(),
            unit.next <= unit.nals@.len(),
            current matches Some(c) ==> machine::current_wf(old(self)@, c),
        ensures
            machine::advances(old(self)@, unit, current, final(self).turn(r)),
            final(self).wf(),
    {
        let i: usize = match self.read(&unit.nals, unit.next) {
            Ok(i) => i,
            Err(e) => {
                return match current {
                    Some(current) => self.give_up(current.handle, e),
                    None => self.fail(e),
                };
            },
        };
        if i < unit.nals.len() {
            let slice = match &unit.nals[i] {
                Nal::Slice(Some(slice)) => Rc::clone(slice),
                _ => vstd::pervasive::unreached(),
            };
            let unit = Unit { next: i + 1, ..unit };
            match current {
                // An access unit normally holds one picture, but nothing forces
                // that: `first_mb_in_slice == 0` starts a new one, so the picture
                // in flight is done.
                Some(current) => {
                    if slice.header.first_mb_in_slice == 0 {
                        self.submit(unit, current, Some(slice))
                    } else {
                        self.decode_slice(unit, current, slice)
                    }
                },
                None => self.begin_picture(unit, slice),
            }
        } else {
            let unit = Unit { next: i, ..unit };
            // Finishing here rather than on the next unit's first slice keeps the
            // hardware from holding a half-submitted picture between calls.
            match current {
                Some(current) => self.submit(unit, current, None),
                None => self.deliver(unit.output),
            }
        }
    }

    /// Runs the reference marking and bumping H.264 calls for once a
    /// picture is decoded, and goes on to what follows it.
    fn finish_picture(
        &mut self,
        unit: Unit,
        current: CurrentPicture,
        following: Option<Rc<Slice>>,
    ) -> (r: Result<Step, DecodeError>)
        requires
            machine::pps_valid(old(self)@.pps),
            old(self).memory.fit(),
            following matches Some(slice) ==> machine::conforms(old(self)@.pps, *slice),
            unit.next <= unit.nals@.len(),
        ensures
            machine::finishes(old(self)@, unit, current, following, final(self).turn(r)),
            final(self).wf(),
    {
        match self.memory.finish(
            current.pic,
            current.handle,
            &current.first.header.dec_ref_pic_marking,
            current.pps.sps.max_num_ref_frames,
        ) {
            Ok(_) => {},
            Err(e) => {
                return self.give_up(current.handle, e);
            },
        }
        match following {
            Some(slice) => self.begin_picture(unit, slice),
            None => self.deliver(unit.output),
        }
    }

    /// Goes on to the next picture of `d`, or hands over what was delivered.
    fn deliver_next(&mut self, d: Delivery) -> (r: Result<Step, DecodeError>)
        requires
            machine::pps_valid(old(self)@.pps),
            old(self).memory.fit(),
            old(self)@.ready.len() == 0,
            d.next < d.handles@.len(),
            d.output == Output::Frames ==> machine::frames_match(
                d.frames@,
                d.handles@.take(d.next + 1),
            ),
            d.output == Output::Exported ==> machine::exports_match(
                d.exported@,
                d.handles@.take(d.next + 1),
            ),
        ensures
            machine::delivered(old(self)@, d, d.frames@, d.exported@, final(self).turn(r)),
            final(self).wf(),
    {
        if d.handles.len() - d.next > 1 {
            let surface: u32 = d.handles[d.next + 1].surface;
            self.work = Work::Delivering(Delivery { next: d.next + 1, wait: Pixels::Sync, ..d });
            Ok(Step::Ask(Request::SyncSurface { surface }))
        } else {
            self.memory.free(&d.handles);
            self.work = Work::Idle;
            match d.output {
                Output::Frames => Ok(Step::Frames(d.frames)),
                Output::Exported => Ok(Step::Exported(d.exported)),
            }
        }
    }

    /// Copies the picture due out of `image`.
    fn download(&mut self, d: Delivery, image: VaImage) -> (r: Result<Step, DecodeError>)
        requires
            machine::pps_valid(old(self)@.pps),
            old(self).memory.fit(),
            old(self)@.ready.len() == 0,
            machine::delivery_wf(d),
            d.output == Output::Frames,
        ensures
            machine::downloads(old(self)@, d, image, final(self).turn(r)),
            final(self).wf(),
    {
        let handle: Handle = d.handles[d.next];
        match pack_nv12(&image, &handle) {
            Ok(frame) => {
                assert(nv12::is_packed(Ok(frame), image, handle));
                let mut frames = d.frames;
                frames.push(frame);
                assert(frames@ == d.frames@.push(frame));
                assert(d.handles@.take(d.next + 1) =~= d.handles@.take(d.next as int).push(handle));
                self.deliver_next(Delivery { frames, ..d })
            },
            Err(e) => self.fail_delivery(d, e),
        }
    }

    /// Keeps the export of the picture due, and takes its surface out of the pool.
    fn export(&mut self, d: Delivery, descriptor: DrmPrimeSurfaceDescriptor) -> (r: Result<
        Step,
        DecodeError,
    >)
        requires
            machine::pps_valid(old(self)@.pps),
            old(self).memory.fit(),
            old(self)@.ready.len() == 0,
            machine::delivery_wf(d),
            d.output == Output::Exported,
        ensures
            machine::delivered(
                machine::surface_retired(old(self)@, machine::due(d).surface),
                d,
                d.frames@,
                d.exported@.push(
                    ExportedFrame {
                        timestamp: machine::due(d).timestamp,
                        width: machine::due(d).width,
                        height: machine::due(d).height,
                        descriptor,
                    },
                ),
                final(self).turn(r),
            ),
            final(self).wf(),
    {
        let handle: Handle = d.handles[d.next];
        match &mut self.memory.sequence {
            Some(s) => {
                s.pool.retire(handle.surface);
            },
            None => {},
        }
        let frame = ExportedFrame {
            timestamp: handle.timestamp,
            width: handle.width,
            height: handle.height,
            descriptor,
        };
        let mut exported = d.exported;
        exported.push(frame);
        assert(d.handles@.take(d.next + 1) =~= d.handles@.take(d.next as int).push(handle));
        self.deliver_next(Delivery { exported, ..d })
    }

    /// Picks the image format to copy the picture due into.
    fn pick_format(&mut self, d: Delivery, formats: Vec<u32>) -> (r: Result<Step, DecodeError>)
        requires
            machine::pps_valid(old(self)@.pps),
            old(self).memory.fit(),
            old(self)@.ready.len() == 0,
            machine::delivery_wf(d),
            d.wait == Pixels::Formats,
        ensures
            machine::delivery_resumed(
                old(self)@,
                d,
                Reply::Formats(formats),
                final(self).turn(r),
            ),
            final(self).wf(),
    {
        let handle: Handle = d.handles[d.next];
        let mut k: usize = 0;
        while k < formats.len() && formats[k] != VA_FOURCC_NV12
            invariant
                k <= formats@.len(),
                forall|j: int| 0 <= j < k ==> formats@[j] != VA_FOURCC_NV12,
            decreases formats@.len() - k,
        {
            k = k + 1;
        }
        if k < formats.len() {
            proof {
                assert(machine::is_nv12_format(formats@, k as int));
                let c = machine::nv12_format(formats@).unwrap();
                assert(machine::is_nv12_format(formats@, c));
                assert(c == k) by {
                    if c < k {
                        assert(formats@[c] != VA_FOURCC_NV12);
                    }
                }
            }
            self.work = Work::Delivering(Delivery { wait: Pixels::Image, ..d });
            Ok(
                Step::Ask(
                    Request::GetImage {
                        surface: handle.surface,
                        format: k,
                        width: handle.width,
                        height: handle.height,
                    },
                ),
            )
        } else {
            assert forall|j: int| !machine::is_nv12_format(formats@, j) by {}
            self.fail_delivery(d, DecodeError::NoNv12Format)
        }
    }

    /// Takes the driver's answer about the picture due.
    fn resume_delivery(&mut self, d: Delivery, reply: Reply) -> (r: Result<Step, DecodeError>)
        requires
            machine::pps_valid(old(self)@.pps),
            old(self).memory.fit(),
            old(self)@.ready.len() == 0,
            machine::delivery_wf(d),
            machine::answers(Work::Delivering(d), reply),
        ensures
            machine::delivery_resumed(old(self)@, d, reply, final(self).turn(r)),
            final(self).wf(),
    {
        let handle: Handle = d.handles[d.next];
        match (d.wait, reply) {
            (Pixels::Sync, Reply::Done) => match d.output {
                Output::Frames => {
                    self.work = Work::Delivering(Delivery { wait: Pixels::Derive, ..d });
                    Ok(
                        Step::Ask(
                            Request::DeriveImage {
                                surface: handle.surface,
                                width: handle.width,
                                height: handle.height,
                            },
                        ),
                    )
                },
                Output::Exported => {
                    self.work = Work::Delivering(Delivery { wait: Pixels::Export, ..d });
                    Ok(Step::Ask(Request::ExportPrime { surface: handle.surface }))
                },
            },
            (Pixels::Derive, Reply::Image(image)) => {
                if image.fourcc == VA_FOURCC_NV12 {
                    self.download(d, image)
                } else {
                    self.work = Work::Delivering(Delivery { wait: Pixels::Formats, ..d });
                    Ok(Step::Ask(Request::QueryImageFormats))
                }
            },
            // Not every driver can derive every surface; copying always works.
            (Pixels::Derive, Reply::Failed(_)) => {
                self.work = Work::Delivering(Delivery { wait: Pixels::Formats, ..d });
                Ok(Step::Ask(Request::QueryImageFormats))
            },
            (Pixels::Formats, Reply::Formats(formats)) => self.pick_format(d, formats),
            (Pixels::Image, Reply::Image(image)) => self.download(d, image),
            (Pixels::Export, Reply::Exported(descriptor)) => self.export(d, descriptor),
            (_, Reply::Failed(failure)) => self.fail_delivery(d, DecodeError::Device(failure)),
            _ => vstd::pervasive::unreached(),
        }
    }

    /// Decodes one access unit; once the driver has done its part, comes back with
    /// the pictures that came due, in output order.
    ///
    /// `timestamp` is opaque and travels with the picture coded in this access
    /// unit, so it survives DPB reordering. Parameter sets are read from the
    /// stream, so an access unit carrying only an SPS and a PPS decodes to no
    /// frames.
    pub fn decode(&mut self, access_unit: Vec<Nal>, timestamp: u64) -> (r: Result<
        Step,
        DecodeError,
    >)
        requires
            old(self).wf(),
            old(self).idle(),
        ensures
            machine::advances(
                old(self)@,
                (Unit { nals: access_unit, next: 0, timestamp, output: Output::Frames }),
                None,
                final(self).turn(r),
            ),
            final(self).wf(),
    {
        self.advance(Unit { nals: access_unit, next: 0, timestamp, output: Output::Frames }, None)
    }

    /// Decodes one access unit, leaving the pictures that came due on the GPU.
    ///
    /// The same decode as [`Decoder::decode`], differing only in what the caller
    /// gets back: a DRM PRIME descriptor for each picture's surface instead of a
    /// copy of its pixels.
    ///
    /// Exporting a surface retires it from the recycling pool, since the next
    /// picture would otherwise be decoded over pixels the consumer still holds a
    /// descriptor for.
    pub fn decode_exported(&mut self, access_unit: Vec<Nal>, timestamp: u64) -> (r: Result<
        Step,
        DecodeError,
    >)
        requires
            old(self).wf(),
            old(self).idle(),
        ensures
            machine::advances(
                old(self)@,
                (Unit { nals: access_unit, next: 0, timestamp, output: Output::Exported }),
                None,
                final(self).turn(r),
            ),
            final(self).wf(),
    {
        self.advance(
            Unit { nals: access_unit, next: 0, timestamp, output: Output::Exported },
            None,
        )
    }

    /// Delivers every picture still held in the DPB, in output order, and resets
    /// the decoder to await a new IDR.
    pub fn flush(&mut self) -> (r: Result<Step, DecodeError>)
        requires
            old(self).wf(),
            old(self).idle(),
        ensures
            machine::delivers(old(self)@.reset(), Output::Frames, final(self).turn(r)),
            final(self).wf(),
    {
        self.memory.reset();
        self.deliver(Output::Frames)
    }

    /// [`Decoder::flush`] for a caller taking its pictures on the GPU.
    pub fn flush_exported(&mut self) -> (r: Result<Step, DecodeError>)
        requires
            old(self).wf(),
            old(self).idle(),
        ensures
            machine::delivers(old(self)@.reset(), Output::Exported, final(self).turn(r)),
            final(self).wf(),
    {
        self.memory.reset();
        self.deliver(Output::Exported)
    }

    /// Takes the driver's answer to the last request, and goes on.
    pub fn resume(&mut self, reply: Reply) -> (r: Result<Step, DecodeError>)
        requires
            old(self).wf(),
            machine::answers(old(self).spec_work(), reply),
        ensures
            machine::resumed(old(self)@, old(self).spec_work(), reply, final(self).turn(r)),
            final(self).wf(),
    {
        let mut work = Work::Idle;
        std::mem::swap(&mut work, &mut self.work);
        match work {
            Work::Idle => vstd::pervasive::unreached(),
            Work::Decoding { unit, wait } => match (wait, reply) {
                (Wait::Picture { current, .. }, Reply::Failed(failure)) => self.give_up(
                    current.handle,
                    DecodeError::Device(failure),
                ),
                (Wait::Slice { current }, Reply::Failed(failure)) => self.give_up(
                    current.handle,
                    DecodeError::Device(failure),
                ),
                (Wait::Submit { current, .. }, Reply::Failed(failure)) => self.give_up(
                    current.handle,
                    DecodeError::Device(failure),
                ),
                (_, Reply::Failed(failure)) => self.fail(DecodeError::Device(failure)),
                (Wait::Sequence { slice, pps, sequence }, Reply::Done) => {
                    self.memory.sequence = Some(sequence);
                    self.prepare(unit, slice, pps)
                },
                (
                    Wait::Surface { slice, pps, pic, ref_pic_lists },
                    Reply::Surface(surface),
                ) => {
                    match &mut self.memory.sequence {
                        Some(s) => {
                            s.pool.surfaces.push(surface);
                        },
                        None => {},
                    }
                    self.start(unit, slice, pps, pic, ref_pic_lists, surface)
                },
                (Wait::Picture { slice, current }, Reply::Done) => self.decode_slice(
                    unit,
                    current,
                    slice,
                ),
                (Wait::Slice { current }, Reply::Done) => self.advance(unit, Some(current)),
                (Wait::Submit { current, following }, Reply::Done) => self.finish_picture(
                    unit,
                    current,
                    following,
                ),
                _ => vstd::pervasive::unreached(),
            },
            Work::Delivering(d) => self.resume_delivery(d, reply),
        }
    }
}

////// Laws

/// Between turns every decoder is where the laws on turns and histories begin.
pub proof fn decoders_stand_between_turns(d: Decoder)
    requires
        d.wf(),
    ensures
        machine::machine_wf(d@, d.spec_work()),
{
}

/// Only progressive 8-bit 4:2:0 is ever decoded: no other sequence becomes active.
pub proof fn only_supported_sequences_are_decoded(d: Decoder)
    requires
        d.wf(),
    ensures
        d@.sequence matches Some(s) ==> s.info.supported(),
{
}

} // verus!
