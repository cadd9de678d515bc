use std::rc::Rc;

use moq_vaapi::decode::decoder::Decoder;
use moq_vaapi::decode::error::DecodeError;
use moq_vaapi::decode::machine::{ExportedFrame, Nal, Reply, Request, Step};
use moq_vaapi::decode::nv12::{Frame, VaImage};
use moq_vaapi::decode::opening::{Config, OpenReply, OpenRequest, OpenStep};
use moq_vaapi::decode::params::{PictureParameterBufferH264, SliceParameterBufferH264};
use moq_vaapi::decode::sequence::SequenceRequest;
use moq_vaapi::dmabuf::drm;
use moq_vaapi::h264::dpb::MmcoError;
use moq_vaapi::h264::syntax::{
    MaxLongTermFrameIdx, Pps, PredWeightTable, Rect, RefPicListModification, RefPicMarking,
    RefPicMarkingInner, Slice, SliceHeader, SliceType, Sps,
};
use moq_vaapi::surface::{
    DrmPrimeSurfaceDescriptor, DrmPrimeSurfaceDescriptorLayer, DrmPrimeSurfaceDescriptorObject,
};
use moq_vaapi::va::{
    VaCall, VaFailure, VA_FOURCC_NV12, VA_INVALID_ID, VA_PICTURE_H264_INVALID,
    VA_PICTURE_H264_SHORT_TERM_REFERENCE,
};

const WIDTH: u32 = 320;
const HEIGHT: u32 = 240;

/// A gray field with a moving block, so a picture that decoded into the
/// wrong surface is visible as the block being in the wrong place.
fn nv12_frame(width: u32, height: u32, step: u32) -> Vec<u8> {
    let (w, h) = (width as usize, height as usize);
    let mut data = vec![128u8; w * h * 3 / 2];
    let x0 = (step * 16) as usize % (w / 2);
    for y in h / 4..h / 2 {
        for x in x0..x0 + w / 4 {
            data[y * w + x] = 235;
        }
    }
    data
}

fn sps(max_dpb_frames: usize, max_num_ref_frames: u8) -> Sps {
    Sps {
        profile_idc: 100,
        level_idc: 30,
        chroma_format_idc: 1,
        separate_colour_plane_flag: false,
        bit_depth_luma_minus8: 0,
        bit_depth_chroma_minus8: 0,
        log2_max_frame_num_minus4: 0,
        pic_order_cnt_type: 0,
        log2_max_pic_order_cnt_lsb_minus4: 0,
        delta_pic_order_always_zero_flag: false,
        offset_for_non_ref_pic: 0,
        offset_for_top_to_bottom_field: 0,
        num_ref_frames_in_pic_order_cnt_cycle: 0,
        offset_for_ref_frame: [0; 255],
        expected_delta_per_pic_order_cnt_cycle: 0,
        max_num_ref_frames,
        gaps_in_frame_num_value_allowed_flag: false,
        pic_width_in_mbs_minus1: 19,
        pic_height_in_map_units_minus1: 14,
        frame_mbs_only_flag: true,
        mb_adaptive_frame_field_flag: false,
        direct_8x8_inference_flag: true,
        width: WIDTH,
        height: HEIGHT,
        visible: Rect { min_x: 0, min_y: 0, max_x: WIDTH, max_y: HEIGHT },
        max_dpb_frames,
        max_num_order_frames: 0,
    }
}

fn pps(id: u8, sps: &Rc<Sps>) -> Pps {
    Pps {
        sps: Rc::clone(sps),
        pic_parameter_set_id: id,
        entropy_coding_mode_flag: true,
        bottom_field_pic_order_in_frame_present_flag: false,
        weighted_pred_flag: false,
        weighted_bipred_idc: 0,
        pic_init_qp_minus26: 0,
        pic_init_qs_minus26: 0,
        chroma_qp_index_offset: -2,
        deblocking_filter_control_present_flag: true,
        constrained_intra_pred_flag: false,
        redundant_pic_cnt_present_flag: false,
        transform_8x8_mode_flag: true,
        scaling_lists_4x4: [[16; 16]; 6],
        scaling_lists_8x8: [[16; 64]; 6],
        second_chroma_qp_index_offset: -2,
    }
}

fn parameter_sets(sps: Sps) -> Vec<Nal> {
    let sps = Rc::new(sps);
    vec![Nal::Sps(Some(Rc::clone(&sps))), Nal::Pps(Some(Rc::new(pps(0, &sps))))]
}

/// A slice of the picture `step`: an IDR picture first, references after it, each
/// next in both frame number and output order.
fn slice(step: u32) -> Slice {
    let idr = step == 0;
    Slice {
        header: SliceHeader {
            first_mb_in_slice: 0,
            slice_type: if idr { SliceType::I } else { SliceType::P },
            pic_parameter_set_id: 0,
            frame_num: (step % 16) as u16,
            field_pic_flag: false,
            bottom_field_flag: false,
            idr_pic_id: 0,
            pic_order_cnt_lsb: (2 * step % 16) as u16,
            delta_pic_order_cnt_bottom: 0,
            delta_pic_order_cnt: [0, 0],
            direct_spatial_mv_pred_flag: false,
            num_ref_idx_l0_active_minus1: 0,
            num_ref_idx_l1_active_minus1: 0,
            ref_pic_list_modification_flag_l0: false,
            ref_pic_list_modification_l0: Vec::new(),
            ref_pic_list_modification_flag_l1: false,
            ref_pic_list_modification_l1: Vec::new(),
            pred_weight_table: PredWeightTable {
                luma_log2_weight_denom: 0,
                chroma_log2_weight_denom: 0,
                luma_weight_l0: [1; 32],
                luma_offset_l0: [0; 32],
                chroma_weight_l0: [[1; 2]; 32],
                chroma_offset_l0: [[0; 2]; 32],
                luma_weight_l1: [1; 32],
                luma_offset_l1: [0; 32],
                chroma_weight_l1: [[1; 2]; 32],
                chroma_offset_l1: [[0; 2]; 32],
            },
            dec_ref_pic_marking: RefPicMarking {
                no_output_of_prior_pics_flag: false,
                long_term_reference_flag: false,
                adaptive_ref_pic_marking_mode_flag: false,
                inner: Vec::new(),
            },
            cabac_init_idc: 0,
            slice_qp_delta: 0,
            disable_deblocking_filter_idc: 0,
            slice_alpha_c0_offset_div2: 0,
            slice_beta_offset_div2: 0,
            max_pic_num: 16,
            header_bit_size: 40,
        },
        nal_ref_idc: 1,
        idr_pic_flag: idr,
        data: vec![0x65, step as u8],
    }
}

fn unit(slice: Slice) -> Vec<Nal> {
    vec![Nal::Slice(Some(Rc::new(slice)))]
}

fn op(operation: u8) -> RefPicMarkingInner {
    RefPicMarkingInner {
        memory_management_control_operation: operation,
        difference_of_pic_nums_minus1: 0,
        long_term_pic_num: 0,
        long_term_frame_idx: 0,
        max_long_term_frame_idx: MaxLongTermFrameIdx::NoLongTermFrameIndices,
    }
}

fn failure(call: VaCall) -> VaFailure {
    VaFailure { call, status: 1 }
}

/// A driver in software: a picture is the step its last slice named.
struct Driver {
    opened: Vec<SequenceRequest>,
    pictures: Vec<PictureParameterBufferH264>,
    slices: Vec<SliceParameterBufferH264>,
    /// What each surface holds.
    surfaces: Vec<u32>,
    current: u32,
    derives: bool,
    formats: Vec<u32>,
    /// Fails the call to make next.
    fail: Option<VaCall>,
    /// Names the requests made.
    calls: Vec<&'static str>,
}

fn driver() -> Driver {
    Driver {
        opened: Vec::new(),
        pictures: Vec::new(),
        slices: Vec::new(),
        surfaces: Vec::new(),
        current: 0,
        derives: true,
        formats: vec![1, VA_FOURCC_NV12],
        fail: None,
        calls: Vec::new(),
    }
}

impl Driver {
    /// The picture in `surface`, its rows padded.
    fn image(&self, surface: u32, fourcc: u32) -> VaImage {
        let (w, h, pitch) = (WIDTH as usize, HEIGHT as usize, 384);
        let packed = nv12_frame(WIDTH, HEIGHT, self.surfaces[surface as usize]);
        let mut data = vec![0u8; 64];
        for row in packed.chunks(w) {
            data.extend_from_slice(row);
            data.extend(vec![7u8; pitch - w]);
        }
        VaImage {
            fourcc,
            offsets: [64, 64 + (pitch * h) as u32, 0],
            pitches: [pitch as u32, pitch as u32, 0],
            data,
        }
    }

    fn answer(&mut self, request: Request) -> Reply {
        let (name, call) = match &request {
            Request::OpenSequence(_) => ("open", VaCall::CreateConfig),
            Request::CreateSurface { .. } => ("surface", VaCall::CreateSurfaces),
            Request::StartPicture { .. } => ("picture", VaCall::CreateBuffer),
            Request::AddSlice { .. } => ("slice", VaCall::CreateBuffer),
            Request::SubmitPicture { .. } => ("submit", VaCall::EndPicture),
            Request::SyncSurface { .. } => ("sync", VaCall::SyncSurface),
            Request::DeriveImage { .. } => ("derive", VaCall::DeriveImage),
            Request::QueryImageFormats => ("formats", VaCall::QueryImageFormats),
            Request::GetImage { .. } => ("image", VaCall::GetImage),
            Request::ExportPrime { .. } => ("export", VaCall::ExportSurface),
        };
        self.calls.push(name);
        if self.fail == Some(call) {
            self.fail = None;
            return Reply::Failed(failure(call));
        }
        match request {
            Request::OpenSequence(request) => {
                self.opened.push(request);
                Reply::Done
            }
            Request::CreateSurface { rt_format, fourcc, width, height, usage_hint } => {
                assert_eq!((rt_format, fourcc, usage_hint), (1, VA_FOURCC_NV12, 1));
                let opened = self.opened.last().expect("a sequence");
                assert_eq!((width, height), (opened.coded_width, opened.coded_height));
                self.surfaces.push(u32::MAX);
                Reply::Surface(self.surfaces.len() as u32 - 1)
            }
            Request::StartPicture { surface, pic_param, .. } => {
                assert_eq!(pic_param.curr_pic.picture_id, surface);
                self.current = surface;
                self.pictures.push(pic_param);
                Reply::Done
            }
            Request::AddSlice { surface, slice_param, slice } => {
                assert_eq!(surface, self.current);
                assert_eq!(slice_param.slice_data_size as usize, slice.data.len());
                self.surfaces[surface as usize] = slice.data[1] as u32;
                self.slices.push(slice_param);
                Reply::Done
            }
            Request::SubmitPicture { surface } => {
                assert_eq!(surface, self.current);
                Reply::Done
            }
            Request::SyncSurface { .. } => Reply::Done,
            Request::DeriveImage { surface, .. } => {
                if self.derives {
                    Reply::Image(self.image(surface, VA_FOURCC_NV12))
                } else {
                    Reply::Image(self.image(surface, 0))
                }
            }
            Request::QueryImageFormats => Reply::Formats(self.formats.clone()),
            Request::GetImage { surface, format, .. } => {
                Reply::Image(self.image(surface, self.formats[format]))
            }
            Request::ExportPrime { surface } => Reply::Exported(DrmPrimeSurfaceDescriptor {
                fourcc: VA_FOURCC_NV12,
                width: WIDTH,
                height: HEIGHT,
                objects: vec![DrmPrimeSurfaceDescriptorObject {
                    fd: 100 + surface as i32,
                    size: 0,
                    drm_format_modifier: 2,
                }],
                layers: vec![DrmPrimeSurfaceDescriptorLayer {
                    drm_format: drm::NV12,
                    num_planes: 2,
                    object_index: [0; 4],
                    offset: [0, WIDTH * HEIGHT, 0, 0],
                    pitch: [WIDTH, WIDTH, 0, 0],
                }],
            }),
        }
    }

    /// Answers the decoder until it has nothing left to ask.
    fn run(
        &mut self,
        decoder: &mut Decoder,
        step: Result<Step, DecodeError>,
    ) -> Result<Step, DecodeError> {
        let mut step = step;
        loop {
            match step {
                Ok(Step::Ask(request)) => {
                    assert!(!decoder.is_idle());
                    let reply = self.answer(request);
                    step = decoder.resume(reply);
                }
                done => {
                    assert!(decoder.is_idle());
                    return done;
                }
            }
        }
    }

    fn frames(
        &mut self,
        decoder: &mut Decoder,
        step: Result<Step, DecodeError>,
    ) -> Result<Vec<Frame>, DecodeError> {
        match self.run(decoder, step)? {
            Step::Frames(frames) => Ok(frames),
            other => panic!("unexpected {other:?}"),
        }
    }

    fn exported(
        &mut self,
        decoder: &mut Decoder,
        step: Result<Step, DecodeError>,
    ) -> Result<Vec<ExportedFrame>, DecodeError> {
        match self.run(decoder, step)? {
            Step::Exported(frames) => Ok(frames),
            other => panic!("unexpected {other:?}"),
        }
    }

    fn decode(
        &mut self,
        decoder: &mut Decoder,
        unit: Vec<Nal>,
        timestamp: u64,
    ) -> Result<Vec<Frame>, DecodeError> {
        let step = decoder.decode(unit, timestamp);
        self.frames(decoder, step)
    }

    fn flush(&mut self, decoder: &mut Decoder) -> Result<Vec<Frame>, DecodeError> {
        let step = decoder.flush();
        self.frames(decoder, step)
    }
}

fn open_decoder() -> Decoder {
    let (opening, request) = Decoder::new(Config::new());
    assert!(matches!(request, OpenRequest::OpenDisplay { device } if device == "/dev/dri/renderD128"));
    let opening = match opening.resume(OpenReply::Done) {
        Ok(OpenStep::Ask { opening, request: OpenRequest::QueryConfigProfiles }) => opening,
        other => panic!("unexpected {other:?}"),
    };
    let opening = match opening.resume(OpenReply::Profiles(vec![0, 6, 7])) {
        Ok(OpenStep::Ask { opening, request }) => {
            assert!(matches!(request, OpenRequest::QueryConfigEntrypoints { profile: 6 }));
            opening
        }
        other => panic!("unexpected {other:?}"),
    };
    match opening.resume(OpenReply::Entrypoints(vec![6, 1])) {
        Ok(OpenStep::Open(decoder)) => decoder,
        other => panic!("unexpected {other:?}"),
    }
}

/// A decoder that has read the parameter sets.
fn primed(sps: Sps) -> (Decoder, Driver) {
    let mut decoder = open_decoder();
    let mut driver = driver();
    assert!(driver.decode(&mut decoder, parameter_sets(sps), 99).expect("no error").is_empty());
    (decoder, driver)
}

fn timestamps(frames: &[Frame]) -> Vec<u64> {
    frames.iter().map(|frame| frame.timestamp).collect()
}

////// The stream as a whole

/// Every picture fed in comes back out, but only once the decoder is flushed.
///
/// C.4.5.3 bumps the DPB when a new picture needs a slot, so a stream that simply
/// stops leaves its tail sitting there.
#[test]
fn flush_returns_the_pictures_the_dpb_still_holds() {
    const PICTURES: u64 = 5;
    let (width, height) = (320u32, 240u32);
    let (mut decoder, mut driver) = primed(sps(1, 1));

    let mut streamed = Vec::new();
    for step in 0..PICTURES {
        let unit = unit(slice(step as u32));
        streamed.extend(driver.decode(&mut decoder, unit, step).expect("decode a picture"));
    }
    assert!(
        (streamed.len() as u64) < PICTURES,
        "the DPB held nothing back, so this test proves nothing"
    );

    let flushed = driver.flush(&mut decoder).expect("flush the decoder");
    let timestamps: Vec<u64> =
        streamed.iter().chain(&flushed).map(|picture| picture.timestamp).collect();
    assert_eq!(
        timestamps,
        (0..PICTURES).collect::<Vec<_>>(),
        "the stream lost pictures at its end"
    );
    for picture in streamed.iter().chain(&flushed) {
        assert_eq!((picture.width, picture.height), (width, height));
        assert_eq!(picture.data, nv12_frame(width, height, picture.timestamp as u32));
    }

    // The bumping process marks what it hands out, so a second flush finds
    // nothing and a caller that flushes twice never sees a picture twice.
    assert!(driver.flush(&mut decoder).expect("flush an empty decoder").is_empty());
}

/// Decode to DRM PRIME descriptors and check the pictures never share an
/// allocation: an exported surface is retired from the pool, because recycling it
/// would have a later picture decoded over pixels the caller still holds a
/// descriptor for.
#[test]
fn exported_pictures_do_not_share_a_surface() {
    let (width, height) = (320u32, 240u32);
    let (mut decoder, mut driver) = primed(sps(1, 1));

    let mut exported = Vec::new();
    for step in 0..8 {
        let first = decoder.decode_exported(unit(slice(step)), step as u64);
        exported.extend(driver.exported(&mut decoder, first).expect("decode a picture"));
    }
    let first = decoder.flush_exported();
    exported.extend(driver.exported(&mut decoder, first).expect("flush the decoder"));
    assert!(!exported.is_empty(), "the decoder produced no pictures");
    assert_eq!(exported.len(), 8);

    let first = &exported[0];
    println!(
        "exported {} pictures: {}x{} fourcc {:#x} modifier {:#x}",
        exported.len(),
        first.width,
        first.height,
        first.descriptor.fourcc,
        first.descriptor.objects[0].drm_format_modifier
    );

    let mut seen = Vec::new();
    for (index, frame) in exported.iter().enumerate() {
        assert_eq!((frame.width, frame.height), (width, height));
        assert_eq!(frame.descriptor.fourcc, VA_FOURCC_NV12);
        assert_eq!(frame.descriptor.objects.len(), 1, "a composed export is one object");
        assert_eq!(frame.descriptor.layers[0].num_planes, 2, "NV12 is two planes");

        // Here the descriptor names the allocation behind it.
        let allocation = frame.descriptor.objects[0].fd;
        assert!(
            !seen.contains(&allocation),
            "picture {index} was decoded into an allocation an earlier one still holds"
        );
        seen.push(allocation);
        assert_eq!(frame.timestamp, index as u64);
    }
}

#[test]
fn downloaded_surfaces_are_used_again() {
    let (mut decoder, mut driver) = primed(sps(1, 1));
    for step in 0..12 {
        driver.decode(&mut decoder, unit(slice(step)), step as u64).expect("decode a picture");
    }
    assert_eq!(driver.surfaces.len(), 2);
    assert!(decoder.keeps(0) && decoder.keeps(1) && !decoder.keeps(2));
}

#[test]
fn streams_of_three_references_trail_by_three_pictures() {
    let (mut decoder, mut driver) = primed(sps(3, 3));
    let mut out = Vec::new();
    for step in 0..7 {
        let frames = driver.decode(&mut decoder, unit(slice(step)), step as u64).expect("decode");
        out.extend(timestamps(&frames));
        assert_eq!(out.len() as u32, (step + 1).saturating_sub(3));
    }
    out.extend(timestamps(&driver.flush(&mut decoder).expect("flush")));
    assert_eq!(out, vec![0, 1, 2, 3, 4, 5, 6]);
}

/// The frame numbers wrap twice on the way.
#[test]
fn streams_trail_by_the_frames_their_buffer_holds() {
    for (frames, references) in [(1, 1), (3, 3), (4, 2), (6, 1)] {
        let (mut decoder, mut driver) = primed(sps(frames, references));
        let mut out = Vec::new();
        for step in 0..40 {
            let due = driver.decode(&mut decoder, unit(slice(step)), step as u64).expect("decode");
            for frame in &due {
                assert_eq!(frame.width % 2 + frame.height % 2, 0);
                let (width, height) = (frame.width as usize, frame.height as usize);
                assert_eq!(frame.data.len(), width * height * 3 / 2);
            }
            out.extend(timestamps(&due));
            let trailing = (step as usize + 1).saturating_sub(frames);
            assert_eq!(out, (0..trailing as u64).collect::<Vec<_>>());
        }
    }
}

/// Each picture but the first few names the oldest reference to be unmarked.
#[test]
fn streams_that_unmark_the_oldest_trail_alike() {
    let (mut decoder, mut driver) = primed(sps(3, 3));
    let mut out = Vec::new();
    for step in 0..40 {
        let mut coded = slice(step);
        if step >= 3 && step % 2 == 1 {
            coded.header.dec_ref_pic_marking = RefPicMarking {
                adaptive_ref_pic_marking_mode_flag: true,
                inner: vec![RefPicMarkingInner { difference_of_pic_nums_minus1: 2, ..op(1) }],
                ..coded.header.dec_ref_pic_marking
            };
        }
        let due = driver.decode(&mut decoder, unit(coded), step as u64).expect("decode");
        out.extend(timestamps(&due));
        let trailing = (step as usize + 1).saturating_sub(3);
        assert_eq!(out, (0..trailing as u64).collect::<Vec<_>>());
    }
}

/// Coded 0, 1, 2 and shown 0, 2, 1, twice over.
#[test]
fn each_coded_sequence_comes_out_in_its_own_order() {
    let (mut decoder, mut driver) = primed(sps(3, 3));
    let mut out = Vec::new();
    for (i, lsb) in [0, 4, 2, 0, 4, 2].iter().enumerate() {
        let mut coded = slice(i as u32 % 3);
        coded.header.pic_order_cnt_lsb = *lsb;
        let due = driver.decode(&mut decoder, unit(coded), i as u64).expect("decode");
        out.extend(timestamps(&due));
    }
    assert!(out.len() < 6);
    out.extend(timestamps(&driver.flush(&mut decoder).expect("flush")));
    assert_eq!(out, vec![0, 2, 1, 3, 5, 4]);
}

#[test]
fn the_surface_freed_last_is_used_next() {
    let (mut decoder, mut driver) = primed(sps(3, 3));
    for (i, lsb) in [0, 4, 2].iter().enumerate() {
        let mut coded = slice(i as u32);
        coded.header.pic_order_cnt_lsb = *lsb;
        driver.decode(&mut decoder, unit(coded), i as u64).expect("decode");
    }
    assert_eq!(driver.surfaces.len(), 3);
    assert_eq!(timestamps(&driver.flush(&mut decoder).expect("flush")), vec![0, 2, 1]);
    // Surface 1 was let go of last, surface 2 before it, and surface 0 first.
    for (step, surface) in [(0, 1), (1, 2), (2, 0)] {
        driver.decode(&mut decoder, unit(slice(step)), step as u64).expect("decode");
        let picture = driver.pictures.last().expect("a picture");
        assert_eq!(picture.curr_pic.picture_id, surface);
    }
}

#[test]
fn a_picture_given_up_frees_its_surface() {
    let (mut decoder, mut driver) = primed(sps(3, 3));
    for step in 0..2 {
        driver.decode(&mut decoder, unit(slice(step)), step as u64).expect("decode");
    }
    driver.flush(&mut decoder).expect("flush");
    driver.fail = Some(VaCall::EndPicture);
    assert!(driver.decode(&mut decoder, unit(slice(0)), 2).is_err());
    let given_up = driver.pictures.last().expect("a picture").curr_pic.picture_id;
    driver.decode(&mut decoder, unit(slice(0)), 3).expect("decode");
    assert_eq!(driver.pictures.last().expect("a picture").curr_pic.picture_id, given_up);
    assert_eq!(driver.surfaces.len(), 2);
}

#[test]
fn a_failed_export_retires_nothing() {
    let (mut decoder, mut driver) = primed(sps(1, 1));
    driver.decode(&mut decoder, unit(slice(0)), 0).expect("decode");
    assert!(decoder.keeps(0));
    driver.fail = Some(VaCall::ExportSurface);
    let first = decoder.flush_exported();
    assert!(driver.exported(&mut decoder, first).is_err());
    assert!(decoder.keeps(0));
    // The next picture goes into the same surface, and its export retires it.
    let first = decoder.decode_exported(unit(slice(0)), 1);
    assert!(driver.exported(&mut decoder, first).expect("decode").is_empty());
    assert_eq!(driver.surfaces.len(), 1);
    let first = decoder.flush_exported();
    assert_eq!(driver.exported(&mut decoder, first).expect("flush").len(), 1);
    assert!(!decoder.keeps(0));
}

#[test]
fn the_active_sequence_can_be_looked_at() {
    let (mut decoder, mut driver) = primed(sps(3, 3));
    assert!(decoder.sequence().is_none());
    driver.decode(&mut decoder, unit(slice(0)), 0).expect("decode");
    let sequence = decoder.sequence().expect("a sequence");
    assert_eq!((sequence.width, sequence.height), (WIDTH, HEIGHT));
    assert_eq!(sequence.info.max_dpb_frames, 3);
}

#[test]
fn pictures_come_out_in_output_order() {
    // I0 P4 b2: decoded in that order, shown as 0 2 4.
    let (mut decoder, mut driver) = primed(sps(3, 2));
    driver.decode(&mut decoder, unit(slice(0)), 0).expect("decode");
    let mut p = slice(1);
    p.header.pic_order_cnt_lsb = 4;
    driver.decode(&mut decoder, unit(p), 4).expect("decode");
    let mut b = slice(2);
    b.header.slice_type = SliceType::B;
    b.header.pic_order_cnt_lsb = 2;
    b.nal_ref_idc = 0;
    driver.decode(&mut decoder, unit(b), 2).expect("decode");
    let out = driver.flush(&mut decoder).expect("flush");
    assert_eq!(timestamps(&out), vec![0, 2, 4]);

    // The B slice sees the picture before it in list 0, the one after in list 1.
    let b = driver.slices.last().expect("a slice");
    assert_eq!(b.slice_type, 1);
    assert_eq!(b.ref_pic_list_0[0].top_field_order_cnt, 0);
    assert_eq!(b.ref_pic_list_1[0].top_field_order_cnt, 4);
    assert_eq!(b.ref_pic_list_0[1].picture_id, VA_INVALID_ID);
}

#[test]
fn non_reference_pictures_skip_a_full_buffer() {
    let (mut decoder, mut driver) = primed(sps(1, 1));
    driver.decode(&mut decoder, unit(slice(0)), 0).expect("decode");
    let mut b = slice(1);
    b.nal_ref_idc = 0;
    let out = driver.decode(&mut decoder, unit(b), 1).expect("decode");
    // The IDR picture is output for it, stays as the reference, and leaves no room.
    assert_eq!(timestamps(&out), vec![0, 1]);
}

#[test]
fn an_idr_picture_releases_what_came_before() {
    let (mut decoder, mut driver) = primed(sps(4, 4));
    driver.decode(&mut decoder, unit(slice(0)), 0).expect("decode");
    driver.decode(&mut decoder, unit(slice(1)), 1).expect("decode");
    let out = driver.decode(&mut decoder, unit(slice(0)), 2).expect("decode");
    assert_eq!(timestamps(&out), vec![0, 1]);

    let mut quiet = slice(0);
    quiet.header.dec_ref_pic_marking.no_output_of_prior_pics_flag = true;
    assert!(driver.decode(&mut decoder, unit(quiet), 3).expect("decode").is_empty());
    assert_eq!(timestamps(&driver.flush(&mut decoder).expect("flush")), vec![3]);
}

#[test]
fn one_unit_may_hold_two_pictures() {
    let (mut decoder, mut driver) = primed(sps(4, 4));
    let mut nals = unit(slice(0));
    nals.push(Nal::Other);
    nals.extend(unit(slice(1)));
    assert!(driver.decode(&mut decoder, nals, 5).expect("decode").is_empty());
    assert_eq!(driver.pictures.len(), 2);
    assert_eq!(timestamps(&driver.flush(&mut decoder).expect("flush")), vec![5, 5]);
    assert_eq!(
        driver.calls,
        vec![
            "open", "surface", "picture", "slice", "submit", "surface", "picture", "slice",
            "submit", "sync", "derive", "sync", "derive",
        ]
    );
}

#[test]
fn one_picture_may_have_two_slices() {
    let (mut decoder, mut driver) = primed(sps(4, 4));
    let mut second = slice(0);
    second.header.first_mb_in_slice = 150;
    let mut nals = unit(slice(0));
    nals.extend(unit(second));
    driver.decode(&mut decoder, nals, 0).expect("decode");
    assert_eq!((driver.pictures.len(), driver.slices.len()), (1, 2));
    assert_eq!(driver.slices[1].first_mb_in_slice, 150);
}

#[test]
fn a_new_sequence_releases_the_old_one() {
    let (mut decoder, mut driver) = primed(sps(4, 4));
    driver.decode(&mut decoder, unit(slice(0)), 0).expect("decode");
    let mut nals = parameter_sets(Sps { profile_idc: 77, ..sps(4, 4) });
    nals.extend(unit(slice(0)));
    let out = driver.decode(&mut decoder, nals, 1).expect("decode");
    assert_eq!(timestamps(&out), vec![0]);
    assert_eq!(driver.opened.len(), 2);
    assert_eq!(
        driver.opened[0],
        SequenceRequest {
            profile: 7,
            entrypoint: 1,
            rt_format: 1,
            coded_width: 320,
            coded_height: 240,
        }
    );
    assert_eq!(driver.opened[1].profile, 6);
}

#[test]
fn the_cropping_rectangle_is_what_shows() {
    let cropped = Sps {
        visible: Rect { min_x: 16, min_y: 8, max_x: 256, max_y: 200 },
        ..sps(1, 1)
    };
    let (mut decoder, mut driver) = primed(cropped);
    driver.decode(&mut decoder, unit(slice(0)), 0).expect("decode");
    let out = driver.flush(&mut decoder).expect("flush");
    assert_eq!((out[0].width, out[0].height), (240, 192));
    assert_eq!(out[0].data.len(), 240 * 192 * 3 / 2);
    let whole = nv12_frame(WIDTH, HEIGHT, 0);
    assert_eq!(out[0].data[60 * 240..60 * 240 + 100], whole[60 * 320..60 * 320 + 100]);
}

#[test]
fn cropping_follows_the_parameter_sets_without_a_new_sequence() {
    let (mut decoder, mut driver) = primed(sps(4, 4));
    driver.decode(&mut decoder, unit(slice(0)), 0).expect("decode");
    let visible = Rect { min_x: 0, min_y: 0, max_x: 160, max_y: 120 };
    let mut nals = parameter_sets(Sps { visible, ..sps(4, 4) });
    nals.extend(unit(slice(1)));
    assert!(driver.decode(&mut decoder, nals, 1).expect("decode").is_empty());
    assert_eq!(driver.opened.len(), 1);
    // A rectangle that leaves no 4:2:0 picture is not followed.
    for (step, max_x) in [(2, 161), (3, 0)] {
        let visible = Rect { min_x: 0, min_y: 0, max_x, max_y: 120 };
        let mut nals = parameter_sets(Sps { visible, ..sps(4, 4) });
        nals.extend(unit(slice(step)));
        assert!(driver.decode(&mut decoder, nals, step as u64).expect("decode").is_empty());
    }
    assert_eq!(driver.opened.len(), 1);
    let out = driver.flush(&mut decoder).expect("flush");
    let sizes: Vec<(u32, u32)> = out.iter().map(|frame| (frame.width, frame.height)).collect();
    assert_eq!(sizes, vec![(320, 240), (160, 120), (160, 120), (160, 120)]);
    assert!(out[1..].iter().all(|frame| frame.data.len() == 160 * 120 * 3 / 2));
}

#[test]
fn both_ways_deliver_the_same_pictures() {
    let (mut decoder, mut driver) = primed(sps(3, 3));
    let (mut exporting, mut other) = primed(sps(3, 3));
    for step in 0..9 {
        let frames = driver.decode(&mut decoder, unit(slice(step)), step as u64).expect("decode");
        let first = exporting.decode_exported(unit(slice(step)), step as u64);
        let exported = other.exported(&mut exporting, first).expect("decode");
        let one: Vec<_> = frames.iter().map(|f| (f.timestamp, f.width, f.height)).collect();
        let two: Vec<_> = exported.iter().map(|f| (f.timestamp, f.width, f.height)).collect();
        assert_eq!(one, two);
        assert_eq!(one.len(), if step < 3 { 0 } else { 1 });
    }
    // The pools differ all the same: what is exported is not used again.
    assert_eq!((driver.surfaces.len(), other.surfaces.len()), (4, 9));
}

#[test]
fn parameter_sets_alone_decode_to_no_frames() {
    let (mut decoder, mut driver) = primed(sps(1, 1));
    assert!(driver.decode(&mut decoder, vec![Nal::Other], 1).expect("decode").is_empty());
    assert!(driver.decode(&mut decoder, Vec::new(), 2).expect("decode").is_empty());
    assert!(driver.calls.is_empty());
}

#[test]
fn exporting_asks_for_the_same_decode() {
    let (mut decoder, mut driver_a) = primed(sps(1, 1));
    let step = decoder.decode(unit(slice(0)), 0);
    driver_a.run(&mut decoder, step).expect("decode");
    let (mut decoder, mut driver_b) = primed(sps(1, 1));
    let step = decoder.decode_exported(unit(slice(0)), 0);
    driver_b.run(&mut decoder, step).expect("decode");
    assert_eq!(driver_a.calls, driver_b.calls);
    assert_eq!(driver_a.pictures[0].curr_pic, driver_b.pictures[0].curr_pic);
}

////// What the driver is told

#[test]
fn picture_parameters_name_the_references() {
    let (mut decoder, mut driver) = primed(sps(3, 3));
    for step in 0..3 {
        driver.decode(&mut decoder, unit(slice(step)), step as u64).expect("decode");
    }
    let p = &driver.pictures[2];
    assert_eq!(p.curr_pic.picture_id, 2);
    assert_eq!(p.curr_pic.frame_idx, 2);
    assert_eq!(p.curr_pic.top_field_order_cnt, 4);
    assert_eq!(p.reference_frames[0].picture_id, 0);
    assert_eq!(p.reference_frames[1].picture_id, 1);
    assert_eq!(p.reference_frames[1].flags, VA_PICTURE_H264_SHORT_TERM_REFERENCE);
    assert_eq!(p.reference_frames[2].picture_id, VA_INVALID_ID);
    assert_eq!(p.reference_frames[15].flags, VA_PICTURE_H264_INVALID);
    assert_eq!((p.picture_width_in_mbs_minus1, p.picture_height_in_mbs_minus1), (19, 14));
    assert_eq!((p.num_ref_frames, p.frame_num), (3, 2));
    assert_eq!(p.pic_fields.reference_pic_flag, 1);
    assert_eq!(p.seq_fields.frame_mbs_only_flag, 1);

    // The newest reference comes first in the list of a P slice.
    let s = &driver.slices[2];
    assert_eq!(s.ref_pic_list_0[0].picture_id, 1);
    assert_eq!(s.ref_pic_list_0[1].picture_id, VA_INVALID_ID);
    assert_eq!((s.slice_data_size, s.slice_data_offset, s.slice_data_bit_offset), (2, 0, 40));
}

#[test]
fn list_modifications_move_a_picture_to_the_front() {
    let (mut decoder, mut driver) = primed(sps(3, 3));
    for step in 0..3 {
        driver.decode(&mut decoder, unit(slice(step)), step as u64).expect("decode");
    }
    let mut p = slice(3);
    p.header.num_ref_idx_l0_active_minus1 = 2;
    p.header.ref_pic_list_modification_flag_l0 = true;
    p.header.ref_pic_list_modification_l0 = vec![
        // Three before picture 3 is picture 0.
        RefPicListModification {
            modification_of_pic_nums_idc: 0,
            abs_diff_pic_num_minus1: 2,
            long_term_pic_num: 0,
        },
        RefPicListModification {
            modification_of_pic_nums_idc: 3,
            abs_diff_pic_num_minus1: 0,
            long_term_pic_num: 0,
        },
    ];
    driver.decode(&mut decoder, unit(p), 3).expect("decode");
    let list = &driver.slices.last().expect("a slice").ref_pic_list_0;
    assert_eq!(
        (list[0].frame_idx, list[1].frame_idx, list[2].frame_idx),
        (0, 2, 1)
    );
    assert_eq!(list[3].picture_id, VA_INVALID_ID);
}

#[test]
fn long_term_references_are_told_apart() {
    let (mut decoder, mut driver) = primed(sps(3, 3));
    let mut idr = slice(0);
    idr.header.dec_ref_pic_marking.long_term_reference_flag = true;
    driver.decode(&mut decoder, unit(idr), 0).expect("decode");
    driver.decode(&mut decoder, unit(slice(1)), 1).expect("decode");
    let mut p = slice(2);
    p.header.num_ref_idx_l0_active_minus1 = 1;
    driver.decode(&mut decoder, unit(p), 2).expect("decode");
    let list = &driver.slices.last().expect("a slice").ref_pic_list_0;
    assert_eq!((list[0].picture_id, list[0].flags), (1, 8));
    assert_eq!((list[1].picture_id, list[1].flags), (0, 16));

    // And a modification brings the long-term one forward.
    let mut p = slice(3);
    p.header.num_ref_idx_l0_active_minus1 = 1;
    p.header.ref_pic_list_modification_flag_l0 = true;
    p.header.ref_pic_list_modification_l0 = vec![RefPicListModification {
        modification_of_pic_nums_idc: 2,
        abs_diff_pic_num_minus1: 0,
        long_term_pic_num: 0,
    }];
    driver.decode(&mut decoder, unit(p), 3).expect("decode");
    let list = &driver.slices.last().expect("a slice").ref_pic_list_0;
    assert_eq!((list[0].picture_id, list[0].flags), (0, 16));
}

////// Delivery

#[test]
fn downloads_fall_back_to_copying() {
    let (mut decoder, mut driver) = primed(sps(1, 1));
    driver.derives = false;
    driver.decode(&mut decoder, unit(slice(0)), 0).expect("decode");
    let out = driver.flush(&mut decoder).expect("flush");
    assert_eq!(out[0].data, nv12_frame(WIDTH, HEIGHT, 0));
    assert!(driver.calls.ends_with(&["sync", "derive", "formats", "image"]));

    driver.derives = true;
    driver.fail = Some(VaCall::DeriveImage);
    driver.decode(&mut decoder, unit(slice(0)), 1).expect("decode");
    let out = driver.flush(&mut decoder).expect("flush");
    assert_eq!(out[0].data, nv12_frame(WIDTH, HEIGHT, 0));
    assert!(driver.calls.ends_with(&["sync", "derive", "formats", "image"]));
}

#[test]
fn downloads_need_an_nv12_format() {
    let (mut decoder, mut driver) = primed(sps(1, 1));
    driver.derives = false;
    driver.formats = vec![1, 2];
    driver.decode(&mut decoder, unit(slice(0)), 0).expect("decode");
    assert_eq!(driver.flush(&mut decoder).unwrap_err(), DecodeError::NoNv12Format);
}

#[test]
fn downloads_need_the_whole_picture() {
    let (mut decoder, mut driver) = primed(sps(1, 1));
    driver.decode(&mut decoder, unit(slice(0)), 0).expect("decode");
    let mut step = decoder.flush();
    let mut result = Ok(());
    while let Ok(Step::Ask(request)) = step {
        let reply = match driver.answer(request) {
            Reply::Image(mut image) => {
                image.data.truncate(1000);
                Reply::Image(image)
            }
            reply => reply,
        };
        step = decoder.resume(reply);
        if let Err(e) = &step {
            result = Err(*e);
        }
    }
    assert_eq!(
        result,
        Err(DecodeError::PlaneTooSmall { offset: 64, pitch: 384, row_bytes: 320, rows: 240 })
    );
    assert!(decoder.is_idle());
}

#[test]
fn a_driver_that_fails_fails_the_call() {
    for (call, exporting) in [
        (VaCall::CreateConfig, false),
        (VaCall::CreateSurfaces, false),
        (VaCall::CreateBuffer, false),
        (VaCall::EndPicture, false),
        (VaCall::SyncSurface, false),
        (VaCall::ExportSurface, true),
    ] {
        let (mut decoder, mut driver) = primed(sps(1, 1));
        driver.fail = Some(call);
        let step = if exporting {
            decoder.decode_exported(unit(slice(0)), 0)
        } else {
            decoder.decode(unit(slice(0)), 0)
        };
        let first = driver.run(&mut decoder, step);
        let step = if exporting { decoder.flush_exported() } else { decoder.flush() };
        let second = driver.run(&mut decoder, step);
        let failed = first.err().or(second.err());
        assert_eq!(failed, Some(DecodeError::Device(failure(call))));

        // What failed is dropped, and the decoder goes on.
        let step = decoder.decode(unit(slice(0)), 1);
        driver.frames(&mut decoder, step).expect("decode");
        let left = driver.flush(&mut decoder).expect("flush");
        assert_eq!(timestamps(&left), vec![1]);
    }
}

////// Opening

#[test]
fn opening_looks_for_a_profile_that_decodes() {
    let (opening, _) = Decoder::new(Config { device: String::from("/dev/dri/renderD129") });
    let opening = match opening.resume(OpenReply::Done) {
        Ok(OpenStep::Ask { opening, .. }) => opening,
        other => panic!("unexpected {other:?}"),
    };
    let opening = match opening.resume(OpenReply::Profiles(vec![13, 5, 7])) {
        Ok(OpenStep::Ask { opening, request }) => {
            assert!(matches!(request, OpenRequest::QueryConfigEntrypoints { profile: 13 }));
            opening
        }
        other => panic!("unexpected {other:?}"),
    };
    // A profile that only encodes, or cannot be asked about, is passed over.
    let opening = match opening.resume(OpenReply::Entrypoints(vec![6])) {
        Ok(OpenStep::Ask { opening, request }) => {
            assert!(matches!(request, OpenRequest::QueryConfigEntrypoints { profile: 7 }));
            opening
        }
        other => panic!("unexpected {other:?}"),
    };
    assert_eq!(
        opening.resume(OpenReply::Failed(failure(VaCall::QueryConfigEntrypoints))).unwrap_err(),
        DecodeError::NoDecodeEntrypoint
    );
}

#[test]
fn opening_fails_with_the_driver() {
    let refused = failure(VaCall::OpenDisplay);
    let (opening, _) = Decoder::new(Config::default());
    assert_eq!(
        opening.resume(OpenReply::Failed(refused)).unwrap_err(),
        DecodeError::Device(refused)
    );
    let (opening, _) = Decoder::new(Config::new());
    let opening = match opening.resume(OpenReply::Done) {
        Ok(OpenStep::Ask { opening, .. }) => opening,
        other => panic!("unexpected {other:?}"),
    };
    assert_eq!(
        opening.resume(OpenReply::Profiles(vec![])).unwrap_err(),
        DecodeError::NoDecodeEntrypoint
    );
}

////// Streams that cannot be decoded

fn error_of(sps: Sps, slice: Slice) -> DecodeError {
    let (mut decoder, mut driver) = primed(sps);
    driver.decode(&mut decoder, unit(slice), 0).unwrap_err()
}

#[test]
fn only_progressive_8_bit_420_is_decoded() {
    assert_eq!(
        error_of(Sps { frame_mbs_only_flag: false, ..sps(1, 1) }, slice(0)),
        DecodeError::Interlaced
    );
    assert_eq!(
        error_of(Sps { chroma_format_idc: 2, ..sps(1, 1) }, slice(0)),
        DecodeError::ChromaFormat(2)
    );
    assert_eq!(
        error_of(Sps { bit_depth_luma_minus8: 2, ..sps(1, 1) }, slice(0)),
        DecodeError::BitDepth { luma: 10, chroma: 8 }
    );
    assert_eq!(
        error_of(Sps { bit_depth_chroma_minus8: 1, ..sps(1, 1) }, slice(0)),
        DecodeError::BitDepth { luma: 8, chroma: 9 }
    );
}

#[test]
fn visible_sizes_are_even_and_not_zero() {
    for (max_x, max_y) in [(0, 240), (320, 0), (319, 240), (320, 239)] {
        let visible = Rect { min_x: 0, min_y: 0, max_x, max_y };
        assert_eq!(
            error_of(Sps { visible, ..sps(1, 1) }, slice(0)),
            DecodeError::VisibleSize { width: max_x, height: max_y }
        );
    }
}

#[test]
fn profiles_map_onto_what_va_api_has() {
    for (profile_idc, profile) in [(66, 13), (77, 6), (88, 6), (100, 7), (110, 7), (122, 7)] {
        let (mut decoder, mut driver) = primed(Sps { profile_idc, ..sps(1, 1) });
        driver.decode(&mut decoder, unit(slice(0)), 0).expect("decode");
        assert_eq!(driver.opened[0].profile, profile);
    }
    assert_eq!(
        error_of(Sps { profile_idc: 244, ..sps(1, 1) }, slice(0)),
        DecodeError::Profile(244)
    );
}

#[test]
fn units_that_do_not_parse_are_errors() {
    let (mut decoder, mut driver) = primed(sps(1, 1));
    for (nal, e) in [
        (Nal::Sps(None), DecodeError::Sps),
        (Nal::Pps(None), DecodeError::Pps),
        (Nal::Slice(None), DecodeError::SliceHeader),
        (
            Nal::Sps(Some(Rc::new(Sps { log2_max_frame_num_minus4: 13, ..sps(1, 1) }))),
            DecodeError::Sps,
        ),
        (
            Nal::Pps(Some(Rc::new(pps(
                0,
                &Rc::new(Sps { log2_max_pic_order_cnt_lsb_minus4: 13, ..sps(1, 1) }),
            )))),
            DecodeError::Pps,
        ),
    ] {
        assert_eq!(driver.decode(&mut decoder, vec![nal], 0).unwrap_err(), e);
    }
    let mut wild = slice(0);
    wild.header.frame_num = 16;
    assert_eq!(driver.decode(&mut decoder, unit(wild), 0).unwrap_err(), DecodeError::SliceHeader);
}

#[test]
fn slices_name_a_known_parameter_set() {
    let (mut decoder, mut driver) = primed(sps(1, 1));
    let mut stray = slice(0);
    stray.header.pic_parameter_set_id = 3;
    assert_eq!(driver.decode(&mut decoder, unit(stray), 0).unwrap_err(), DecodeError::UnknownPps(3));
    let mut stray = slice(0);
    stray.header.pic_parameter_set_id = 4;
    stray.header.first_mb_in_slice = 9;
    let mut nals = unit(slice(0));
    nals.extend(unit(stray));
    assert_eq!(driver.decode(&mut decoder, nals, 0).unwrap_err(), DecodeError::UnknownPps(4));
}

#[test]
fn slices_of_one_picture_share_a_sequence() {
    let (mut decoder, mut driver) = primed(sps(1, 1));
    let other = Rc::new(sps(2, 1));
    let alike = Rc::new(sps(1, 1));
    let mut second = slice(0);
    second.header.first_mb_in_slice = 9;
    second.header.pic_parameter_set_id = 2;
    let mut nals = vec![Nal::Pps(Some(Rc::new(pps(2, &alike))))];
    nals.extend(unit(slice(0)));
    nals.extend(unit(second));
    driver.decode(&mut decoder, nals, 0).expect("decode");

    let mut second = slice(0);
    second.header.first_mb_in_slice = 9;
    second.header.pic_parameter_set_id = 2;
    let mut nals = vec![Nal::Pps(Some(Rc::new(pps(2, &other))))];
    nals.extend(unit(slice(0)));
    nals.extend(unit(second));
    assert_eq!(driver.decode(&mut decoder, nals, 0).unwrap_err(), DecodeError::SequenceChanged);
}

#[test]
fn gaps_are_filled_where_they_are_allowed() {
    let (mut decoder, mut driver) = primed(sps(4, 4));
    driver.decode(&mut decoder, unit(slice(0)), 0).expect("decode");
    assert_eq!(
        driver.decode(&mut decoder, unit(slice(3)), 3).unwrap_err(),
        DecodeError::FrameNumGap(3)
    );

    let lossy = Sps { gaps_in_frame_num_value_allowed_flag: true, ..sps(4, 4) };
    let (mut decoder, mut driver) = primed(lossy);
    driver.decode(&mut decoder, unit(slice(0)), 0).expect("decode");
    driver.decode(&mut decoder, unit(slice(3)), 3).expect("decode");
    // The invented pictures 1 and 2 come first in the list, and have no surface.
    let list = &driver.slices.last().expect("a slice").ref_pic_list_0;
    assert_eq!((list[0].picture_id, list[0].frame_idx), (VA_INVALID_ID, 2));
    // They are never output.
    assert_eq!(timestamps(&driver.flush(&mut decoder).expect("flush")), vec![0, 3]);
    // Nothing is missing from an empty buffer.
    let mut late = slice(5);
    late.header.slice_type = SliceType::I;
    driver.decode(&mut decoder, unit(late), 5).expect("decode");
}

#[test]
fn gaps_need_room() {
    let lossy = Sps { gaps_in_frame_num_value_allowed_flag: true, ..sps(1, 4) };
    let (mut decoder, mut driver) = primed(lossy);
    driver.decode(&mut decoder, unit(slice(0)), 0).expect("decode");
    assert_eq!(
        driver.decode(&mut decoder, unit(slice(3)), 3).unwrap_err(),
        DecodeError::StoreNonExisting
    );
}

#[test]
fn references_need_room() {
    let (mut decoder, mut driver) = primed(sps(1, 2));
    driver.decode(&mut decoder, unit(slice(0)), 0).expect("decode");
    assert_eq!(
        driver.decode(&mut decoder, unit(slice(1)), 1).unwrap_err(),
        DecodeError::StorePicture
    );
    // The picture before it is still delivered.
    assert_eq!(timestamps(&driver.flush(&mut decoder).expect("flush")), vec![0]);
}

#[test]
fn order_count_types_go_up_to_two() {
    assert_eq!(
        error_of(Sps { pic_order_cnt_type: 3, ..sps(1, 1) }, slice(0)),
        DecodeError::PicOrderCntType(3)
    );
}

#[test]
fn order_counts_that_do_not_fit_are_errors() {
    let mut far = slice(0);
    far.header.pic_order_cnt_lsb = 8;
    far.header.delta_pic_order_cnt_bottom = i32::MAX;
    assert_eq!(error_of(sps(1, 1), far), DecodeError::Overflow);
}

#[test]
fn operations_that_name_nothing_are_errors() {
    for (m, e) in [
        (op(1), MmcoError::NoShortTermPic),
        (op(2), MmcoError::NoLongTermPic),
        (op(3), MmcoError::NoShortTermPic),
        (op(7), MmcoError::UnknownMmco(7)),
    ] {
        let (mut decoder, mut driver) = primed(sps(4, 4));
        driver.decode(&mut decoder, unit(slice(0)), 0).expect("decode");
        let mut p = slice(1);
        p.header.dec_ref_pic_marking.adaptive_ref_pic_marking_mode_flag = true;
        p.header.dec_ref_pic_marking.inner =
            vec![RefPicMarkingInner { difference_of_pic_nums_minus1: 5, ..m }];
        assert_eq!(
            driver.decode(&mut decoder, unit(p), 1).unwrap_err(),
            DecodeError::Mmco(e)
        );
    }
}

#[test]
fn operation_5_empties_the_buffer() {
    let (mut decoder, mut driver) = primed(sps(4, 4));
    driver.decode(&mut decoder, unit(slice(0)), 0).expect("decode");
    driver.decode(&mut decoder, unit(slice(1)), 1).expect("decode");
    let mut p = slice(2);
    p.header.dec_ref_pic_marking.adaptive_ref_pic_marking_mode_flag = true;
    p.header.dec_ref_pic_marking.inner = vec![op(5), op(0), op(7)];
    let out = driver.decode(&mut decoder, unit(p), 2).expect("decode");
    assert_eq!(timestamps(&out), vec![0, 1]);
    // It counts as frame zero from now on.
    let out = driver.decode(&mut decoder, unit(slice(1)), 3).expect("decode");
    assert!(out.is_empty());
    assert_eq!(driver.pictures.last().expect("a picture").reference_frames[0].frame_idx, 0);
    assert_eq!(timestamps(&driver.flush(&mut decoder).expect("flush")), vec![2, 3]);
}

#[test]
fn modifications_that_name_nothing_are_errors() {
    for (idc, e) in [
        (0, DecodeError::NoShortTerm(-9)),
        (2, DecodeError::NoLongTerm(4)),
        (4, DecodeError::ModificationIdc(4)),
    ] {
        let (mut decoder, mut driver) = primed(sps(4, 4));
        driver.decode(&mut decoder, unit(slice(0)), 0).expect("decode");
        let mut p = slice(1);
        p.header.ref_pic_list_modification_flag_l0 = true;
        p.header.ref_pic_list_modification_l0 = vec![RefPicListModification {
            modification_of_pic_nums_idc: idc,
            abs_diff_pic_num_minus1: 9,
            long_term_pic_num: 4,
        }];
        assert_eq!(driver.decode(&mut decoder, unit(p), 1).unwrap_err(), e);
        // The picture is dropped, and those before it are not.
        assert_eq!(timestamps(&driver.flush(&mut decoder).expect("flush")), vec![0]);
    }
}
