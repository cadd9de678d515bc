use moq_vaapi::dmabuf;
use moq_vaapi::dmabuf::drm;
use moq_vaapi::surface::{
    DrmPrimeSurfaceDescriptor, DrmPrimeSurfaceDescriptorLayer, DrmPrimeSurfaceDescriptorObject,
};
use moq_vaapi::va::{
    VaCall, VaFailure, USAGE_HINT_EXPORT, USAGE_HINT_VPP_WRITE, VA_FOURCC_BGRX, VA_FOURCC_NV12,
    VA_FOURCC_YUY2, VA_RT_FORMAT_RGB32, VA_RT_FORMAT_YUV420,
};
use moq_vaapi::vpp::opening::{ConfigAttrib, OpenReply, OpenRequest, OpenStep};
use moq_vaapi::vpp::{
    identity_pipeline, rt_format, BlitStep, DmaBuf, Input, Plane, Processor, Reply, Request,
    SurfaceRequest, VppError,
};

fn failure(call: VaCall) -> VaFailure {
    VaFailure { call, status: 1 }
}

/// A driver that tiles what it allocates its own way, and remembers what it made.
struct Driver {
    surfaces: Vec<SurfaceRequest>,
}

impl Driver {
    fn create(&mut self, request: SurfaceRequest) -> u32 {
        self.surfaces.push(request);
        self.surfaces.len() as u32 - 1
    }

    fn export(&self, surface: u32, modifier: u64) -> DrmPrimeSurfaceDescriptor {
        let made = &self.surfaces[surface as usize];
        assert_eq!(made.fourcc, VA_FOURCC_NV12);
        DrmPrimeSurfaceDescriptor {
            fourcc: made.fourcc,
            width: made.width,
            height: made.height,
            objects: vec![DrmPrimeSurfaceDescriptorObject {
                fd: 10 + surface as i32,
                size: made.width * made.height * 3 / 2,
                drm_format_modifier: modifier,
            }],
            layers: vec![DrmPrimeSurfaceDescriptorLayer {
                drm_format: drm::NV12,
                num_planes: 2,
                object_index: [0; 4],
                offset: [0, made.width * made.height, 0, 0],
                pitch: [made.width, made.width, 0, 0],
            }],
        }
    }

    fn answer(&mut self, request: Request) -> Reply {
        match request {
            Request::CreateSurface(request) => Reply::Surfaces(vec![self.create(request)]),
            Request::CreateContext { .. } => Reply::Context(70),
            Request::CreateBuffer { .. } => Reply::Buffer(80),
            Request::RunPicture { .. } | Request::TakeSurface { .. } => Reply::Done,
        }
    }
}

fn open_processor() -> Processor {
    let (opening, request) = Processor::with_display(4);
    assert!(matches!(
        request,
        OpenRequest::GetConfigAttributes {
            display: 4,
            profile: -1,
            entrypoint: 10,
            attrib: ConfigAttrib { type_: 0, value: 0 },
        }
    ));
    let attrib = ConfigAttrib { type_: 0, value: 0x2_0101 };
    let opening = match opening.resume(OpenReply::Attribute(attrib)) {
        Ok(OpenStep::Ask { opening, request }) => {
            assert!(matches!(
                request,
                OpenRequest::CreateConfig {
                    display: 4,
                    profile: -1,
                    entrypoint: 10,
                    attrib: ConfigAttrib { type_: 0, value: 0x2_0101 },
                }
            ));
            opening
        }
        other => panic!("unexpected {other:?}"),
    };
    match opening.resume(OpenReply::Config(6)) {
        Ok(OpenStep::Open(processor)) => processor,
        other => panic!("unexpected {other:?}"),
    }
}

fn nv12_buffer() -> DmaBuf {
    DmaBuf {
        fourcc: VA_FOURCC_NV12,
        drm_format: drm::NV12,
        modifier: 2,
        width: 640,
        height: 480,
        planes: vec![Plane { offset: 0, pitch: 640 }, Plane { offset: 307_200, pitch: 640 }],
        fd: 11,
    }
}

/// Round-trip a driver-allocated NV12 surface through the post-processor: import an
/// exported DMA-BUF, blit, export the result.
#[test]
fn retile_round_trip() {
    let processor = open_processor();
    let mut driver = Driver { surfaces: Vec::new() };

    // A decode-hinted surface, which is the allocation whose tiling is the
    // problem this module exists for.
    let decoded = driver.create(SurfaceRequest {
        display: processor.display(),
        rt_format: VA_RT_FORMAT_YUV420,
        fourcc: VA_FOURCC_NV12,
        width: 640,
        height: 480,
        usage_hint: Some(0x21),
    });
    let exported = driver.export(decoded, 0x0100_0000_0000_0002);

    assert_eq!(exported.objects.len(), 1, "a composed export is one object");
    let object = &exported.objects[0];
    let layer = &exported.layers[0];
    let source_modifier = object.drm_format_modifier;
    let buffer = DmaBuf {
        fourcc: exported.fourcc,
        drm_format: layer.drm_format,
        modifier: source_modifier,
        width: exported.width,
        height: exported.height,
        planes: (0..layer.num_planes as usize)
            .map(|i| Plane { offset: layer.offset[i], pitch: layer.pitch[i] })
            .collect(),
        fd: exported.objects[0].fd,
    };

    let retile = processor.retile(buffer).expect("re-tile the decode surface");
    let imported = driver.create(retile.import.request);
    let (input, mut step) = retile.resume(Ok(vec![imported])).expect("import the buffer");
    assert_eq!(input.id, imported);
    assert_eq!(input.buffer.fd, exported.objects[0].fd);
    let retiled = loop {
        match step {
            BlitStep::Ask { blit, request } => {
                let reply = driver.answer(request);
                step = blit.resume(reply).expect("blit");
            }
            BlitStep::Done(surface) => break surface,
        }
    };
    let output = driver.export(retiled, 0x0100_0000_0000_0009);
    let target_modifier = output.objects[0].drm_format_modifier;

    println!("modifier {source_modifier:#x} -> {target_modifier:#x}");
    assert_eq!(output.fourcc, exported.fourcc, "the blit preserves the pixel format");
    assert_eq!((output.width, output.height), (exported.width, exported.height));
    assert_eq!(output.objects.len(), 1, "a composed export is one object");
    assert_eq!(
        output.layers[0].num_planes, layer.num_planes,
        "the blit preserves the plane count"
    );
    assert_ne!(retiled, decoded);
    assert_ne!(retiled, imported);
}

#[test]
fn blits_make_each_call_in_turn() {
    let processor = open_processor();
    assert_eq!(processor.display(), 4);
    let input = Input { id: 33, width: 320, height: 240 };
    let step = processor.process(input, VA_FOURCC_BGRX).expect("start");
    let blit = match step {
        BlitStep::Ask { blit, request: Request::CreateSurface(request) } => {
            assert_eq!(
                request,
                SurfaceRequest {
                    display: 4,
                    rt_format: VA_RT_FORMAT_RGB32,
                    fourcc: VA_FOURCC_BGRX,
                    width: 320,
                    height: 240,
                    usage_hint: Some(USAGE_HINT_VPP_WRITE | USAGE_HINT_EXPORT),
                }
            );
            blit
        }
        other => panic!("unexpected {other:?}"),
    };
    let blit = match blit.resume(Reply::Surfaces(vec![50, 51])) {
        Ok(BlitStep::Ask {
            blit,
            request: Request::CreateContext { display, config, width, height, surfaces },
        }) => {
            assert_eq!((display, config, width, height), (4, 6, 320, 240));
            assert_eq!(surfaces, vec![50, 51]);
            blit
        }
        other => panic!("unexpected {other:?}"),
    };
    let blit = match blit.resume(Reply::Context(70)) {
        Ok(BlitStep::Ask { blit, request: Request::CreateBuffer { context, pipeline } }) => {
            assert_eq!(context, 70);
            assert_eq!(pipeline.surface, 33);
            blit
        }
        other => panic!("unexpected {other:?}"),
    };
    let blit = match blit.resume(Reply::Buffer(80)) {
        Ok(BlitStep::Ask { blit, request: Request::RunPicture { context, surface, buffer } }) => {
            assert_eq!((context, surface, buffer), (70, 51, 80));
            blit
        }
        other => panic!("unexpected {other:?}"),
    };
    let blit = match blit.resume(Reply::Done) {
        Ok(BlitStep::Ask { blit, request: Request::TakeSurface { surface } }) => {
            assert_eq!(surface, 51);
            blit
        }
        other => panic!("unexpected {other:?}"),
    };
    match blit.resume(Reply::Done) {
        Ok(BlitStep::Done(surface)) => assert_eq!(surface, 51),
        other => panic!("unexpected {other:?}"),
    }
}

#[test]
fn blits_fail_with_the_driver() {
    let processor = open_processor();
    let input = Input { id: 33, width: 320, height: 240 };
    let refused = failure(VaCall::CreateSurfaces);
    match processor.process(input, VA_FOURCC_NV12) {
        Ok(BlitStep::Ask { blit, .. }) => {
            assert_eq!(blit.resume(Reply::Failed(refused)).unwrap_err(), VppError::Device(refused));
        }
        other => panic!("unexpected {other:?}"),
    }
    assert_eq!(
        processor.process(input, VA_FOURCC_YUY2).unwrap_err(),
        VppError::RenderTarget(VA_FOURCC_YUY2)
    );
}

#[test]
fn vpp_imports_ask_for_the_format_they_have() {
    let processor = open_processor();
    let import = processor.import(nv12_buffer()).expect("importable");
    assert_eq!(
        import.request,
        SurfaceRequest {
            display: 4,
            rt_format: VA_RT_FORMAT_YUV420,
            fourcc: VA_FOURCC_NV12,
            width: 640,
            height: 480,
            usage_hint: None,
        }
    );
    assert_eq!(import.finish(Ok(vec![1, 2])).expect("a surface").id, 2);

    let import = processor.import(nv12_buffer()).expect("importable");
    assert_eq!(import.finish(Ok(vec![])).unwrap_err(), VppError::NoSurface);
    let refused = failure(VaCall::CreateSurfaces);
    let import = processor.import(nv12_buffer()).expect("importable");
    assert_eq!(import.finish(Err(refused)).unwrap_err(), VppError::Device(refused));
    let packed = DmaBuf { fourcc: VA_FOURCC_YUY2, ..nv12_buffer() };
    assert_eq!(
        processor.import(packed).unwrap_err(),
        VppError::RenderTarget(VA_FOURCC_YUY2)
    );
}

#[test]
fn retiles_fail_with_their_import() {
    let processor = open_processor();
    let refused = failure(VaCall::CreateSurfaces);
    let retile = processor.retile(nv12_buffer()).expect("start");
    assert_eq!(retile.resume(Err(refused)).unwrap_err(), VppError::Device(refused));
    let retile = processor.retile(nv12_buffer()).expect("start");
    assert_eq!(retile.resume(Ok(vec![])).unwrap_err(), VppError::NoSurface);
    let packed = DmaBuf { fourcc: VA_FOURCC_YUY2, ..nv12_buffer() };
    assert_eq!(
        processor.retile(packed).unwrap_err(),
        VppError::RenderTarget(VA_FOURCC_YUY2)
    );
}

#[test]
fn vpp_attributes_leave_the_size_to_the_driver() {
    let attribute = nv12_buffer().va_surface_attribute();
    assert_eq!(attribute.fourcc, VA_FOURCC_NV12);
    assert_eq!((attribute.width, attribute.height), (640, 480));
    assert_eq!((attribute.num_objects, attribute.num_layers), (1, 1));
    assert_eq!((attribute.objects[0].fd, attribute.objects[0].size), (11, 0));
    assert_eq!(attribute.objects[0].drm_format_modifier, 2);
    assert_eq!(attribute.layers[0].drm_format, drm::NV12);
    assert_eq!(attribute.layers[0].num_planes, 2);
    assert_eq!(attribute.layers[0].offset, [0, 307_200, 0, 0]);
    assert_eq!(attribute.layers[0].pitch, [640, 640, 0, 0]);
}

#[test]
fn identity_pipelines_ask_for_nothing() {
    let p = identity_pipeline(12);
    assert_eq!(p.surface, 12);
    assert!(p.surface_region.is_none() && p.output_region.is_none());
    assert!(p.filters.is_none() && p.additional_outputs.is_none());
    assert!(p.forward_references.is_none() && p.backward_references.is_none());
    assert_eq!((p.rotation_state, p.mirror_state, p.processing_mode), (0, 0, 0));
    assert_eq!((p.surface_color_standard, p.output_color_standard), (0, 0));
    assert_eq!(p.input_color_properties, p.output_color_properties);
    assert_eq!(p.input_color_properties.color_range, 0);
}

#[test]
fn vpp_render_targets_agree_but_for_packed_422() {
    for format in [
        drm::NV12,
        drm::P010,
        drm::YUV420,
        drm::YVU420,
        drm::XRGB8888,
        drm::ARGB8888,
        drm::XBGR8888,
        drm::ABGR8888,
        drm::BGRX8888,
        drm::BGRA8888,
    ] {
        let fourcc = dmabuf::va_fourcc(format).unwrap();
        assert_eq!(rt_format(fourcc), dmabuf::rt_format(fourcc));
        assert!(rt_format(fourcc).is_some());
    }
    assert_eq!(rt_format(VA_FOURCC_YUY2), None);
}

#[test]
fn new_processors_open_the_device_they_are_given() {
    let (opening, request) = Processor::new(String::from("/dev/dri/renderD129"));
    assert!(matches!(request, OpenRequest::OpenDisplay { device } if device == "/dev/dri/renderD129"));
    let opening = match opening.resume(OpenReply::Display(9)) {
        Ok(OpenStep::Ask { opening, request: OpenRequest::GetConfigAttributes { display, .. } }) => {
            assert_eq!(display, 9);
            opening
        }
        other => panic!("unexpected {other:?}"),
    };
    let refused = failure(VaCall::GetConfigAttributes);
    assert_eq!(opening.resume(OpenReply::Failed(refused)).unwrap_err(), VppError::Device(refused));
}

#[test]
fn open_settles_on_the_first_device_that_works() {
    let devices = vec![String::from("a"), String::from("b"), String::from("c")];
    let opening = match Processor::open(devices) {
        Ok(OpenStep::Ask { opening, request: OpenRequest::OpenDisplay { device } }) => {
            assert_eq!(device, "a");
            opening
        }
        other => panic!("unexpected {other:?}"),
    };
    // The first cannot be opened.
    let opening = match opening.resume(OpenReply::Failed(failure(VaCall::OpenDisplay))) {
        Ok(OpenStep::Ask { opening, request: OpenRequest::OpenDisplay { device } }) => {
            assert_eq!(device, "b");
            opening
        }
        other => panic!("unexpected {other:?}"),
    };
    // The second has no post-processing.
    let opening = match opening.resume(OpenReply::Display(1)) {
        Ok(OpenStep::Ask { opening, .. }) => opening,
        other => panic!("unexpected {other:?}"),
    };
    let opening = match opening.resume(OpenReply::Failed(failure(VaCall::GetConfigAttributes))) {
        Ok(OpenStep::Ask { opening, request: OpenRequest::OpenDisplay { device } }) => {
            assert_eq!(device, "c");
            opening
        }
        other => panic!("unexpected {other:?}"),
    };
    assert_eq!(
        opening.resume(OpenReply::Failed(failure(VaCall::OpenDisplay))).unwrap_err(),
        VppError::NoDevice
    );
    assert_eq!(Processor::open(Vec::new()).unwrap_err(), VppError::NoDevice);
}
