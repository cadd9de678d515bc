use moq_vaapi::color::Color;
use moq_vaapi::dmabuf::drm;
use moq_vaapi::dmabuf::{buffer_size, rt_format, va_fourcc, DmaBuf, DmaBufError, Plane};
use moq_vaapi::surface::{
    DrmPrimeSurfaceDescriptor, DrmPrimeSurfaceDescriptorLayer, DrmPrimeSurfaceDescriptorObject,
};
use moq_vaapi::va::{
    VaCall, VaFailure, VA_FOURCC_BGRX, VA_FOURCC_I420, VA_FOURCC_NV12, VA_FOURCC_RGBA,
    VA_FOURCC_YUY2, VA_RT_FORMAT_RGB32, VA_RT_FORMAT_YUV420, VA_RT_FORMAT_YUV420_10,
    VA_RT_FORMAT_YUV422,
};

fn export(num_planes: u32) -> DrmPrimeSurfaceDescriptor {
    DrmPrimeSurfaceDescriptor {
        fourcc: VA_FOURCC_NV12,
        width: 640,
        height: 480,
        objects: vec![DrmPrimeSurfaceDescriptorObject {
            fd: 7,
            size: 460_800,
            drm_format_modifier: 0x0100_0000_0000_0002,
        }],
        layers: vec![DrmPrimeSurfaceDescriptorLayer {
            drm_format: drm::NV12,
            num_planes,
            object_index: [0; 4],
            offset: [0, 327_680, 1, 2],
            pitch: [640, 640, 3, 4],
        }],
    }
}

fn buffer(drm_format: u32, planes: usize) -> DmaBuf {
    DmaBuf {
        drm_format,
        modifier: 9,
        width: 64,
        height: 32,
        planes: (0..planes).map(|i| Plane { offset: 100 * i as u32, pitch: 64 }).collect(),
        fd: 3,
        color: Some(Color::bt709()),
    }
}

#[test]
fn every_mapped_format_has_a_render_target() {
    for format in [
        drm::NV12,
        drm::P010,
        drm::YUV420,
        drm::YVU420,
        drm::YUYV,
        drm::XRGB8888,
        drm::ARGB8888,
        drm::XBGR8888,
        drm::ABGR8888,
        drm::BGRX8888,
        drm::BGRA8888,
    ] {
        let fourcc = va_fourcc(format).expect("mapped");
        assert!(rt_format(fourcc).is_some(), "{format:#010x} has no render target");
    }
}

#[test]
fn packed_rgb_maps_to_the_byte_order_name() {
    // DRM XRGB8888 is a little-endian word, so memory holds B G R X, which
    // VA-API calls BGRX.
    assert_eq!(va_fourcc(drm::XRGB8888), Some(VA_FOURCC_BGRX));
    assert_eq!(va_fourcc(drm::ABGR8888), Some(VA_FOURCC_RGBA));
    assert_eq!(va_fourcc(drm::YUV420), Some(VA_FOURCC_I420));
    assert_eq!(va_fourcc(u32::from_le_bytes(*b"ZZZZ")), None);
}

#[test]
fn drm_codes_spell_their_names() {
    for (code, name) in [
        (drm::NV12, b"NV12"),
        (drm::P010, b"P010"),
        (drm::YUV420, b"YU12"),
        (drm::YVU420, b"YV12"),
        (drm::YUYV, b"YUYV"),
        (drm::XRGB8888, b"XR24"),
        (drm::ARGB8888, b"AR24"),
        (drm::XBGR8888, b"XB24"),
        (drm::ABGR8888, b"AB24"),
        (drm::BGRX8888, b"BX24"),
        (drm::BGRA8888, b"BA24"),
    ] {
        assert_eq!(code, u32::from_le_bytes(*name));
    }
}

#[test]
fn va_codes_spell_their_names() {
    for (format, name) in [
        (drm::NV12, b"NV12"),
        (drm::P010, b"P010"),
        (drm::YUV420, b"I420"),
        (drm::YVU420, b"YV12"),
        (drm::YUYV, b"YUY2"),
        (drm::XRGB8888, b"BGRX"),
        (drm::ARGB8888, b"BGRA"),
        (drm::XBGR8888, b"RGBX"),
        (drm::ABGR8888, b"RGBA"),
        (drm::BGRX8888, b"XRGB"),
        (drm::BGRA8888, b"ARGB"),
    ] {
        assert_eq!(va_fourcc(format), Some(u32::from_le_bytes(*name)));
    }
}

#[test]
fn render_targets() {
    assert_eq!(rt_format(VA_FOURCC_NV12), Some(VA_RT_FORMAT_YUV420));
    assert_eq!(rt_format(va_fourcc(drm::P010).unwrap()), Some(VA_RT_FORMAT_YUV420_10));
    assert_eq!(rt_format(VA_FOURCC_YUY2), Some(VA_RT_FORMAT_YUV422));
    assert_eq!(rt_format(VA_FOURCC_RGBA), Some(VA_RT_FORMAT_RGB32));
    assert_eq!(rt_format(0), None);
}

#[test]
fn from_prime_describes_the_one_object() {
    let buffer = DmaBuf::from_prime(export(2)).expect("composed");
    assert_eq!(buffer.drm_format, drm::NV12);
    assert_eq!(buffer.modifier, 0x0100_0000_0000_0002);
    assert_eq!((buffer.width, buffer.height), (640, 480));
    assert_eq!(
        buffer.planes,
        vec![Plane { offset: 0, pitch: 640 }, Plane { offset: 327_680, pitch: 640 }]
    );
    assert_eq!(buffer.fd, 7);
    assert!(buffer.color.is_none());
    assert_eq!(buffer.fourcc(), Some(VA_FOURCC_NV12));
}

#[test]
fn from_prime_takes_at_most_four_planes() {
    assert_eq!(DmaBuf::from_prime(export(9)).expect("composed").planes.len(), 4);
    assert_eq!(DmaBuf::from_prime(export(0)).expect("composed").planes.len(), 0);
}

#[test]
fn from_prime_refuses_what_is_not_composed() {
    let mut two = export(2);
    two.objects.push(two.objects[0]);
    assert_eq!(
        DmaBuf::from_prime(two).unwrap_err(),
        DmaBufError::NotComposed { objects: 2, layers: 1 }
    );
    let mut none = export(2);
    none.layers.clear();
    assert_eq!(
        DmaBuf::from_prime(none).unwrap_err(),
        DmaBufError::NotComposed { objects: 1, layers: 0 }
    );
}

#[test]
fn exports_survive_being_imported_again() {
    let attribute = DmaBuf::from_prime(export(2)).expect("composed").va_surface_attribute(460_800);
    let exported = export(2);
    assert_eq!(attribute.fourcc, VA_FOURCC_NV12);
    assert_eq!((attribute.width, attribute.height), (640, 480));
    assert_eq!((attribute.num_objects, attribute.num_layers), (1, 1));
    assert_eq!(attribute.objects[0], exported.objects[0]);
    assert_eq!(attribute.layers[0].drm_format, drm::NV12);
    assert_eq!(attribute.layers[0].num_planes, 2);
    assert_eq!(attribute.layers[0].object_index, [0; 4]);
    assert_eq!(attribute.layers[0].offset, [0, 327_680, 0, 0]);
    assert_eq!(attribute.layers[0].pitch, [640, 640, 0, 0]);
    assert_eq!(attribute.layers[1].num_planes, 0);
    assert_eq!(attribute.objects[3].size, 0);
}

#[test]
fn attributes_of_an_unmapped_format_go_out_as_zero() {
    let attribute = buffer(0x1234, 6).va_surface_attribute(0);
    assert_eq!(attribute.fourcc, 0);
    assert_eq!(attribute.layers[0].num_planes, 4);
    assert_eq!(attribute.layers[0].offset, [0, 100, 200, 300]);
    assert_eq!(attribute.objects[0].size, 0);
    assert_eq!(attribute.objects[0].drm_format_modifier, 9);
}

#[test]
fn imports_ask_for_the_mapped_format() {
    let import = buffer(drm::XRGB8888, 1).import(Some(0x20)).expect("importable");
    assert_eq!(import.request.fourcc, VA_FOURCC_BGRX);
    assert_eq!(import.request.rt_format, VA_RT_FORMAT_RGB32);
    assert_eq!((import.request.width, import.request.height), (64, 32));
    assert_eq!(import.request.usage_hint, Some(0x20));

    let surface = import.finish(Ok(vec![5])).expect("a surface");
    assert_eq!(surface.id, 5);
    assert_eq!(surface.buffer.fd, 3);
}

#[test]
fn imports_refuse_an_unmapped_format() {
    assert_eq!(buffer(0x1234, 1).import(None).unwrap_err(), DmaBufError::DrmFormat(0x1234));
}

#[test]
fn imports_take_one_to_four_planes() {
    assert_eq!(buffer(drm::NV12, 0).import(None).unwrap_err(), DmaBufError::PlaneCount(0));
    assert_eq!(buffer(drm::NV12, 5).import(None).unwrap_err(), DmaBufError::PlaneCount(5));
    assert!(buffer(drm::NV12, 1).import(None).is_ok());
    assert!(buffer(drm::NV12, 4).import(None).is_ok());
}

#[test]
fn imports_fail_with_the_driver() {
    let refused = VaFailure { call: VaCall::CreateSurfaces, status: 14 };
    let import = buffer(drm::NV12, 2).import(None).expect("importable");
    assert_eq!(import.finish(Err(refused)).unwrap_err(), DmaBufError::Device(refused));
    let import = buffer(drm::NV12, 2).import(None).expect("importable");
    assert_eq!(import.finish(Ok(vec![])).unwrap_err(), DmaBufError::NoSurface);
}

#[test]
fn buffer_sizes_that_do_not_fit_are_unknown() {
    assert_eq!(buffer_size(Some(460_800)), 460_800);
    assert_eq!(buffer_size(Some(u32::MAX as u64)), u32::MAX);
    assert_eq!(buffer_size(Some(u32::MAX as u64 + 1)), 0);
    assert_eq!(buffer_size(None), 0);
}
