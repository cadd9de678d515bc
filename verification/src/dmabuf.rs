//! Importing a Linux DMA-BUF as a VA surface, without copying it.
//!
//! A [`DmaBuf`] describes an allocation some other API made (a PipeWire
//! producer, a camera, a V4L2 device, another VA-API context that exported
//! its surface) well enough for the driver to wrap it as a surface. The
//! surface reads the producer's memory directly: an encoder given one encodes
//! the producer's pixels, and a post-processor given one converts them, without
//! the frame passing through the CPU.
//!
//! The format is named the DRM way, which is what every producer of a DMA-BUF
//! speaks. [`va_fourcc`] maps it to the VA-API name, which differs for packed
//! RGB (DRM names the channels in little-endian word order, VA-API in byte
//! order) and for planar 4:2:0 (`YU12` against `I420`).

pub mod drm;
pub mod laws;

use vstd::prelude::*;

use crate::color::Color;
use crate::surface;
use crate::surface::{
    describe, DrmPrimeSurfaceDescriptor, DrmPrimeSurfaceDescriptorObject,
    VADRMPRIMESurfaceDescriptor,
};
use crate::va::{
    VaFailure, VA_FOURCC_ARGB, VA_FOURCC_BGRA, VA_FOURCC_BGRX, VA_FOURCC_I420, VA_FOURCC_NV12,
    VA_FOURCC_P010, VA_FOURCC_RGBA, VA_FOURCC_RGBX, VA_FOURCC_XRGB, VA_FOURCC_YUY2,
    VA_FOURCC_YV12, VA_RT_FORMAT_RGB32, VA_RT_FORMAT_YUV420, VA_RT_FORMAT_YUV420_10,
    VA_RT_FORMAT_YUV422,
};

verus! {

/// The `VA_FOURCC_*` naming the same layout as a DRM format.
pub open spec fn fourcc_for(drm_format: u32) -> Option<u32> {
    if drm_format == drm::NV12 {
        Some(VA_FOURCC_NV12)
    } else if drm_format == drm::P010 {
        Some(VA_FOURCC_P010)
    } else if drm_format == drm::YUV420 {
        Some(VA_FOURCC_I420)
    } else if drm_format == drm::YVU420 {
        Some(VA_FOURCC_YV12)
    } else if drm_format == drm::YUYV {
        Some(VA_FOURCC_YUY2)
    } else if drm_format == drm::XRGB8888 {
        Some(VA_FOURCC_BGRX)
    } else if drm_format == drm::ARGB8888 {
        Some(VA_FOURCC_BGRA)
    } else if drm_format == drm::XBGR8888 {
        Some(VA_FOURCC_RGBX)
    } else if drm_format == drm::ABGR8888 {
        Some(VA_FOURCC_RGBA)
    } else if drm_format == drm::BGRX8888 {
        Some(VA_FOURCC_XRGB)
    } else if drm_format == drm::BGRA8888 {
        Some(VA_FOURCC_ARGB)
    } else {
        None
    }
}

/// Returns the `VA_FOURCC_*` naming the same layout as the DRM format `drm_format`.
///
/// Returns `None` for a format this crate has no mapping for.
pub fn va_fourcc(drm_format: u32) -> (fourcc: Option<u32>)
    ensures
        fourcc == fourcc_for(drm_format),
        fourcc == Some(VA_FOURCC_NV12) <==> drm_format == drm::NV12,
        fourcc == Some(VA_FOURCC_P010) <==> drm_format == drm::P010,
        fourcc == Some(VA_FOURCC_I420) <==> drm_format == drm::YUV420,
        fourcc == Some(VA_FOURCC_YV12) <==> drm_format == drm::YVU420,
        fourcc == Some(VA_FOURCC_YUY2) <==> drm_format == drm::YUYV,
        fourcc == Some(VA_FOURCC_BGRX) <==> drm_format == drm::XRGB8888,
        fourcc == Some(VA_FOURCC_BGRA) <==> drm_format == drm::ARGB8888,
        fourcc == Some(VA_FOURCC_RGBX) <==> drm_format == drm::XBGR8888,
        fourcc == Some(VA_FOURCC_RGBA) <==> drm_format == drm::ABGR8888,
        fourcc == Some(VA_FOURCC_XRGB) <==> drm_format == drm::BGRX8888,
        fourcc == Some(VA_FOURCC_ARGB) <==> drm_format == drm::BGRA8888,
        fourcc is Some <==> match drm_format {
            drm::NV12 | drm::P010 | drm::YUV420 | drm::YVU420 | drm::YUYV => true,
            drm::XRGB8888 | drm::ARGB8888 | drm::XBGR8888 | drm::ABGR8888 => true,
            drm::BGRX8888 | drm::BGRA8888 => true,
            _ => false,
        },
{
    match drm_format {
        drm::NV12 => Some(VA_FOURCC_NV12),
        drm::P010 => Some(VA_FOURCC_P010),
        drm::YUV420 => Some(VA_FOURCC_I420),
        drm::YVU420 => Some(VA_FOURCC_YV12),
        drm::YUYV => Some(VA_FOURCC_YUY2),
        drm::XRGB8888 => Some(VA_FOURCC_BGRX),
        drm::ARGB8888 => Some(VA_FOURCC_BGRA),
        drm::XBGR8888 => Some(VA_FOURCC_RGBX),
        drm::ABGR8888 => Some(VA_FOURCC_RGBA),
        drm::BGRX8888 => Some(VA_FOURCC_XRGB),
        drm::BGRA8888 => Some(VA_FOURCC_ARGB),
        _ => None,
    }
}

/// Whether `fourcc` is packed 32-bit RGB.
pub open spec fn is_packed_rgb(fourcc: u32) -> bool {
    fourcc == VA_FOURCC_BGRA || fourcc == VA_FOURCC_BGRX || fourcc == VA_FOURCC_RGBA || fourcc
        == VA_FOURCC_RGBX || fourcc == VA_FOURCC_ARGB || fourcc == VA_FOURCC_XRGB
}

/// The `VA_RT_FORMAT_*` of a VA fourcc.
pub open spec fn render_target_for(fourcc: u32) -> Option<u32> {
    if fourcc == VA_FOURCC_NV12 || fourcc == VA_FOURCC_I420 || fourcc == VA_FOURCC_YV12 {
        Some(VA_RT_FORMAT_YUV420)
    } else if fourcc == VA_FOURCC_P010 {
        Some(VA_RT_FORMAT_YUV420_10)
    } else if fourcc == VA_FOURCC_YUY2 {
        Some(VA_RT_FORMAT_YUV422)
    } else if is_packed_rgb(fourcc) {
        Some(VA_RT_FORMAT_RGB32)
    } else {
        None
    }
}

/// Returns the `VA_RT_FORMAT_*` a surface of the VA fourcc `fourcc` is allocated as.
///
/// Returns `None` for a format this crate has no mapping for. Guessing the
/// render-target format wrong makes `vaCreateSurfaces` fail with an error that
/// names neither, so an unknown format is refused up front instead.
pub fn rt_format(fourcc: u32) -> (format: Option<u32>)
    ensures
        format == render_target_for(fourcc),
        format == Some(VA_RT_FORMAT_YUV420) <==> (fourcc == VA_FOURCC_NV12 || fourcc
            == VA_FOURCC_I420 || fourcc == VA_FOURCC_YV12),
        format == Some(VA_RT_FORMAT_YUV420_10) <==> fourcc == VA_FOURCC_P010,
        format == Some(VA_RT_FORMAT_YUV422) <==> fourcc == VA_FOURCC_YUY2,
        format == Some(VA_RT_FORMAT_RGB32) <==> (fourcc == VA_FOURCC_BGRA || fourcc
            == VA_FOURCC_BGRX || fourcc == VA_FOURCC_RGBA || fourcc == VA_FOURCC_RGBX || fourcc
            == VA_FOURCC_ARGB || fourcc == VA_FOURCC_XRGB),
        format matches Some(f) ==> f == VA_RT_FORMAT_YUV420 || f == VA_RT_FORMAT_YUV420_10 || f
            == VA_RT_FORMAT_YUV422 || f == VA_RT_FORMAT_RGB32,
{
    match fourcc {
        VA_FOURCC_NV12 | VA_FOURCC_I420 | VA_FOURCC_YV12 => Some(VA_RT_FORMAT_YUV420),
        VA_FOURCC_P010 => Some(VA_RT_FORMAT_YUV420_10),
        VA_FOURCC_YUY2 => Some(VA_RT_FORMAT_YUV422),
        VA_FOURCC_BGRA | VA_FOURCC_BGRX | VA_FOURCC_RGBA | VA_FOURCC_RGBX | VA_FOURCC_ARGB
        | VA_FOURCC_XRGB => Some(VA_RT_FORMAT_RGB32),
        _ => None,
    }
}

/// One plane of a DMA-BUF, within the single object holding them all.
#[derive(Clone, Copy, Debug, PartialEq, Eq, Structural)]
pub struct Plane {
    /// Byte offset of the plane from the start of the object.
    pub offset: u32,
    /// Bytes between adjacent rows of the plane.
    pub pitch: u32,
}

/// An externally allocated DMA-BUF, described well enough to import as a surface.
///
/// One object holding every plane, which is what a VA-API decoder exports and
/// what a PipeWire producer negotiating a single modifier hands out. A buffer
/// split across several objects is not describable here.
#[derive(Debug)]
pub struct DmaBuf {
    /// Pixel format, a `DRM_FORMAT_*` code; see [`drm`].
    pub drm_format: u32,
    /// Format modifier describing the tiling of the object.
    pub modifier: u64,
    /// Width of the picture in pixels.
    ///
    /// The visible width, not the allocated one: the padding lives in each
    /// plane's pitch and offset.
    pub width: u32,
    /// Height of the picture in pixels, likewise the visible height.
    pub height: u32,
    /// Plane offsets and pitches, in format order. One to four.
    pub planes: Vec<Plane>,
    /// The exported descriptor, which whoever opened it holds open until the
    /// surface is destroyed.
    pub fd: i32,
    /// The YUV color space of the pixels, where the producer knows it.
    ///
    /// Ignored for packed RGB. The encoder converts a YUV buffer whose space
    /// differs from the stream's, and takes one with `None` to be in the
    /// stream's space already.
    pub color: Option<Color>,
}

/// Why a buffer could not be described or imported.
#[derive(Clone, Copy, Debug, PartialEq, Eq, Structural)]
pub enum DmaBufError {
    /// The export is not one object holding one composed layer.
    NotComposed { objects: usize, layers: usize },
    /// No VA-API format is this DRM format.
    DrmFormat(u32),
    /// No render target format is this VA-API format.
    RenderTarget(u32),
    /// A DMA-BUF import takes one to four planes.
    PlaneCount(usize),
    /// The driver refused the import.
    Device(VaFailure),
    /// The driver returned no surface.
    NoSurface,
}

/// What the driver is to create for an import.
#[derive(Clone, Copy, Debug, PartialEq, Eq, Structural)]
pub struct ImportRequest {
    pub rt_format: u32,
    pub fourcc: u32,
    pub width: u32,
    pub height: u32,
    pub usage_hint: Option<u32>,
}

/// A buffer about to be imported.
#[derive(Debug)]
pub struct Import {
    pub buffer: DmaBuf,
    pub request: ImportRequest,
}

/// A surface that wraps a buffer, and owns it.
#[derive(Debug)]
pub struct ImportedSurface {
    pub id: u32,
    pub buffer: DmaBuf,
}

/// The smaller of a plane count and four.
pub open spec fn at_most_four(n: int) -> int {
    if n < 4 {
        n
    } else {
        4
    }
}

/// Why `buffer` cannot be imported.
pub open spec fn unimportable(buffer: DmaBuf) -> Option<DmaBufError> {
    match fourcc_for(buffer.drm_format) {
        None => Some(DmaBufError::DrmFormat(buffer.drm_format)),
        Some(fourcc) => if render_target_for(fourcc) is None {
            Some(DmaBufError::RenderTarget(fourcc))
        } else if buffer.planes@.len() == 0 || buffer.planes@.len() > 4 {
            Some(DmaBufError::PlaneCount(buffer.planes.len()))
        } else {
            None
        },
    }
}

/// Whether `d` tells the driver of `buffer`, an object of `size` bytes.
pub open spec fn is_attribute(d: VADRMPRIMESurfaceDescriptor, buffer: DmaBuf, size: u32) -> bool {
    let layer = d.layers[0];
    let n = at_most_four(buffer.planes@.len() as int);
    &&& d.fourcc == match fourcc_for(buffer.drm_format) {
        Some(fourcc) => fourcc,
        None => 0,
    }
    &&& d.width == buffer.width
    &&& d.height == buffer.height
    &&& d.num_objects == 1
    &&& d.objects[0] == (DrmPrimeSurfaceDescriptorObject {
        fd: buffer.fd,
        size,
        drm_format_modifier: buffer.modifier,
    })
    &&& forall|i: int| 1 <= i < 4 ==> #[trigger] d.objects[i] == surface::no_object()
    &&& d.num_layers == 1
    &&& layer.drm_format == buffer.drm_format
    &&& layer.num_planes == n
    &&& forall|i: int| 0 <= i < 4 ==> #[trigger] layer.object_index[i] == 0
    &&& forall|i: int|
        0 <= i < 4 ==> #[trigger] layer.offset[i] == if i < n {
            buffer.planes@[i].offset
        } else {
            0
        }
    &&& forall|i: int|
        0 <= i < 4 ==> #[trigger] layer.pitch[i] == if i < n {
            buffer.planes@[i].pitch
        } else {
            0
        }
    &&& forall|i: int| 1 <= i < 4 ==> surface::is_no_layer(#[trigger] d.layers[i])
}

/// Whether `buffer` describes the export `exported`: its one object and layer.
pub open spec fn describes(buffer: DmaBuf, exported: DrmPrimeSurfaceDescriptor) -> bool {
    let object = exported.objects@[0];
    let layer = exported.layers@[0];
    &&& buffer.drm_format == layer.drm_format
    &&& buffer.modifier == object.drm_format_modifier
    &&& buffer.width == exported.width
    &&& buffer.height == exported.height
    &&& buffer.planes@.len() == at_most_four(layer.num_planes as int)
    &&& forall|i: int|
        0 <= i < buffer.planes@.len() ==> #[trigger] buffer.planes@[i] == (Plane {
            offset: layer.offset[i],
            pitch: layer.pitch[i],
        })
    &&& buffer.fd == object.fd
    &&& buffer.color is None
}

impl DmaBuf {
    /// Describes an exported surface for import elsewhere.
    ///
    /// The color is left unknown; set [`color`](DmaBuf::color) when the
    /// producer knows it.
    ///
    /// Fails unless the export is one object holding one composed layer, which
    /// is what an export asks the driver for.
    pub fn from_prime(exported: DrmPrimeSurfaceDescriptor) -> (r: Result<DmaBuf, DmaBufError>)
        ensures
            if exported.objects@.len() == 1 && exported.layers@.len() == 1 {
                &&& r matches Ok(buffer)
                &&& describes(buffer, exported)
                &&& buffer.drm_format == exported.layers@[0].drm_format
                &&& buffer.modifier == exported.objects@[0].drm_format_modifier
                &&& buffer.fd == exported.objects@[0].fd
                &&& buffer.width == exported.width
                &&& buffer.height == exported.height
                &&& buffer.color is None
                &&& exported.layers@[0].num_planes <= 4 ==> buffer.planes@.len()
                    == exported.layers@[0].num_planes
                &&& exported.layers@[0].num_planes > 4 ==> buffer.planes@.len() == 4
                &&& forall|i: int|
                    0 <= i < buffer.planes@.len() ==> (#[trigger] buffer.planes@[i]).offset
                        == exported.layers@[0].offset[i] && buffer.planes@[i].pitch
                        == exported.layers@[0].pitch[i]
            } else {
                r matches Err(e) && e == (DmaBufError::NotComposed {
                    objects: exported.objects.len(),
                    layers: exported.layers.len(),
                })
            },
    {
        if exported.objects.len() != 1 || exported.layers.len() != 1 {
            return Err(
                DmaBufError::NotComposed {
                    objects: exported.objects.len(),
                    layers: exported.layers.len(),
                },
            );
        }
        let object = exported.objects[0];
        let layer = exported.layers[0];
        let mut planes: Vec<Plane> = Vec::new();
        let mut i: usize = 0;
        while i < layer.num_planes as usize && i < 4
            invariant
                i <= at_most_four(layer.num_planes as int),
                planes@.len() == i,
                forall|k: int|
                    0 <= k < i ==> #[trigger] planes@[k] == (Plane {
                        offset: layer.offset[k],
                        pitch: layer.pitch[k],
                    }),
            decreases 4 - i,
        {
            planes.push(Plane { offset: layer.offset[i], pitch: layer.pitch[i] });
            i = i + 1;
        }
        Ok(
            DmaBuf {
                drm_format: layer.drm_format,
                modifier: object.drm_format_modifier,
                width: exported.width,
                height: exported.height,
                planes,
                fd: object.fd,
                color: None,
            },
        )
    }

    /// Returns the `VA_FOURCC_*` of this buffer's format, if it has one.
    pub fn fourcc(&self) -> (fourcc: Option<u32>)
        ensures
            fourcc == fourcc_for(self.drm_format),
            fourcc == Some(VA_FOURCC_NV12) <==> self.drm_format == drm::NV12,
            fourcc == Some(VA_FOURCC_P010) <==> self.drm_format == drm::P010,
            fourcc == Some(VA_FOURCC_BGRX) <==> self.drm_format == drm::XRGB8888,
            fourcc == Some(VA_FOURCC_BGRA) <==> self.drm_format == drm::ARGB8888,
    {
        va_fourcc(self.drm_format)
    }

    /// Starts importing this buffer as a surface, without copying it.
    ///
    /// `usage_hint` tells the driver what the surface is for; some drivers only
    /// accept an import as an encoder source when it says so.
    ///
    /// Fails when the format has no VA-API mapping, and when the plane count is not
    /// one to four. [`Import::finish`] fails when the driver refuses the import,
    /// which it does for a modifier or pitch it cannot address.
    pub fn import(self, usage_hint: Option<u32>) -> (r: Result<Import, DmaBufError>)
        ensures
            r is Ok ==> 1 <= self.planes@.len() <= 4,
            r matches Err(DmaBufError::PlaneCount(n)) ==> n == self.planes@.len() && !(1
                <= self.planes@.len() <= 4),
            r matches Err(DmaBufError::DrmFormat(f)) ==> f == self.drm_format,
            match unimportable(self) {
                Some(e) => r matches Err(f) && f == e,
                None => {
                    &&& r matches Ok(import)
                    &&& import.buffer == self
                    &&& Some(import.request.fourcc) == fourcc_for(self.drm_format)
                    &&& Some(import.request.rt_format) == render_target_for(import.request.fourcc)
                    &&& import.request.width == self.width
                    &&& import.request.height == self.height
                    &&& import.request.usage_hint == usage_hint
                },
            },
    {
        let fourcc: u32 = match self.fourcc() {
            Some(fourcc) => fourcc,
            None => {
                return Err(DmaBufError::DrmFormat(self.drm_format));
            },
        };
        let rt_format: u32 = match rt_format(fourcc) {
            Some(rt_format) => rt_format,
            None => {
                return Err(DmaBufError::RenderTarget(fourcc));
            },
        };
        if self.planes.len() == 0 || self.planes.len() > 4 {
            return Err(DmaBufError::PlaneCount(self.planes.len()));
        }
        let request = ImportRequest {
            rt_format,
            fourcc,
            width: self.width,
            height: self.height,
            usage_hint,
        };
        Ok(Import { buffer: self, request })
    }

    /// Returns what the driver is told of this buffer, an object of `size` bytes.
    ///
    /// [`DmaBuf::import`] has checked the format and the plane count; an unmapped
    /// format reaching here anyway goes out as zero, which the driver refuses.
    pub fn va_surface_attribute(&self, size: u32) -> (d: VADRMPRIMESurfaceDescriptor)
        ensures
            is_attribute(d, *self, size),
            self.drm_format == drm::NV12 ==> d.fourcc == VA_FOURCC_NV12,
            self.drm_format == drm::P010 ==> d.fourcc == VA_FOURCC_P010,
            fourcc_for(self.drm_format) is None ==> d.fourcc == 0,
            d.width == self.width,
            d.height == self.height,
            d.num_objects == 1,
            d.objects[0].fd == self.fd,
            d.objects[0].size == size,
            d.objects[0].drm_format_modifier == self.modifier,
            d.num_layers == 1,
            d.layers[0].drm_format == self.drm_format,
            self.planes@.len() <= 4 ==> d.layers[0].num_planes == self.planes@.len(),
            forall|i: int|
                0 <= i < 4 && i < self.planes@.len() ==> #[trigger] d.layers[0].offset[i]
                    == self.planes@[i].offset,
            forall|i: int|
                0 <= i < 4 && i < self.planes@.len() ==> #[trigger] d.layers[0].pitch[i]
                    == self.planes@[i].pitch,
            forall|i: int| 0 <= i < 4 ==> #[trigger] d.layers[0].object_index[i] == 0,
            self.planes@.len() > 4 ==> d.layers[0].num_planes == 4,
            forall|i: int|
                self.planes@.len() <= i < 4 ==> #[trigger] d.layers[0].offset[i] == 0,
            forall|i: int|
                self.planes@.len() <= i < 4 ==> #[trigger] d.layers[0].pitch[i] == 0,
            forall|i: int| 1 <= i < 4 ==> (#[trigger] d.objects[i]).size == 0 && d.objects[i].fd
                == 0,
            forall|i: int| 1 <= i < 4 ==> (#[trigger] d.layers[i]).num_planes == 0,
    {
        let fourcc: u32 = match self.fourcc() {
            Some(fourcc) => fourcc,
            None => 0,
        };
        let object = DrmPrimeSurfaceDescriptorObject {
            fd: self.fd,
            size,
            drm_format_modifier: self.modifier,
        };
        let mut offset: [u32; 4] = [0;4];
        let mut pitch: [u32; 4] = [0;4];
        let mut i: usize = 0;
        while i < self.planes.len() && i < 4
            invariant
                i <= at_most_four(self.planes@.len() as int),
                forall|k: int|
                    0 <= k < 4 ==> #[trigger] offset[k] == if k < i {
                        self.planes@[k].offset
                    } else {
                        0
                    },
                forall|k: int|
                    0 <= k < 4 ==> #[trigger] pitch[k] == if k < i {
                        self.planes@[k].pitch
                    } else {
                        0
                    },
            decreases 4 - i,
        {
            offset[i] = self.planes[i].offset;
            pitch[i] = self.planes[i].pitch;
            i = i + 1;
        }
        describe(
            fourcc,
            self.width,
            self.height,
            object,
            self.drm_format,
            i as u32,
            offset,
            pitch,
        )
    }
}

impl Import {
    /// Takes the driver's answer: the surface it created, which now owns the
    /// buffer, or why it created none.
    pub fn finish(self, surfaces: Result<Vec<u32>, VaFailure>) -> (r: Result<
        ImportedSurface,
        DmaBufError,
    >)
        ensures
            match surfaces {
                Ok(ids) => if ids@.len() == 0 {
                    r matches Err(e) && e == DmaBufError::NoSurface
                } else {
                    r matches Ok(s) && s.id == ids@.last() && s.buffer == self.buffer
                },
                Err(failure) => r matches Err(e) && e == DmaBufError::Device(failure),
            },
    {
        match surfaces {
            Ok(ids) => {
                if ids.len() == 0 {
                    Err(DmaBufError::NoSurface)
                } else {
                    Ok(ImportedSurface { id: ids[ids.len() - 1], buffer: self.buffer })
                }
            },
            Err(failure) => Err(DmaBufError::Device(failure)),
        }
    }
}

/// Returns the size to report of a DMA-BUF whose end lies at `end`, or zero when the
/// kernel will not say.
///
/// Intel's iHD driver refuses to import packed RGB with a size of zero, where for
/// YUV formats it works the size out from the layout; zero stays the fallback
/// because it is what the other drivers expect when the size is unknown.
pub fn buffer_size(end: Option<u64>) -> (size: u32)
    ensures
        size == match end {
            Some(n) => if n <= u32::MAX {
                n as int
            } else {
                0
            },
            None => 0,
        },
{
    match end {
        Some(n) => if n <= u32::MAX as u64 {
            n as u32
        } else {
            0
        },
        None => 0,
    }
}

////// Laws

/// A buffer is imported where its format has a VA-API name and it has one to four planes,
/// and refused for the first of these that fails.
pub proof fn buffers_are_refused_for_format_or_planes(buffer: DmaBuf)
    ensures
        unimportable(buffer) is None <==> fourcc_for(buffer.drm_format) is Some && 1
            <= buffer.planes@.len() <= 4,
        fourcc_for(buffer.drm_format) is None ==> unimportable(buffer) == Some(
            DmaBufError::DrmFormat(buffer.drm_format),
        ),
        fourcc_for(buffer.drm_format) is Some && !(1 <= buffer.planes@.len() <= 4)
            ==> unimportable(buffer) == Some(DmaBufError::PlaneCount(buffer.planes.len())),
{
}

/// Every format with a VA-API name has a render target, so an import that gets as
/// far as a name never fails for want of one.
pub proof fn mapped_formats_have_render_targets(drm_format: u32)
    ensures
        fourcc_for(drm_format) matches Some(fourcc) ==> render_target_for(fourcc) is Some,
{
}

/// No two DRM formats share a VA-API name.
pub proof fn formats_keep_their_identity(a: u32, b: u32)
    requires
        fourcc_for(a) is Some,
        fourcc_for(a) == fourcc_for(b),
    ensures
        a == b,
{
}

/// An export of up to four planes, described and handed to the driver again, tells
/// it what the export told: format, modifier, size, planes, and descriptor.
pub proof fn exports_survive_the_round_trip(
    exported: DrmPrimeSurfaceDescriptor,
    buffer: DmaBuf,
    size: u32,
    d: VADRMPRIMESurfaceDescriptor,
)
    requires
        describes(buffer, exported),
        exported.layers@[0].num_planes <= 4,
        is_attribute(d, buffer, size),
    ensures
        d.width == exported.width,
        d.height == exported.height,
        d.objects[0].fd == exported.objects@[0].fd,
        d.objects[0].drm_format_modifier == exported.objects@[0].drm_format_modifier,
        d.layers[0].drm_format == exported.layers@[0].drm_format,
        d.layers[0].num_planes == exported.layers@[0].num_planes,
        forall|i: int|
            0 <= i < exported.layers@[0].num_planes ==> #[trigger] d.layers[0].offset[i]
                == exported.layers@[0].offset[i],
        forall|i: int|
            0 <= i < exported.layers@[0].num_planes ==> #[trigger] d.layers[0].pitch[i]
                == exported.layers@[0].pitch[i],
{
}

} // verus!
