//! Video post-processing: the `VAEntrypointVideoProc` pipeline.
//!
//! The one operation here is an identity blit, which sounds pointless and is
//! not: the destination is a surface the driver allocates for itself, so the
//! blit rewrites the pixels into whatever tiling that driver prefers for a
//! freshly allocated surface. That is how a DMA-BUF carrying a format modifier
//! some other API refuses to import becomes one it accepts.
//!
//! The case this was written for: the Intel iHD H.264 decoder writes
//! `I915_FORMAT_MOD_Y_TILED` (`0x100000000000002`), and Mesa's Vulkan driver
//! does not list that modifier for `VK_FORMAT_G8_B8R8_2PLANE_420_UNORM`, so
//! `vkCreateImage` with an explicit modifier fails and the frame has to go
//! through system memory instead. Blitting it into a VPP-allocated surface on
//! the same device yields `I915_FORMAT_MOD_Y_TILED_GEN12_RC_CCS`
//! (`0x100000000000009`), which Vulkan does list. The pixels never leave the
//! GPU.
//!
//! [`Processor::retile`] is that path end to end: in an exported DMA-BUF, out a
//! surface to export again. [`Processor::import`] and [`Processor::process`] are
//! the two halves, for a caller that already holds a surface (a decoder
//! handing over its output) and only needs the second one.

pub mod opening;

use vstd::prelude::*;

use crate::dmabuf;
use crate::surface;
use crate::surface::{
    describe, DrmPrimeSurfaceDescriptorObject, VADRMPRIMESurfaceDescriptor,
};
use crate::va::{
    VaFailure, USAGE_HINT_EXPORT, USAGE_HINT_VPP_WRITE, VA_FOURCC_ARGB, VA_FOURCC_BGRA,
    VA_FOURCC_BGRX, VA_FOURCC_I420, VA_FOURCC_NV12, VA_FOURCC_P010, VA_FOURCC_RGBA,
    VA_FOURCC_RGBX, VA_FOURCC_XRGB, VA_FOURCC_YUY2, VA_FOURCC_YV12, VA_RT_FORMAT_RGB32,
    VA_RT_FORMAT_YUV420, VA_RT_FORMAT_YUV420_10,
};

verus! {

/// One plane of an imported DMA-BUF, within the single object holding them all.
#[derive(Clone, Copy, Debug, PartialEq, Eq, Structural)]
pub struct Plane {
    /// Byte offset of the plane from the start of the object.
    pub offset: u32,
    /// Bytes between adjacent rows of the plane.
    pub pitch: u32,
}

/// An externally allocated DMA-BUF, described well enough to import as a surface.
///
/// One object holding every plane, which is what a VA-API decoder exports and
/// what a PipeWire producer negotiating a single modifier hands out. A surface
/// split across several objects is not describable here.
#[derive(Debug)]
pub struct DmaBuf {
    /// Pixel format of the surface, a `VA_FOURCC_*` code.
    pub fourcc: u32,
    /// Pixel format of the layer, a `DRM_FORMAT_*` code.
    pub drm_format: u32,
    /// Format modifier describing the tiling of the object.
    pub modifier: u64,
    /// Width of the allocation in pixels.
    pub width: u32,
    /// Height of the allocation in pixels.
    pub height: u32,
    /// Plane offsets and pitches, in format order. At most four.
    pub planes: Vec<Plane>,
    /// The exported descriptor, which whoever opened it holds open until the
    /// surface is destroyed.
    pub fd: i32,
}

/// Why post-processing failed.
#[derive(Clone, Copy, Debug, PartialEq, Eq, Structural)]
pub enum VppError {
    /// No render target format is this VA-API format.
    RenderTarget(u32),
    /// No DRM device supports video post-processing.
    NoDevice,
    /// The driver returned no surface.
    NoSurface,
    /// A VA-API call failed.
    Device(VaFailure),
}

/// Whether `d` tells the driver of `buffer`. The size goes out as zero, which asks
/// the driver to work it out from the layout.
pub open spec fn is_attribute(d: VADRMPRIMESurfaceDescriptor, buffer: DmaBuf) -> bool {
    let layer = d.layers[0];
    let n = dmabuf::at_most_four(buffer.planes@.len() as int);
    &&& d.fourcc == buffer.fourcc
    &&& d.width == buffer.width
    &&& d.height == buffer.height
    &&& d.num_objects == 1
    &&& d.objects[0] == (DrmPrimeSurfaceDescriptorObject {
        fd: buffer.fd,
        size: 0,
        drm_format_modifier: buffer.modifier,
    })
    &&& forall|i: int| 1 <= i < 4 ==> #[trigger] d.objects[i] == surface::no_object()
    &&& d.num_layers == 1
    &&& layer.drm_format == buffer.drm_format
    &&& layer.num_planes == n
    &&& forall|i: int| 0 <= i < 4 ==> #[trigger] layer.object_index[i] == 0
    &&& forall|i: int|
        0 <= i < 4 ==> #[trigger] layer.offset[i] == if i < n {
            buffer.planes@[i].offset
        } else {
            0
        }
    &&& forall|i: int|
        0 <= i < 4 ==> #[trigger] layer.pitch[i] == if i < n {
            buffer.planes@[i].pitch
        } else {
            0
        }
    &&& forall|i: int| 1 <= i < 4 ==> surface::is_no_layer(#[trigger] d.layers[i])
}

impl DmaBuf {
    /// Returns what the driver is told of this buffer.
    pub fn va_surface_attribute(&self) -> (d: VADRMPRIMESurfaceDescriptor)
        ensures
            is_attribute(d, *self),
            d.fourcc == self.fourcc,
            d.width == self.width,
            d.height == self.height,
            d.num_objects == 1,
            d.objects[0].fd == self.fd,
            d.objects[0].size == 0,
            d.objects[0].drm_format_modifier == self.modifier,
            d.num_layers == 1,
            d.layers[0].drm_format == self.drm_format,
            self.planes@.len() <= 4 ==> d.layers[0].num_planes == self.planes@.len(),
            forall|i: int|
                0 <= i < 4 && i < self.planes@.len() ==> #[trigger] d.layers[0].offset[i]
                    == self.planes@[i].offset,
            forall|i: int|
                0 <= i < 4 && i < self.planes@.len() ==> #[trigger] d.layers[0].pitch[i]
                    == self.planes@[i].pitch,
            forall|i: int| 0 <= i < 4 ==> #[trigger] d.layers[0].object_index[i] == 0,
            self.planes@.len() > 4 ==> d.layers[0].num_planes == 4,
            forall|i: int|
                self.planes@.len() <= i < 4 ==> #[trigger] d.layers[0].offset[i] == 0,
            forall|i: int|
                self.planes@.len() <= i < 4 ==> #[trigger] d.layers[0].pitch[i] == 0,
            forall|i: int| 1 <= i < 4 ==> (#[trigger] d.objects[i]).size == 0 && d.objects[i].fd
                == 0,
            forall|i: int| 1 <= i < 4 ==> (#[trigger] d.layers[i]).num_planes == 0,
    {
        let object = DrmPrimeSurfaceDescriptorObject {
            fd: self.fd,
            size: 0,
            drm_format_modifier: self.modifier,
        };
        let mut offset: [u32; 4] = [0;4];
        let mut pitch: [u32; 4] = [0;4];
        let mut i: usize = 0;
        while i < self.planes.len() && i < 4
            invariant
                i <= dmabuf::at_most_four(self.planes@.len() as int),
                forall|k: int|
                    0 <= k < 4 ==> #[trigger] offset[k] == if k < i {
                        self.planes@[k].offset
                    } else {
                        0
                    },
                forall|k: int|
                    0 <= k < 4 ==> #[trigger] pitch[k] == if k < i {
                        self.planes@[k].pitch
                    } else {
                        0
                    },
            decreases 4 - i,
        {
            offset[i] = self.planes[i].offset;
            pitch[i] = self.planes[i].pitch;
            i = i + 1;
        }
        describe(
            self.fourcc,
            self.width,
            self.height,
            object,
            self.drm_format,
            i as u32,
            offset,
            pitch,
        )
    }
}

/// The `VA_RT_FORMAT_*` of a VA fourcc the post-processor handles.
pub open spec fn render_target_for(fourcc: u32) -> Option<u32> {
    if fourcc == VA_FOURCC_NV12 || fourcc == VA_FOURCC_I420 || fourcc == VA_FOURCC_YV12 {
        Some(VA_RT_FORMAT_YUV420)
    } else if fourcc == VA_FOURCC_P010 {
        Some(VA_RT_FORMAT_YUV420_10)
    } else if dmabuf::is_packed_rgb(fourcc) {
        Some(VA_RT_FORMAT_RGB32)
    } else {
        None
    }
}

/// Returns the `VA_RT_FORMAT_*` a surface of `fourcc` is allocated as.
///
/// Returns `None` for a format this module has no mapping for, which is the
/// honest answer: guessing the render-target format wrong makes
/// `vaCreateSurfaces` fail with an error that names neither.
pub fn rt_format(fourcc: u32) -> (format: Option<u32>)
    ensures
        format == render_target_for(fourcc),
        format == Some(VA_RT_FORMAT_YUV420) <==> (fourcc == VA_FOURCC_NV12 || fourcc
            == VA_FOURCC_I420 || fourcc == VA_FOURCC_YV12),
        format == Some(VA_RT_FORMAT_YUV420_10) <==> fourcc == VA_FOURCC_P010,
        format == Some(VA_RT_FORMAT_RGB32) <==> (fourcc == VA_FOURCC_BGRA || fourcc
            == VA_FOURCC_BGRX || fourcc == VA_FOURCC_RGBA || fourcc == VA_FOURCC_RGBX || fourcc
            == VA_FOURCC_ARGB || fourcc == VA_FOURCC_XRGB),
        format matches Some(f) ==> f == VA_RT_FORMAT_YUV420 || f == VA_RT_FORMAT_YUV420_10 || f
            == VA_RT_FORMAT_RGB32,
{
    match fourcc {
        VA_FOURCC_NV12 | VA_FOURCC_I420 | VA_FOURCC_YV12 => Some(VA_RT_FORMAT_YUV420),
        VA_FOURCC_P010 => Some(VA_RT_FORMAT_YUV420_10),
        VA_FOURCC_BGRA | VA_FOURCC_BGRX | VA_FOURCC_RGBA | VA_FOURCC_RGBX | VA_FOURCC_ARGB
        | VA_FOURCC_XRGB => Some(VA_RT_FORMAT_RGB32),
        _ => None,
    }
}

/// A video post-processor on one device.
///
/// Holds the display and the VPP configuration, which are what cost something to
/// build; the per-blit context and surfaces are cheap enough to make and drop
/// around each call, and making them per-call is what keeps one processor usable
/// for frames of different sizes.
#[derive(Clone, Copy, Debug, PartialEq, Eq, Structural)]
pub struct Processor {
    /// The number the display goes by.
    display: u32,
    /// The number of its VPP configuration.
    config: u32,
}

/// A surface to blit from.
#[derive(Clone, Copy, Debug, PartialEq, Eq, Structural)]
pub struct Input {
    pub id: u32,
    pub width: u32,
    pub height: u32,
}

/// Color properties of a surface, all of them left to the driver.
#[derive(Clone, Copy, Debug, PartialEq, Eq, Structural)]
pub struct ProcColorProperties {
    pub chroma_sample_location: u8,
    pub color_range: u8,
    pub colour_primaries: u8,
    pub transfer_characteristics: u8,
    pub matrix_coefficients: u8,
}

/// A region of a surface.
#[derive(Clone, Copy, Debug, PartialEq, Eq, Structural)]
pub struct VARectangle {
    pub x: i16,
    pub y: i16,
    pub width: u16,
    pub height: u16,
}

/// What a blit does, in `VAProcPipelineParameterBuffer`. Lists of ids the pipeline
/// can do without are `None`.
#[derive(Debug)]
pub struct ProcPipelineParameterBuffer {
    pub surface: u32,
    pub surface_region: Option<VARectangle>,
    pub surface_color_standard: u32,
    pub output_region: Option<VARectangle>,
    pub output_background_color: u32,
    pub output_color_standard: u32,
    pub pipeline_flags: u32,
    pub filter_flags: u32,
    pub filters: Option<Vec<u32>>,
    pub forward_references: Option<Vec<u32>>,
    pub backward_references: Option<Vec<u32>>,
    pub rotation_state: u32,
    /// The id of a blend state.
    pub blend_state: Option<u32>,
    pub mirror_state: u32,
    pub additional_outputs: Option<Vec<u32>>,
    pub input_surface_flag: u32,
    pub output_surface_flag: u32,
    pub input_color_properties: ProcColorProperties,
    pub output_color_properties: ProcColorProperties,
    pub processing_mode: u32,
    /// The id of HDR metadata.
    pub output_hdr_metadata: Option<u32>,
}

/// Color properties that ask for nothing.
pub open spec fn neutral_colors() -> ProcColorProperties {
    ProcColorProperties {
        chroma_sample_location: 0,
        color_range: 0,
        colour_primaries: 0,
        transfer_characteristics: 0,
        matrix_coefficients: 0,
    }
}

/// The pipeline of a plain blit of `surface`: every knob at its neutral value.
pub open spec fn identity_of(surface: u32) -> ProcPipelineParameterBuffer {
    ProcPipelineParameterBuffer {
        surface,
        surface_region: None,
        surface_color_standard: 0,
        output_region: None,
        output_background_color: 0,
        output_color_standard: 0,
        pipeline_flags: 0,
        filter_flags: 0,
        filters: None,
        forward_references: None,
        backward_references: None,
        rotation_state: 0,
        blend_state: None,
        mirror_state: 0,
        additional_outputs: None,
        input_surface_flag: 0,
        output_surface_flag: 0,
        input_color_properties: neutral_colors(),
        output_color_properties: neutral_colors(),
        processing_mode: 0,
        output_hdr_metadata: None,
    }
}

/// Returns a pipeline parameter buffer describing a plain blit of `surface`.
///
/// Every knob at its neutral value: no regions (so the whole surface), no
/// filters, no references, no rotation or mirroring, and default color
/// properties, which leave the color standard as the driver reads it off the
/// surface rather than asking for a conversion.
pub fn identity_pipeline(surface: u32) -> (p: ProcPipelineParameterBuffer)
    ensures
        p == identity_of(surface),
        p.surface == surface,
        p.surface_region is None,
        p.output_region is None,
        p.surface_color_standard == 0,
        p.output_color_standard == 0,
        p.filters is None,
        p.forward_references is None,
        p.backward_references is None,
        p.rotation_state == 0,
        p.mirror_state == 0,
        p.blend_state is None,
        p.input_color_properties == p.output_color_properties,
        p.input_color_properties.color_range == 0,
        p.input_color_properties.chroma_sample_location == 0,
        p.input_color_properties.colour_primaries == 0,
        p.input_color_properties.transfer_characteristics == 0,
        p.input_color_properties.matrix_coefficients == 0,
        p.output_background_color == 0,
        p.pipeline_flags == 0,
        p.filter_flags == 0,
        p.additional_outputs is None,
        p.input_surface_flag == 0,
        p.output_surface_flag == 0,
        p.processing_mode == 0,
        p.output_hdr_metadata is None,
{
    let neutral = ProcColorProperties {
        chroma_sample_location: 0,
        color_range: 0,
        colour_primaries: 0,
        transfer_characteristics: 0,
        matrix_coefficients: 0,
    };
    ProcPipelineParameterBuffer {
        surface,
        surface_region: None,
        surface_color_standard: 0,
        output_region: None,
        output_background_color: 0,
        output_color_standard: 0,
        pipeline_flags: 0,
        filter_flags: 0,
        filters: None,
        forward_references: None,
        backward_references: None,
        rotation_state: 0,
        blend_state: None,
        mirror_state: 0,
        additional_outputs: None,
        input_surface_flag: 0,
        output_surface_flag: 0,
        input_color_properties: neutral,
        output_color_properties: neutral,
        processing_mode: 0,
        output_hdr_metadata: None,
    }
}

/// What the driver is to create for a surface.
#[derive(Clone, Copy, Debug, PartialEq, Eq, Structural)]
pub struct SurfaceRequest {
    pub display: u32,
    pub rt_format: u32,
    pub fourcc: u32,
    pub width: u32,
    pub height: u32,
    pub usage_hint: Option<u32>,
}

/// A buffer about to be imported.
#[derive(Debug)]
pub struct Import {
    pub buffer: DmaBuf,
    pub request: SurfaceRequest,
}

/// A surface that wraps a buffer, and owns it.
#[derive(Debug)]
pub struct ImportedSurface {
    pub id: u32,
    pub buffer: DmaBuf,
}

/// What a blit needs the driver to do next.
#[derive(Debug)]
pub enum Request {
    /// Create the output surface.
    CreateSurface(SurfaceRequest),
    /// Create a context for the output.
    CreateContext { display: u32, config: u32, width: u32, height: u32, surfaces: Vec<u32> },
    /// Create the pipeline's buffer.
    CreateBuffer { context: u32, pipeline: ProcPipelineParameterBuffer },
    /// Begin, render, end, and sync the picture.
    RunPicture { context: u32, surface: u32, buffer: u32 },
    /// Take the output back from the picture.
    TakeSurface { surface: u32 },
}

/// What the driver answered.
#[derive(Debug)]
pub enum Reply {
    Surfaces(Vec<u32>),
    Context(u32),
    Buffer(u32),
    Done,
    Failed(VaFailure),
}

/// What a blit waits for.
#[derive(Clone, Copy, Debug, PartialEq, Eq, Structural)]
pub enum BlitStage {
    Output,
    Context { output: u32 },
    Buffer { output: u32, context: u32 },
    Picture { output: u32 },
    Take { output: u32 },
}

/// A blit under way.
#[derive(Clone, Copy, Debug, PartialEq, Eq, Structural)]
pub struct Blit {
    pub processor: Processor,
    pub input: Input,
    pub stage: BlitStage,
}

/// What comes of an answer.
#[derive(Debug)]
pub enum BlitStep {
    /// The blit goes on once the driver has answered.
    Ask { blit: Blit, request: Request },
    /// The blit is done, and this surface holds the result.
    Done(u32),
}

/// A re-tile under way: the import it starts with.
#[derive(Debug)]
pub struct Retile {
    pub processor: Processor,
    pub import: Import,
}

/// The hint for the output of a blit: written by the post-processor, then exported.
pub const OUTPUT_HINT: u32 = 0x0000_0028;

/// The surface a blit of `input` to `fourcc` goes into.
pub open spec fn output_request(p: Processor, input: Input, fourcc: u32) -> SurfaceRequest {
    SurfaceRequest {
        display: p.spec_display(),
        rt_format: render_target_for(fourcc).unwrap(),
        fourcc,
        width: input.width,
        height: input.height,
        usage_hint: Some(OUTPUT_HINT),
    }
}

/// The surface an import of `buffer` asks for.
pub open spec fn import_request(p: Processor, buffer: DmaBuf) -> SurfaceRequest {
    SurfaceRequest {
        display: p.spec_display(),
        rt_format: render_target_for(buffer.fourcc).unwrap(),
        fourcc: buffer.fourcc,
        width: buffer.width,
        height: buffer.height,
        usage_hint: None,
    }
}

/// Whether `r` asks for `request`, with the blit `b` at `stage`.
pub open spec fn blit_asks(
    b: Blit,
    stage: BlitStage,
    request: Request,
    r: Result<BlitStep, VppError>,
) -> bool {
    r matches Ok(BlitStep::Ask { blit, request: q }) && blit == (Blit { stage, ..b }) && q == request
}

/// What `reply` makes of the blit `b`.
pub open spec fn blit_resumed(b: Blit, reply: Reply, r: Result<BlitStep, VppError>) -> bool {
    match (b.stage, reply) {
        (BlitStage::Output, Reply::Surfaces(surfaces)) => blit_asks(
            b,
            BlitStage::Context { output: surfaces@.last() },
            Request::CreateContext {
                display: b.processor.spec_display(),
                config: b.processor.spec_config(),
                width: b.input.width,
                height: b.input.height,
                surfaces,
            },
            r,
        ),
        (BlitStage::Context { output }, Reply::Context(context)) => blit_asks(
            b,
            BlitStage::Buffer { output, context },
            Request::CreateBuffer { context, pipeline: identity_of(b.input.id) },
            r,
        ),
        (BlitStage::Buffer { output, context }, Reply::Buffer(buffer)) => blit_asks(
            b,
            BlitStage::Picture { output },
            Request::RunPicture { context, surface: output, buffer },
            r,
        ),
        (BlitStage::Picture { output }, Reply::Done) => blit_asks(
            b,
            BlitStage::Take { output },
            Request::TakeSurface { surface: output },
            r,
        ),
        (BlitStage::Take { output }, Reply::Done) => r matches Ok(BlitStep::Done(s)) && s == output,
        (_, Reply::Failed(failure)) => r matches Err(e) && e == VppError::Device(failure),
        _ => true,
    }
}

/// Whether `reply` answers what the blit `b` has asked. The driver creates the one
/// surface it is asked for, or fails.
pub open spec fn blit_answers(b: Blit, reply: Reply) -> bool {
    match (b.stage, reply) {
        (_, Reply::Failed(_)) => true,
        (BlitStage::Output, Reply::Surfaces(surfaces)) => surfaces@.len() > 0,
        (BlitStage::Context { .. }, Reply::Context(_)) => true,
        (BlitStage::Buffer { .. }, Reply::Buffer(_)) => true,
        (BlitStage::Picture { .. }, Reply::Done) => true,
        (BlitStage::Take { .. }, Reply::Done) => true,
        _ => false,
    }
}

/// Whether `r` starts a blit of `input` into a new surface of `fourcc`.
pub open spec fn blits(
    p: Processor,
    input: Input,
    fourcc: u32,
    r: Result<BlitStep, VppError>,
) -> bool {
    if render_target_for(fourcc) is None {
        r matches Err(e) && e == VppError::RenderTarget(fourcc)
    } else {
        r matches Ok(BlitStep::Ask { blit, request }) && blit == (Blit {
            processor: p,
            input,
            stage: BlitStage::Output,
        }) && request == Request::CreateSurface(output_request(p, input, fourcc))
    }
}

/// Whether `r` starts an import of `buffer`.
pub open spec fn imports(p: Processor, buffer: DmaBuf, r: Result<Import, VppError>) -> bool {
    if render_target_for(buffer.fourcc) is None {
        r matches Err(e) && e == VppError::RenderTarget(buffer.fourcc)
    } else {
        r matches Ok(import) && import.buffer == buffer && import.request == import_request(
            p,
            buffer,
        )
    }
}

impl Processor {
    /// The number the display goes by.
    pub closed spec fn spec_display(self) -> u32 {
        self.display
    }

    /// The number of its VPP configuration.
    pub closed spec fn spec_config(self) -> u32 {
        self.config
    }

    /// Puts a processor together from an open display and its configuration.
    pub(crate) fn assemble(display: u32, config: u32) -> (p: Processor)
        ensures
            p.spec_display() == display,
            p.spec_config() == config,
    {
        Processor { display, config }
    }

    /// Returns the display this processor runs on, to share with a decoder or an
    /// encoder.
    pub fn display(&self) -> (display: u32)
        ensures
            display == self.spec_display(),
    {
        self.display
    }

    /// Starts importing an exported DMA-BUF as a surface, without copying it.
    pub fn import(&self, buffer: DmaBuf) -> (r: Result<Import, VppError>)
        ensures
            imports(*self, buffer, r),
            r matches Ok(import) ==> {
                &&& import.buffer == buffer
                &&& import.request.fourcc == buffer.fourcc
                &&& import.request.width == buffer.width
                &&& import.request.height == buffer.height
                &&& import.request.usage_hint is None
                &&& import.request.display == self.spec_display()
                &&& Some(import.request.rt_format) == dmabuf::render_target_for(buffer.fourcc)
            },
            r matches Err(e) ==> e == VppError::RenderTarget(buffer.fourcc),
    {
        let rt_format: u32 = match rt_format(buffer.fourcc) {
            Some(rt_format) => rt_format,
            None => {
                return Err(VppError::RenderTarget(buffer.fourcc));
            },
        };
        let request = SurfaceRequest {
            display: self.display,
            rt_format,
            fourcc: buffer.fourcc,
            width: buffer.width,
            height: buffer.height,
            usage_hint: None,
        };
        Ok(Import { buffer, request })
    }

    /// Starts blitting `input` into a driver-allocated surface of `fourcc` and the
    /// same size.
    ///
    /// The blit is an identity: no scale, no crop, no rotation, and no color
    /// conversion beyond what changing `fourcc` implies. What it does change is
    /// the allocation, since the destination is the driver's own and carries
    /// whatever modifier the driver picks for a surface hinted as
    /// post-processing output that will be exported.
    pub fn process(&self, input: Input, fourcc: u32) -> (r: Result<BlitStep, VppError>)
        ensures
            blits(*self, input, fourcc, r),
            r matches Ok(step) ==> {
                &&& step matches BlitStep::Ask { blit, request: Request::CreateSurface(output) }
                &&& blit.input == input
                &&& output.fourcc == fourcc
                &&& output.width == input.width
                &&& output.height == input.height
                &&& output.usage_hint == Some(OUTPUT_HINT)
                &&& output.display == self.spec_display()
                &&& Some(output.rt_format) == dmabuf::render_target_for(fourcc)
                &&& blit.processor == *self
                &&& blit.stage is Output
            },
            r matches Err(e) ==> e == VppError::RenderTarget(fourcc),
    {
        let rt_format: u32 = match rt_format(fourcc) {
            Some(rt_format) => rt_format,
            None => {
                return Err(VppError::RenderTarget(fourcc));
            },
        };
        let request = SurfaceRequest {
            display: self.display,
            rt_format,
            fourcc,
            width: input.width,
            height: input.height,
            usage_hint: Some(OUTPUT_HINT),
        };
        Ok(
            BlitStep::Ask {
                blit: Blit { processor: *self, input, stage: BlitStage::Output },
                request: Request::CreateSurface(request),
            },
        )
    }

    /// Starts importing `buffer` and blitting it into a driver-allocated surface of
    /// the same format.
    ///
    /// The whole re-tile: export the result and read the modifier off the object to
    /// see what the driver chose. Destroying the resulting surface does not
    /// invalidate an export taken from it, since the exported descriptor holds its
    /// own reference on the underlying buffer.
    pub fn retile(&self, buffer: DmaBuf) -> (r: Result<Retile, VppError>)
        ensures
            match r {
                Ok(retile) => retile.processor == *self && imports(
                    *self,
                    buffer,
                    Ok(retile.import),
                ),
                Err(e) => imports(*self, buffer, Err(e)),
            },
            r matches Ok(retile) ==> {
                &&& retile.import.buffer == buffer
                &&& retile.import.request.fourcc == buffer.fourcc
                &&& retile.import.request.width == buffer.width
                &&& retile.import.request.height == buffer.height
                &&& retile.import.request.display == self.spec_display()
            },
    {
        match self.import(buffer) {
            Ok(import) => Ok(Retile { processor: *self, import }),
            Err(e) => Err(e),
        }
    }
}

/// Whether `r` is the surface that wraps `buffer`, from the driver's answer.
pub open spec fn is_imported(
    buffer: DmaBuf,
    surfaces: Result<Vec<u32>, VaFailure>,
    r: Result<ImportedSurface, VppError>,
) -> bool {
    match surfaces {
        Ok(ids) => if ids@.len() == 0 {
            r matches Err(e) && e == VppError::NoSurface
        } else {
            r matches Ok(s) && s.id == ids@.last() && s.buffer == buffer
        },
        Err(failure) => r matches Err(e) && e == VppError::Device(failure),
    }
}

impl Import {
    /// Takes the driver's answer: the surface it created, which now owns the
    /// buffer, or why it created none.
    pub fn finish(self, surfaces: Result<Vec<u32>, VaFailure>) -> (r: Result<
        ImportedSurface,
        VppError,
    >)
        ensures
            is_imported(self.buffer, surfaces, r),
            r matches Ok(s) ==> {
                &&& surfaces matches Ok(ids) && ids@.len() > 0 && s.id == ids@[ids@.len() - 1]
                &&& s.buffer == self.buffer
            },
            r matches Err(VppError::NoSurface) <==> (surfaces matches Ok(ids) && ids@.len() == 0),
            r matches Err(VppError::Device(f)) ==> (surfaces matches Err(g) && f == g),
            surfaces is Err ==> r is Err,
    {
        match surfaces {
            Ok(ids) => {
                if ids.len() == 0 {
                    Err(VppError::NoSurface)
                } else {
                    Ok(ImportedSurface { id: ids[ids.len() - 1], buffer: self.buffer })
                }
            },
            Err(failure) => Err(VppError::Device(failure)),
        }
    }
}

/// What the driver's answer to the import makes of the re-tile `t`.
pub open spec fn retile_resumed(
    t: Retile,
    surfaces: Result<Vec<u32>, VaFailure>,
    r: Result<(ImportedSurface, BlitStep), VppError>,
) -> bool {
    let buffer = t.import.buffer;
    match surfaces {
        Err(failure) => r matches Err(e) && e == VppError::Device(failure),
        Ok(ids) => if ids@.len() == 0 {
            r matches Err(e) && e == VppError::NoSurface
        } else {
            let input = Input { id: ids@.last(), width: buffer.width, height: buffer.height };
            match r {
                Ok((s, step)) => {
                    &&& s.id == ids@.last()
                    &&& s.buffer == buffer
                    &&& blits(t.processor, input, buffer.fourcc, Ok(step))
                },
                Err(e) => blits(t.processor, input, buffer.fourcc, Err(e)),
            }
        },
    }
}

impl Retile {
    /// Takes the driver's answer to the import, and starts the blit: the surface
    /// imported, which the blit reads from, and the blit's first request.
    pub fn resume(self, surfaces: Result<Vec<u32>, VaFailure>) -> (r: Result<
        (ImportedSurface, BlitStep),
        VppError,
    >)
        ensures
            retile_resumed(self, surfaces, r),
            r matches Ok((s, step)) ==> {
                &&& surfaces matches Ok(ids) && ids@.len() > 0 && s.id == ids@[ids@.len() - 1]
                &&& s.buffer == self.import.buffer
                &&& step matches BlitStep::Ask { blit, request: Request::CreateSurface(output) }
                &&& blit.processor == self.processor
                &&& blit.input.id == s.id
                &&& blit.input.width == s.buffer.width
                &&& blit.input.height == s.buffer.height
                &&& output.fourcc == s.buffer.fourcc
                &&& output.width == s.buffer.width
                &&& output.height == s.buffer.height
            },
            surfaces matches Err(failure) ==> (r matches Err(e) && e == VppError::Device(failure)),
    {
        let s = match self.import.finish(surfaces) {
            Ok(s) => s,
            Err(e) => {
                return Err(e);
            },
        };
        let input = Input { id: s.id, width: s.buffer.width, height: s.buffer.height };
        match self.processor.process(input, s.buffer.fourcc) {
            Ok(step) => Ok((s, step)),
            Err(e) => Err(e),
        }
    }
}

impl Blit {
    /// Takes the driver's answer to the last request, and goes on.
    pub fn resume(self, reply: Reply) -> (r: Result<BlitStep, VppError>)
        requires
            blit_answers(self, reply),
        ensures
            blit_resumed(self, reply, r),
    {
        match (self.stage, reply) {
            (BlitStage::Output, Reply::Surfaces(surfaces)) => {
                let output: u32 = surfaces[surfaces.len() - 1];
                Ok(
                    BlitStep::Ask {
                        blit: Blit { stage: BlitStage::Context { output }, ..self },
                        request: Request::CreateContext {
                            display: self.processor.display,
                            config: self.processor.config,
                            width: self.input.width,
                            height: self.input.height,
                            surfaces,
                        },
                    },
                )
            },
            (BlitStage::Context { output }, Reply::Context(context)) => Ok(
                BlitStep::Ask {
                    blit: Blit { stage: BlitStage::Buffer { output, context }, ..self },
                    request: Request::CreateBuffer {
                        context,
                        pipeline: identity_pipeline(self.input.id),
                    },
                },
            ),
            (BlitStage::Buffer { output, context }, Reply::Buffer(buffer)) => Ok(
                BlitStep::Ask {
                    blit: Blit { stage: BlitStage::Picture { output }, ..self },
                    request: Request::RunPicture { context, surface: output, buffer },
                },
            ),
            (BlitStage::Picture { output }, Reply::Done) => Ok(
                BlitStep::Ask {
                    blit: Blit { stage: BlitStage::Take { output }, ..self },
                    request: Request::TakeSurface { surface: output },
                },
            ),
            (BlitStage::Take { output }, Reply::Done) => Ok(BlitStep::Done(output)),
            (_, Reply::Failed(failure)) => Err(VppError::Device(failure)),
            _ => vstd::pervasive::unreached(),
        }
    }
}

////// Laws

/// The output hint is the two hints it stands for.
pub proof fn output_hint_says_both()
    ensures
        OUTPUT_HINT == USAGE_HINT_VPP_WRITE | USAGE_HINT_EXPORT,
{
    assert(0x0000_0028u32 == 0x0000_0008u32 | 0x0000_0020u32) by (bit_vector);
}

/// The post-processor and the importer agree on every render target but one: the
/// post-processor handles no packed 4:2:2.
pub proof fn render_targets_agree(fourcc: u32)
    ensures
        fourcc != VA_FOURCC_YUY2 ==> render_target_for(fourcc) == dmabuf::render_target_for(fourcc),
        render_target_for(VA_FOURCC_YUY2) is None,
{
}

/// A plain blit has every knob at its neutral value, whatever it reads.
pub proof fn plain_blits_differ_in_their_surface_alone(a: u32, b: u32)
    ensures
        identity_of(a).surface == a,
        identity_of(b) == (ProcPipelineParameterBuffer { surface: b, ..identity_of(a) }),
        identity_of(a).surface_region is None && identity_of(a).output_region is None,
        identity_of(a).filters is None && identity_of(a).additional_outputs is None,
        identity_of(a).forward_references is None && identity_of(a).backward_references is None,
        identity_of(a).blend_state is None && identity_of(a).output_hdr_metadata is None,
        identity_of(a).surface_color_standard == 0 && identity_of(a).output_color_standard == 0,
        identity_of(a).pipeline_flags == 0 && identity_of(a).filter_flags == 0,
        identity_of(a).rotation_state == 0 && identity_of(a).mirror_state == 0,
        identity_of(a).input_surface_flag == 0 && identity_of(a).output_surface_flag == 0,
        identity_of(a).output_background_color == 0 && identity_of(a).processing_mode == 0,
        identity_of(a).input_color_properties == identity_of(a).output_color_properties,
        identity_of(a).input_color_properties.color_range == 0,
        identity_of(a).input_color_properties.chroma_sample_location == 0,
        identity_of(a).input_color_properties.colour_primaries == 0,
        identity_of(a).input_color_properties.transfer_characteristics == 0,
        identity_of(a).input_color_properties.matrix_coefficients == 0,
{
}

/// Imports and outputs are on the processor's own display, of the size of what they are
/// for, and only an output is hinted: written by the post-processor and exported after.
pub proof fn surfaces_are_asked_for_on_one_display(
    p: Processor,
    buffer: DmaBuf,
    input: Input,
    fourcc: u32,
)
    ensures
        ({
            let i = import_request(p, buffer);
            let o = output_request(p, input, fourcc);
            &&& i.display == p.spec_display() && o.display == p.spec_display()
            &&& i.fourcc == buffer.fourcc && o.fourcc == fourcc
            &&& i.width == buffer.width && i.height == buffer.height
            &&& o.width == input.width && o.height == input.height
            &&& i.usage_hint is None
            &&& o.usage_hint == Some(0x28u32)
            &&& render_target_for(fourcc) is Some ==> Some(o.rt_format)
                == dmabuf::render_target_for(fourcc)
            &&& render_target_for(buffer.fourcc) is Some ==> Some(i.rt_format)
                == dmabuf::render_target_for(buffer.fourcc)
        }),
{
}

/// A re-tile reads the surface it has just imported.
pub proof fn retiles_read_what_they_import(
    t: Retile,
    surfaces: Result<Vec<u32>, VaFailure>,
    r: Result<(ImportedSurface, BlitStep), VppError>,
)
    requires
        retile_resumed(t, surfaces, r),
    ensures
        surfaces matches Err(failure) ==> (r matches Err(e) && e == VppError::Device(failure)),
        (surfaces matches Ok(ids) && ids@.len() == 0) ==> (r matches Err(e) && e
            == VppError::NoSurface),
        r matches Ok((s, step)) ==> {
            &&& surfaces matches Ok(ids) && ids@.len() > 0 && s.id == ids@[ids@.len() - 1]
            &&& s.buffer == t.import.buffer
            &&& step matches BlitStep::Ask { blit, request: Request::CreateSurface(output) }
            &&& blit.processor == t.processor
            &&& blit.stage is Output
            &&& blit.input == (Input { id: s.id, width: s.buffer.width, height: s.buffer.height })
            &&& output.fourcc == s.buffer.fourcc
        },
{
}

/// A re-tile keeps the pixel format and the size, and once its import has started
/// it never fails for want of a render target.
pub proof fn retiling_keeps_format_and_size(
    p: Processor,
    buffer: DmaBuf,
    import: Import,
    id: u32,
    r: Result<BlitStep, VppError>,
)
    requires
        imports(p, buffer, Ok(import)),
        blits(
            p,
            Input { id, width: import.buffer.width, height: import.buffer.height },
            import.buffer.fourcc,
            r,
        ),
    ensures
        r matches Ok(BlitStep::Ask { blit, request: Request::CreateSurface(output) })
            && output.fourcc == buffer.fourcc && output.width == buffer.width && output.height
            == buffer.height && output.rt_format == import.request.rt_format,
{
}

/// A blit asks for an output of the size of its input, has the pipeline read the input and
/// write the output that was created, and comes back with that output.
pub proof fn blits_read_the_input_and_write_the_output(
    b: Blit,
    reply: Reply,
    r: Result<BlitStep, VppError>,
)
    requires
        blit_answers(b, reply),
        blit_resumed(b, reply, r),
    ensures
        reply is Failed <==> r is Err,
        r matches Ok(BlitStep::Ask { blit, request }) ==> {
            &&& blit.input == b.input
            &&& blit.processor == b.processor
            &&& match request {
                Request::CreateSurface(_) => false,
                Request::CreateContext { display, config, width, height, surfaces } => {
                    &&& reply matches Reply::Surfaces(s) && s == surfaces
                    &&& display == b.processor.spec_display()
                    &&& config == b.processor.spec_config()
                    &&& width == b.input.width
                    &&& height == b.input.height
                    &&& blit.stage matches BlitStage::Context { output } && output
                        == surfaces@[surfaces@.len() - 1]
                },
                Request::CreateBuffer { context, pipeline } => {
                    &&& reply matches Reply::Context(c) && c == context
                    &&& pipeline.surface == b.input.id
                    &&& pipeline.surface_region is None
                    &&& pipeline.output_region is None
                    &&& pipeline.rotation_state == 0
                    &&& pipeline.mirror_state == 0
                    &&& pipeline.filters is None
                    &&& b.stage matches BlitStage::Context { output } && (
                    blit.stage matches BlitStage::Buffer { output: o, context: c } && o == output
                        && c == context)
                },
                Request::RunPicture { context, surface, buffer } => {
                    &&& reply matches Reply::Buffer(n) && n == buffer
                    &&& b.stage matches BlitStage::Buffer { output, context: c } && surface
                        == output && context == c && (
                    blit.stage matches BlitStage::Picture { output: o } && o == output)
                },
                Request::TakeSurface { surface } => {
                    &&& b.stage matches BlitStage::Picture { output } && surface == output && (
                    blit.stage matches BlitStage::Take { output: o } && o == output)
                },
            }
        },
        r matches Ok(BlitStep::Done(s)) ==> (b.stage matches BlitStage::Take { output } && s
            == output),
        r matches Err(e) ==> (reply matches Reply::Failed(f) && e == VppError::Device(f)),
{
}

} // verus!
