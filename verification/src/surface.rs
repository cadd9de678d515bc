//! Surfaces: decoded pictures as the decoder passes them around, and exports.

use vstd::prelude::*;

verus! {

/// A decoded picture: the surface holding it plus what the caller needs to read
/// it back.
#[derive(Clone, Copy, Debug, PartialEq, Eq, Structural)]
pub struct Handle {
    /// The `VASurfaceID` the picture was decoded into.
    pub surface: u32,
    /// Timestamp of the access unit the picture was coded in.
    pub timestamp: u64,
    /// Visible width in pixels.
    pub width: u32,
    /// Visible height in pixels.
    pub height: u32,
}

/// One buffer of an exported surface.
#[derive(Clone, Copy, Debug, PartialEq, Eq, Structural)]
pub struct DrmPrimeSurfaceDescriptorObject {
    /// The DRM PRIME file descriptor.
    pub fd: i32,
    pub size: u32,
    pub drm_format_modifier: u64,
}

/// One layer of an exported surface: planes, and where they lie.
#[derive(Clone, Copy, Debug)]
pub struct DrmPrimeSurfaceDescriptorLayer {
    pub drm_format: u32,
    pub num_planes: u32,
    pub object_index: [u8; 4],
    pub offset: [u32; 4],
    pub pitch: [u32; 4],
}

/// A surface exported as DRM PRIME.
#[derive(Debug)]
pub struct DrmPrimeSurfaceDescriptor {
    pub fourcc: u32,
    pub width: u32,
    pub height: u32,
    pub objects: Vec<DrmPrimeSurfaceDescriptorObject>,
    pub layers: Vec<DrmPrimeSurfaceDescriptorLayer>,
}

/// What the driver is told of a buffer to import, in `VADRMPRIMESurfaceDescriptor`.
#[derive(Clone, Copy, Debug)]
pub struct VADRMPRIMESurfaceDescriptor {
    pub fourcc: u32,
    pub width: u32,
    pub height: u32,
    pub num_objects: u32,
    pub objects: [DrmPrimeSurfaceDescriptorObject; 4],
    pub num_layers: u32,
    pub layers: [DrmPrimeSurfaceDescriptorLayer; 4],
}

/// An object of a descriptor that is not in use.
pub open spec fn no_object() -> DrmPrimeSurfaceDescriptorObject {
    DrmPrimeSurfaceDescriptorObject { fd: 0, size: 0, drm_format_modifier: 0 }
}

/// Whether `a` holds nothing but zeros.
pub open spec fn blank(a: [u32; 4]) -> bool {
    forall|i: int| 0 <= i < 4 ==> #[trigger] a[i] == 0
}

/// Whether `layer` is one that is not in use.
pub open spec fn is_no_layer(layer: DrmPrimeSurfaceDescriptorLayer) -> bool {
    &&& layer.drm_format == 0
    &&& layer.num_planes == 0
    &&& forall|i: int| 0 <= i < 4 ==> #[trigger] layer.object_index[i] == 0
    &&& blank(layer.offset)
    &&& blank(layer.pitch)
}

/// Describes a buffer of one object holding one layer of `num_planes` planes.
pub fn describe(
    fourcc: u32,
    width: u32,
    height: u32,
    object: DrmPrimeSurfaceDescriptorObject,
    drm_format: u32,
    num_planes: u32,
    offset: [u32; 4],
    pitch: [u32; 4],
) -> (d: VADRMPRIMESurfaceDescriptor)
    ensures
        d.fourcc == fourcc,
        d.width == width,
        d.height == height,
        d.num_objects == 1,
        d.objects[0] == object,
        forall|i: int| 1 <= i < 4 ==> #[trigger] d.objects[i] == no_object(),
        d.num_layers == 1,
        d.layers[0].drm_format == drm_format,
        d.layers[0].num_planes == num_planes,
        forall|i: int| 0 <= i < 4 ==> #[trigger] d.layers[0].object_index[i] == 0,
        d.layers[0].offset == offset,
        d.layers[0].pitch == pitch,
        forall|i: int| 1 <= i < 4 ==> is_no_layer(#[trigger] d.layers[i]),
{
    let unused = DrmPrimeSurfaceDescriptorObject { fd: 0, size: 0, drm_format_modifier: 0 };
    let empty = DrmPrimeSurfaceDescriptorLayer {
        drm_format: 0,
        num_planes: 0,
        object_index: [0;4],
        offset: [0;4],
        pitch: [0;4],
    };
    let layer = DrmPrimeSurfaceDescriptorLayer {
        drm_format,
        num_planes,
        object_index: [0;4],
        offset,
        pitch,
    };
    VADRMPRIMESurfaceDescriptor {
        fourcc,
        width,
        height,
        num_objects: 1,
        objects: [object, unused, unused, unused],
        num_layers: 1,
        layers: [layer, empty, empty, empty],
    }
}

} // verus!
