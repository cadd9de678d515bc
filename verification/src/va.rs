//! The parts of the VA-API vocabulary the decoder and the post-processor speak.

use vstd::prelude::*;

verus! {

/// Pixel formats, as `VA_FOURCC` spells them.
pub const VA_FOURCC_NV12: u32 = 0x3231564e;
pub const VA_FOURCC_P010: u32 = 0x30313050;
pub const VA_FOURCC_I420: u32 = 0x30323449;
pub const VA_FOURCC_YV12: u32 = 0x32315659;
pub const VA_FOURCC_YUY2: u32 = 0x32595559;
pub const VA_FOURCC_BGRA: u32 = 0x41524742;
pub const VA_FOURCC_BGRX: u32 = 0x58524742;
pub const VA_FOURCC_RGBA: u32 = 0x41424752;
pub const VA_FOURCC_RGBX: u32 = 0x58424752;
pub const VA_FOURCC_ARGB: u32 = 0x42475241;
pub const VA_FOURCC_XRGB: u32 = 0x42475258;

/// Render target formats.
pub const VA_RT_FORMAT_YUV420: u32 = 0x0000_0001;
pub const VA_RT_FORMAT_YUV422: u32 = 0x0000_0002;
pub const VA_RT_FORMAT_YUV420_10: u32 = 0x0000_0100;
pub const VA_RT_FORMAT_RGB32: u32 = 0x0002_0000;

/// Profiles.
pub const VA_PROFILE_NONE: i32 = -1;
pub const VA_PROFILE_H264_MAIN: i32 = 6;
pub const VA_PROFILE_H264_HIGH: i32 = 7;
pub const VA_PROFILE_H264_CONSTRAINED_BASELINE: i32 = 13;

/// Entry points.
pub const VA_ENTRYPOINT_VLD: u32 = 1;
pub const VA_ENTRYPOINT_VIDEO_PROC: u32 = 10;

/// The configuration attribute that names the render target format.
pub const VA_CONFIG_ATTRIB_RT_FORMAT: u32 = 0;

/// What a surface is for.
pub const USAGE_HINT_DECODER: u32 = 0x0000_0001;
pub const USAGE_HINT_VPP_WRITE: u32 = 0x0000_0008;
pub const USAGE_HINT_EXPORT: u32 = 0x0000_0020;

/// Color standards of the post-processor.
pub const VA_PROC_COLOR_STANDARD_BT601: u8 = 1;
pub const VA_PROC_COLOR_STANDARD_BT709: u8 = 2;

/// Ranges of the samples of a surface.
pub const VA_SOURCE_RANGE_REDUCED: u8 = 1;
pub const VA_SOURCE_RANGE_FULL: u8 = 2;

/// The id no object has.
pub const VA_INVALID_ID: u32 = 0xffff_ffff;

/// Flags of a picture.
pub const VA_PICTURE_H264_INVALID: u32 = 0x0000_0001;
pub const VA_PICTURE_H264_SHORT_TERM_REFERENCE: u32 = 0x0000_0008;
pub const VA_PICTURE_H264_LONG_TERM_REFERENCE: u32 = 0x0000_0010;

/// The whole slice is in the buffer.
pub const VA_SLICE_DATA_FLAG_ALL: u32 = 0;

/// A VA-API entry point, or group of them, that can fail.
#[derive(Clone, Copy, Debug, PartialEq, Eq, Structural)]
pub enum VaCall {
    OpenDisplay,
    QueryConfigProfiles,
    QueryConfigEntrypoints,
    GetConfigAttributes,
    CreateConfig,
    CreateContext,
    CreateSurfaces,
    CreateBuffer,
    BeginPicture,
    RenderPicture,
    EndPicture,
    SyncSurface,
    QueryImageFormats,
    DeriveImage,
    GetImage,
    ExportSurface,
    TakeSurface,
}

/// A VA-API call that failed, with the status it returned.
#[derive(Clone, Copy, Debug, PartialEq, Eq, Structural)]
pub struct VaFailure {
    pub call: VaCall,
    pub status: i32,
}

} // verus!
