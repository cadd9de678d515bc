//! Why decoding failed.

use vstd::prelude::*;

use crate::h264::dpb::MmcoError;
use crate::va::VaFailure;

verus! {

/// Why decoding failed.
#[derive(Clone, Copy, Debug, PartialEq, Eq, Structural)]
pub enum DecodeError {
    /// A sequence parameter set that does not parse.
    Sps,
    /// A picture parameter set that does not parse.
    Pps,
    /// A slice header that does not parse.
    SliceHeader,
    /// A slice refers to a picture parameter set the stream has not sent.
    UnknownPps(u8),
    /// The sequence changed between slices of one picture.
    SequenceChanged,
    /// Interlaced H.264 is not supported.
    Interlaced,
    /// Only 4:2:0 chroma is supported.
    ChromaFormat(u8),
    /// Only 8-bit samples are supported.
    BitDepth { luma: u32, chroma: u32 },
    /// The visible size is not a non-zero even 4:2:0 size.
    VisibleSize { width: u32, height: u32 },
    /// No VA-API profile decodes this `profile_idc`.
    Profile(u8),
    /// A gap in `frame_num` where the sequence allows none.
    FrameNumGap(u32),
    /// There is no picture order count type of this number.
    PicOrderCntType(u8),
    /// A quantity the stream implies does not fit in its range.
    Overflow,
    /// A memory management control operation failed.
    Mmco(MmcoError),
    /// No frame buffer is free for a decoded picture.
    StorePicture,
    /// No frame buffer is free for a picture invented to fill a gap.
    StoreNonExisting,
    /// No short-term reference has this picture number.
    NoShortTerm(i64),
    /// No long-term reference has this long-term picture number.
    NoLongTerm(u32),
    /// There is no list modification of this number.
    ModificationIdc(u8),
    /// The driver exposes no H.264 decode entry point.
    NoDecodeEntrypoint,
    /// The driver has no NV12 image format.
    NoNv12Format,
    /// A mapped image does not hold the rows it should.
    PlaneTooSmall { offset: usize, pitch: usize, row_bytes: usize, rows: usize },
    /// A VA-API call failed.
    Device(VaFailure),
}

} // verus!
