//! The H.264 decoder.
//!
//! Feed [`Decoder::decode`] one access unit at a time. The picture it carries is
//! submitted and completed before the call is through, rather than when the next
//! unit's first slice arrives, so the hardware is never left holding a
//! half-submitted picture between calls. Output still trails, and by more than
//! the stream's reorder depth: C.4.5.3 bumps the DPB only when a new picture
//! needs the slot, so the delay follows the sequence's reference and reorder
//! limits instead. A stream coded with three reference frames trails by three
//! pictures whether or not it uses B-frames. [`Frame`] therefore carries the
//! timestamp of the access unit it was coded in rather than the one last pushed,
//! and [`Decoder::flush`] releases what is left at the end of a stream, which is
//! the whole tail rather than a single picture.
//!
//! Progressive 8-bit 4:2:0 only: a sequence that is interlaced, deeper than 8
//! bits, or not 4:2:0 is rejected rather than decoded wrongly.
//!
//! The clause numbers throughout are those of ITU-T H.264.

pub mod decoder;
pub mod error;
pub mod laws;
pub mod lists;
pub mod machine;
pub mod marking;
pub mod nv12;
pub mod opening;
pub mod params;
pub mod poc;
pub mod sequence;
pub mod state;

pub use crate::decode::decoder::Decoder;
pub use crate::decode::error::DecodeError;
pub use crate::decode::machine::ExportedFrame;
pub use crate::decode::nv12::Frame;
pub use crate::decode::opening::Config;
