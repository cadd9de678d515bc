//! The decision-making core of a VA-API H.264 decoder and video post-processor.
//!
//! Everything here works on plain values. The calls into libva, and the reading
//! of the bitstream, happen outside: the machines in [`decode`] and [`vpp`] say
//! which call they need next and take its outcome back.

pub mod color;
pub mod decode;
pub mod dmabuf;
pub mod h264;
pub mod surface;
pub mod va;
pub mod vpp;
