//! H.264 as the decoder sees it: parsed syntax, pictures, and the decoded
//! picture buffer.

pub mod dpb;
pub mod picture;
pub mod syntax;
