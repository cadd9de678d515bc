//! The YUV color space an encoded stream is labelled with.
//!
//! One value serves two jobs that have to agree: the encoder writes it into the
//! SPS video usability information, and the post-processor uses it as the
//! target of every conversion it runs for the encoder. Pixels the encoder
//! converts therefore match their label. Pixels it takes as they are (a CPU
//! upload, a YUV buffer with no color of its own) are labelled, not converted.

use vstd::prelude::*;

use crate::va::{
    VA_PROC_COLOR_STANDARD_BT601, VA_PROC_COLOR_STANDARD_BT709, VA_SOURCE_RANGE_FULL,
    VA_SOURCE_RANGE_REDUCED,
};

verus! {

/// The matrix that maps RGB to Y'CbCr.
#[derive(Clone, Copy, Debug, PartialEq, Eq, Structural)]
pub enum Matrix {
    /// ITU-R BT.601, the standard-definition matrix.
    Bt601,
    /// ITU-R BT.709, the high-definition matrix.
    Bt709,
}

/// A YUV color space: the matrix and whether samples use the full 8-bit range.
#[derive(Clone, Copy, Debug, PartialEq, Eq, Structural)]
pub struct Color {
    /// The RGB to Y'CbCr matrix.
    pub matrix: Matrix,
    /// Whether luma spans 0..=255 rather than 16..=235.
    pub full_range: bool,
}

impl Color {
    /// Returns BT.601 in limited range.
    #[verifier::allow_in_spec]
    pub fn bt601() -> Color
        returns
            (Color { matrix: Matrix::Bt601, full_range: false }),
    {
        Color { matrix: Matrix::Bt601, full_range: false }
    }

    /// Returns BT.709 in limited range.
    #[verifier::allow_in_spec]
    pub fn bt709() -> Color
        returns
            (Color { matrix: Matrix::Bt709, full_range: false }),
    {
        Color { matrix: Matrix::Bt709, full_range: false }
    }

    /// Returns the conventional space for a stream of `height` lines.
    ///
    /// Standard definition (576 lines or fewer) is BT.601, anything taller
    /// BT.709, both in limited range. That is the guess most players make for
    /// an unlabelled stream, though not all of them (ffmpeg's scaler takes
    /// BT.601 at every size), which is why the stream is labelled.
    pub fn infer(height: u32) -> (c: Color)
        ensures
            c == if height <= 576 {
                Color::bt601()
            } else {
                Color::bt709()
            },
            c.matrix == Matrix::Bt601 <==> height <= 576,
            c.matrix == Matrix::Bt709 <==> height > 576,
            !c.full_range,
    {
        if height <= 576 {
            Color::bt601()
        } else {
            Color::bt709()
        }
    }

    /// The H.264 VUI `(colour_primaries, transfer_characteristics, matrix_coefficients)`.
    pub open spec fn spec_vui(self) -> (u8, u8, u8) {
        match self.matrix {
            Matrix::Bt601 => (6, 1, 6),
            Matrix::Bt709 => (1, 1, 1),
        }
    }

    /// Returns the H.264 VUI `(colour_primaries, transfer_characteristics, matrix_coefficients)`.
    ///
    /// BT.601 goes out as SMPTE 170M primaries and matrix (code point 6) with the
    /// BT.709 transfer curve (1), since the two standards differ in primaries
    /// and matrix but not in gamma.
    pub fn vui(self) -> (codes: (u8, u8, u8))
        ensures
            codes == self.spec_vui(),
            self.matrix == Matrix::Bt601 ==> codes.0 == 6 && codes.2 == 6,
            self.matrix == Matrix::Bt709 ==> codes.0 == 1 && codes.2 == 1,
            codes.1 == 1,
    {
        match self.matrix {
            Matrix::Bt601 => (6, 1, 6),
            Matrix::Bt709 => (1, 1, 1),
        }
    }

    /// The `VAProcColorStandardType` of the matrix.
    pub open spec fn spec_va_standard(self) -> u8 {
        match self.matrix {
            Matrix::Bt601 => VA_PROC_COLOR_STANDARD_BT601,
            Matrix::Bt709 => VA_PROC_COLOR_STANDARD_BT709,
        }
    }

    /// Returns the `VAProcColorStandardType` of the matrix.
    pub fn va_standard(self) -> (code: u8)
        ensures
            code == self.spec_va_standard(),
            code == VA_PROC_COLOR_STANDARD_BT601 <==> self.matrix == Matrix::Bt601,
            code == VA_PROC_COLOR_STANDARD_BT709 <==> self.matrix == Matrix::Bt709,
    {
        match self.matrix {
            Matrix::Bt601 => VA_PROC_COLOR_STANDARD_BT601,
            Matrix::Bt709 => VA_PROC_COLOR_STANDARD_BT709,
        }
    }

    /// The `VA_SOURCE_RANGE_*` of the range.
    pub open spec fn spec_va_range(self) -> u8 {
        if self.full_range {
            VA_SOURCE_RANGE_FULL
        } else {
            VA_SOURCE_RANGE_REDUCED
        }
    }

    /// Returns the `VA_SOURCE_RANGE_*` of the range.
    pub fn va_range(self) -> (code: u8)
        ensures
            code == self.spec_va_range(),
            code == VA_SOURCE_RANGE_FULL <==> self.full_range,
            code == VA_SOURCE_RANGE_REDUCED <==> !self.full_range,
    {
        if self.full_range {
            VA_SOURCE_RANGE_FULL
        } else {
            VA_SOURCE_RANGE_REDUCED
        }
    }
}

////// Laws

/// The label and the conversion target agree: two spaces go into a stream under the
/// same VUI codes exactly where the post-processor converts to the same standard,
/// and standard and range together tell every two spaces apart.
pub proof fn labels_match_conversions(a: Color, b: Color)
    ensures
        a.spec_vui() == b.spec_vui() <==> a.spec_va_standard() == b.spec_va_standard(),
        a.spec_va_standard() == b.spec_va_standard() && a.spec_va_range() == b.spec_va_range()
            <==> a == b,
{
}

/// The label names the standard: BT.709 goes out as code point 1 throughout, BT.601 as
/// SMPTE 170M in primaries and matrix, and the transfer curve, which the two share, always
/// as 1. The range has no part in it.
pub proof fn labels_name_the_standard(c: Color, full_range: bool)
    ensures
        c.spec_vui().0 == c.spec_vui().2,
        c.spec_vui().1 == 1,
        c.spec_vui().2 == 1 <==> c.matrix is Bt709,
        c.spec_vui().2 == 6 <==> c.matrix is Bt601,
        c.spec_va_standard() == 2 <==> c.matrix is Bt709,
        c.spec_va_standard() == 1 <==> c.matrix is Bt601,
        c.spec_va_range() == 2 <==> c.full_range,
        c.spec_va_range() == 1 <==> !c.full_range,
        (Color { full_range, ..c }).spec_vui() == c.spec_vui(),
        (Color { full_range, ..c }).spec_va_standard() == c.spec_va_standard(),
{
}

} // verus!
