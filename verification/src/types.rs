//! Core value types of the codec: pixel formats, color types, the probe
//! record, the decoded image, and the error kinds.

use vstd::prelude::*;

verus! {

/// A canonical in-memory pixel layout. `Auto` asks the codec to choose.
#[derive(Clone, Copy, Debug, PartialEq, Eq, Structural)]
pub enum ColFmt {
    Auto,
    Y,
    YA,
    RGB,
    RGBA,
    BGR,
    BGRA,
}

/// A coarse color classification, as reported by the header probe and
/// requested from the encoder. `Auto` asks the codec to choose.
#[derive(Clone, Copy, Debug, PartialEq, Eq, Structural)]
pub enum ColType {
    Auto,
    Gray,
    GrayAlpha,
    Color,
    ColorAlpha,
}

/// The reason a decode or encode call failed.
#[derive(Clone, Copy, Debug, PartialEq, Eq, Structural)]
pub enum Error {
    /// Malformed data: bad magic, bad geometry, bad palette index,
    /// palette too large, incompatible field combination, or a buffer
    /// length that does not match the stated dimensions.
    Format,
    /// The DIB header size names no known header revision.
    UnsupportedVersion,
    /// A recognized but unsupported feature: compression other than
    /// plain RGB or byte-aligned bitfields, plane count other than one,
    /// an unsupported bit depth, or a non-byte-aligned channel mask.
    UnsupportedFeature,
    /// A size exceeds what the format or the machine can represent.
    Capacity,
    /// The input buffer ends before the structure it should hold.
    Truncated,
}

/// Width, height and color classification of an image, from a header-only
/// probe.
#[derive(Clone, Copy, Debug, PartialEq, Eq, Structural)]
pub struct Info {
    pub w: usize,
    pub h: usize,
    pub ct: ColType,
}

/// Mathematical model of a decoded image.
pub ghost struct ImageG {
    pub w: int,
    pub h: int,
    pub fmt: ColFmt,
    pub buf: Seq<u8>,
}

/// A decoded image: dimensions, pixel layout, and the pixel bytes, of
/// length `w * h * fmt.bytes_pp()`.
#[derive(Clone, Debug)]
pub struct Image {
    pub w: usize,
    pub h: usize,
    pub fmt: ColFmt,
    pub buf: Vec<u8>,
}

impl View for Image {
    type V = ImageG;

    open spec fn view(&self) -> ImageG {
        ImageG { w: self.w as int, h: self.h as int, fmt: self.fmt, buf: self.buf@ }
    }
}

impl ColFmt {
    /// Bytes per pixel of the layout; `Auto` has none and counts as zero.
    pub open spec fn bytes_pp_spec(self) -> int {
        match self {
            ColFmt::Auto => 0,
            ColFmt::Y => 1,
            ColFmt::YA => 2,
            ColFmt::RGB => 3,
            ColFmt::RGBA => 4,
            ColFmt::BGR => 3,
            ColFmt::BGRA => 4,
        }
    }

    /// Bytes per pixel of the layout; `Auto` has none and counts as zero.
    pub fn bytes_pp(self) -> (r: usize)
        ensures
            r == self.bytes_pp_spec(),
    {
        match self {
            ColFmt::Auto => 0,
            ColFmt::Y => 1,
            ColFmt::YA => 2,
            ColFmt::RGB => 3,
            ColFmt::RGBA => 4,
            ColFmt::BGR => 3,
            ColFmt::BGRA => 4,
        }
    }
}

} // verus!
