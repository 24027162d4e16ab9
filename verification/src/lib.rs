//! A verified codec for the BMP raster image container.
//!
//! The library parses the versioned BMP header family, reconstructs
//! pixel data from paletted, bitmasked and plain direct-color encodings,
//! converts rows between a small set of canonical pixel layouts, and
//! writes minimal 24-bit bottom-up BMP files. Every function works on
//! in-memory byte buffers and carries a contract that pins its result
//! down; stream I/O stays outside the library.

pub mod types;
pub mod le;
pub mod convert;
pub mod header;
pub mod decode;
pub mod encode;
pub mod laws;

pub use types::{ColFmt, ColType, Error, Image, Info};
pub use header::{read_header, BmpHeader, DibV1, DibV2, DibV4, DibV5};
pub use decode::{detect, read, read_info};
