//! The BMP file header and the versioned DIB header family.
//!
//! The first 14 bytes are the file header (`"BM"`, file size, reserved
//! bytes, pixel-data offset); the 4 bytes after it give the size of the
//! DIB header, which picks one of six header revisions. Each revision
//! adds fields on top of the previous one, so presence of the optional
//! sub-records is monotonic in the revision.

use vstd::prelude::*;

use crate::le::{
    copy_range, i32_from_le, le16_spec, le32_signed_spec, le32_spec, lemma_le16_bounds,
    lemma_le32_bounds, u16_from_le, u32_from_le,
};
use crate::types::Error;

verus! {

/// Fields present from the 40-byte revision on.
#[derive(Clone, Copy, Debug, PartialEq, Eq, Structural)]
pub struct DibV1 {
    pub compression: u32,
    pub idat_size: usize,
    pub pixels_per_meter_x: usize,
    pub pixels_per_meter_y: usize,
    pub palette_length: usize,
    pub important_color_count: u32,
}

/// Channel bitmasks, present from the 52-byte revision on.
#[derive(Clone, Copy, Debug, PartialEq, Eq, Structural)]
pub struct DibV2 {
    pub red_mask: u32,
    pub green_mask: u32,
    pub blue_mask: u32,
}

/// Color-space fields, present from the 108-byte revision on.
#[derive(Clone, Debug)]
pub struct DibV4 {
    pub color_space_type: u32,
    pub color_space_endpoints: Vec<u8>,
    pub gamma_red: u32,
    pub gamma_green: u32,
    pub gamma_blue: u32,
}

/// ICC-profile fields, present from the 124-byte revision on; parsed but
/// not used by decoding.
#[derive(Clone, Copy, Debug, PartialEq, Eq, Structural)]
pub struct DibV5 {
    pub icc_profile_data: u32,
    pub icc_profile_size: u32,
}

/// Mathematical model of the color-space fields.
pub ghost struct DibV4G {
    pub color_space_type: u32,
    pub color_space_endpoints: Seq<u8>,
    pub gamma_red: u32,
    pub gamma_green: u32,
    pub gamma_blue: u32,
}

impl View for DibV4 {
    type V = DibV4G;

    open spec fn view(&self) -> DibV4G {
        DibV4G {
            color_space_type: self.color_space_type,
            color_space_endpoints: self.color_space_endpoints@,
            gamma_red: self.gamma_red,
            gamma_green: self.gamma_green,
            gamma_blue: self.gamma_blue,
        }
    }
}

/// Mathematical model of a parsed header.
pub ghost struct HeaderG {
    pub file_size: u32,
    pub pixel_data_offset: int,
    pub dib_size: int,
    pub width: int,
    pub height: int,
    pub planes: u16,
    pub bits_pp: int,
    pub dib_v1: Option<DibV1>,
    pub dib_v2: Option<DibV2>,
    pub dib_v3_alpha_mask: Option<u32>,
    pub dib_v4: Option<DibV4G>,
    pub dib_v5: Option<DibV5>,
}

/// A parsed BMP header: the fixed fields, the geometry, and one optional
/// sub-record per header revision above the first.
#[derive(Clone, Debug)]
pub struct BmpHeader {
    pub file_size: u32,
    pub pixel_data_offset: usize,
    pub dib_size: usize,
    pub width: isize,
    pub height: isize,
    pub planes: u16,
    pub bits_pp: usize,
    pub dib_v1: Option<DibV1>,
    pub dib_v2: Option<DibV2>,
    pub dib_v3_alpha_mask: Option<u32>,
    pub dib_v4: Option<DibV4>,
    pub dib_v5: Option<DibV5>,
}

impl View for BmpHeader {
    type V = HeaderG;

    open spec fn view(&self) -> HeaderG {
        HeaderG {
            file_size: self.file_size,
            pixel_data_offset: self.pixel_data_offset as int,
            dib_size: self.dib_size as int,
            width: self.width as int,
            height: self.height as int,
            planes: self.planes,
            bits_pp: self.bits_pp as int,
            dib_v1: self.dib_v1,
            dib_v2: self.dib_v2,
            dib_v3_alpha_mask: self.dib_v3_alpha_mask,
            dib_v4: match self.dib_v4 {
                Some(ref v4) => Some(v4@),
                None => None,
            },
            dib_v5: self.dib_v5,
        }
    }
}

/// The six DIB header sizes the codec knows.
pub open spec fn valid_dib_size(n: int) -> bool {
    n == 12 || n == 40 || n == 52 || n == 56 || n == 108 || n == 124
}

/// The revision ordinal of a known DIB header size.
pub open spec fn dib_version(n: int) -> int
    recommends
        valid_dib_size(n),
{
    if n == 12 {
        0
    } else if n == 40 {
        1
    } else if n == 52 {
        2
    } else if n == 56 {
        3
    } else if n == 108 {
        4
    } else {
        5
    }
}

/// The header denoted by a buffer whose magic and DIB size have been
/// checked and that holds at least `14 + dib_size` bytes. Offsets into
/// `dib` are relative to the byte after the DIB size field. The legacy
/// 12-byte revision stores the geometry in 16-bit fields; later revisions
/// use 32-bit signed width and height.
pub open spec fn header_fields(d: Seq<u8>, dib_size: int) -> HeaderG
    recommends
        valid_dib_size(dib_size),
        d.len() >= 14 + dib_size,
{
    let v = dib_version(dib_size);
    let dib = d.subrange(18, 14 + dib_size);
    HeaderG {
        file_size: le32_spec(d.subrange(2, 6)) as u32,
        pixel_data_offset: le32_spec(d.subrange(10, 14)),
        dib_size: dib_size,
        width: if v == 0 {
            le16_spec(dib.subrange(0, 2))
        } else {
            le32_signed_spec(dib.subrange(0, 4))
        },
        height: if v == 0 {
            le16_spec(dib.subrange(2, 4))
        } else {
            le32_signed_spec(dib.subrange(4, 8))
        },
        planes: if v == 0 {
            le16_spec(dib.subrange(4, 6)) as u16
        } else {
            le16_spec(dib.subrange(8, 10)) as u16
        },
        bits_pp: if v == 0 {
            le16_spec(dib.subrange(6, 8))
        } else {
            le16_spec(dib.subrange(10, 12))
        },
        dib_v1: if v >= 1 {
            Some(
                DibV1 {
                    compression: le32_spec(dib.subrange(12, 16)) as u32,
                    idat_size: le32_spec(dib.subrange(16, 20)) as usize,
                    pixels_per_meter_x: le32_spec(dib.subrange(20, 24)) as usize,
                    pixels_per_meter_y: le32_spec(dib.subrange(24, 28)) as usize,
                    palette_length: le32_spec(dib.subrange(28, 32)) as usize,
                    important_color_count: le32_spec(dib.subrange(32, 36)) as u32,
                },
            )
        } else {
            None
        },
        dib_v2: if v >= 2 {
            Some(
                DibV2 {
                    red_mask: le32_spec(dib.subrange(36, 40)) as u32,
                    green_mask: le32_spec(dib.subrange(40, 44)) as u32,
                    blue_mask: le32_spec(dib.subrange(44, 48)) as u32,
                },
            )
        } else {
            None
        },
        dib_v3_alpha_mask: if v >= 3 {
            Some(le32_spec(dib.subrange(48, 52)) as u32)
        } else {
            None
        },
        dib_v4: if v >= 4 {
            Some(
                DibV4G {
                    color_space_type: le32_spec(dib.subrange(52, 56)) as u32,
                    color_space_endpoints: dib.subrange(56, 92),
                    gamma_red: le32_spec(dib.subrange(92, 96)) as u32,
                    gamma_green: le32_spec(dib.subrange(96, 100)) as u32,
                    gamma_blue: le32_spec(dib.subrange(100, 104)) as u32,
                },
            )
        } else {
            None
        },
        dib_v5: if v >= 5 {
            Some(
                DibV5 {
                    icc_profile_data: le32_spec(dib.subrange(108, 112)) as u32,
                    icc_profile_size: le32_spec(dib.subrange(112, 116)) as u32,
                },
            )
        } else {
            None
        },
    }
}

/// The header a buffer parses to: truncated input is rejected, then the
/// `"BM"` magic, then membership of the DIB size in the known set, then
/// the rest of the DIB header must be present.
pub open spec fn parse_header_spec(d: Seq<u8>) -> Result<HeaderG, Error> {
    if d.len() < 18 {
        Err(Error::Truncated)
    } else if !(d[0] == 0x42 && d[1] == 0x4d) {
        Err(Error::Format)
    } else {
        let dib_size = le32_spec(d.subrange(14, 18));
        if !valid_dib_size(dib_size) {
            Err(Error::UnsupportedVersion)
        } else if d.len() < 14 + dib_size {
            Err(Error::Truncated)
        } else {
            Ok(header_fields(d, dib_size))
        }
    }
}

/// Ranges the parsed fields are confined to by their widths on disk.
pub proof fn lemma_header_bounds(d: Seq<u8>)
    requires
        parse_header_spec(d) is Ok,
    ensures
        ({
            let h = parse_header_spec(d)->Ok_0;
            &&& valid_dib_size(h.dib_size)
            &&& 0 <= h.pixel_data_offset < 0x1_0000_0000
            &&& -0x8000_0000 <= h.width < 0x8000_0000
            &&& -0x8000_0000 <= h.height < 0x8000_0000
            &&& 0 <= h.bits_pp < 0x1_0000
            &&& (h.width >= 0 || h.dib_size != 12)
            &&& (h.height >= 0 || h.dib_size != 12)
            &&& d.len() >= 14 + h.dib_size
        }),
{
    let dib_size = le32_spec(d.subrange(14, 18));
    let dib = d.subrange(18, 14 + dib_size);
    lemma_le32_bounds(d.subrange(10, 14));
    if dib_version(dib_size) == 0 {
        lemma_le16_bounds(dib.subrange(0, 2));
        lemma_le16_bounds(dib.subrange(2, 4));
        lemma_le16_bounds(dib.subrange(6, 8));
    } else {
        lemma_le32_bounds(dib.subrange(0, 4));
        lemma_le32_bounds(dib.subrange(4, 8));
        lemma_le16_bounds(dib.subrange(10, 12));
    }
}

/// Parses a BMP header out of the front of `d`.
pub fn read_header(d: &[u8]) -> (r: Result<BmpHeader, Error>)
    ensures
        ({
            let s = parse_header_spec(d@);
            match r {
                Ok(h) => s == Ok::<HeaderG, Error>(h@),
                Err(e) => s == Err::<HeaderG, Error>(e),
            }
        }),
{
    let n = d.len();
    if n < 18 {
        return Err(Error::Truncated);
    }
    if !(d[0] == 0x42 && d[1] == 0x4d) {
        return Err(Error::Format);
    }
    let dib_size32 = u32_from_le(d, 14);
    let dib_version: u32 = match dib_size32 {
        12 => 0,
        40 => 1,
        52 => 2,
        56 => 3,
        108 => 4,
        124 => 5,
        _ => {
            return Err(Error::UnsupportedVersion);
        },
    };
    let dib_size = dib_size32 as usize;
    if n < 14 + dib_size {
        return Err(Error::Truncated);
    }
    let ghost dib = d@.subrange(18, 14 + dib_size);
    proof {
        assert forall|a: int, b: int| 0 <= a <= b <= dib.len() implies dib.subrange(a, b)
            =~= d@.subrange(18 + a, 18 + b) by {
        }
    }
    let (width, height, planes, bits_pp): (isize, isize, u16, usize) = if dib_version == 0 {
        (
            u16_from_le(d, 18) as isize,
            u16_from_le(d, 20) as isize,
            u16_from_le(d, 22),
            u16_from_le(d, 24) as usize,
        )
    } else {
        (
            i32_from_le(d, 18) as isize,
            i32_from_le(d, 22) as isize,
            u16_from_le(d, 26),
            u16_from_le(d, 28) as usize,
        )
    };
    let hdr = BmpHeader {
        file_size: u32_from_le(d, 2),
        pixel_data_offset: u32_from_le(d, 10) as usize,
        dib_size,
        width,
        height,
        planes,
        bits_pp,
        dib_v1: if dib_version >= 1 {
            Some(
                DibV1 {
                    compression: u32_from_le(d, 30),
                    idat_size: u32_from_le(d, 34) as usize,
                    pixels_per_meter_x: u32_from_le(d, 38) as usize,
                    pixels_per_meter_y: u32_from_le(d, 42) as usize,
                    palette_length: u32_from_le(d, 46) as usize,
                    important_color_count: u32_from_le(d, 50),
                },
            )
        } else {
            None
        },
        dib_v2: if dib_version >= 2 {
            Some(
                DibV2 {
                    red_mask: u32_from_le(d, 54),
                    green_mask: u32_from_le(d, 58),
                    blue_mask: u32_from_le(d, 62),
                },
            )
        } else {
            None
        },
        dib_v3_alpha_mask: if dib_version >= 3 {
            Some(u32_from_le(d, 66))
        } else {
            None
        },
        dib_v4: if dib_version >= 4 {
            Some(
                DibV4 {
                    color_space_type: u32_from_le(d, 70),
                    color_space_endpoints: copy_range(d, 74, 36),
                    gamma_red: u32_from_le(d, 110),
                    gamma_green: u32_from_le(d, 114),
                    gamma_blue: u32_from_le(d, 118),
                },
            )
        } else {
            None
        },
        dib_v5: if dib_version >= 5 {
            Some(
                DibV5 {
                    icc_profile_data: u32_from_le(d, 126),
                    icc_profile_size: u32_from_le(d, 130),
                },
            )
        } else {
            None
        },
    };
    proof {
        assert(hdr@ == header_fields(d@, dib_size as int));
    }
    Ok(hdr)
}

} // verus!
