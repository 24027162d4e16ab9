//! The decode pipeline: header probe, non-consuming detection, pixel
//! layout resolution, and full scanline decoding.

use vstd::prelude::*;

use crate::convert::{convert_row, convert_row_spec};
use crate::header::{
    lemma_header_bounds, parse_header_spec, read_header, valid_dib_size, BmpHeader, HeaderG,
};
use crate::le::{copy_range, le32_spec, u32_from_le};
use crate::types::{ColFmt, ColType, Error, Image, ImageG, Info};

verus! {

/// Magnitude of an integer.
pub open spec fn abs_spec(x: int) -> int {
    if x < 0 {
        -x
    } else {
        x
    }
}

/// The color classification a header probes to: alpha is reported only
/// for 32-bit pixels under a nonzero alpha mask of the third revision.
pub open spec fn color_type_spec(h: HeaderG) -> ColType {
    if h.bits_pp == 32 && (h.dib_v3_alpha_mask matches Some(m) && m != 0) {
        ColType::ColorAlpha
    } else {
        ColType::Color
    }
}

/// What a header-only probe of `d` reports: the geometry magnitudes and
/// the color classification, or the parse error.
pub open spec fn info_spec(d: Seq<u8>) -> Result<Info, Error> {
    match parse_header_spec(d) {
        Ok(h) => Ok(
            Info {
                w: abs_spec(h.width) as usize,
                h: abs_spec(h.height) as usize,
                ct: color_type_spec(h),
            },
        ),
        Err(e) => Err(e),
    }
}

/// Whether the front of `d` looks like a BMP stream: the `"BM"` magic
/// followed, at the DIB position, by one of the known DIB header sizes.
pub open spec fn detect_spec(d: Seq<u8>) -> bool {
    d.len() >= 18 && d[0] == 0x42 && d[1] == 0x4d && valid_dib_size(le32_spec(d.subrange(14, 18)))
}

/// Returns width, height and color type of the image.
pub fn read_info(d: &[u8]) -> (r: Result<Info, Error>)
    ensures
        ({
            let s = info_spec(d@);
            match r {
                Ok(info) => s == Ok::<Info, Error>(info),
                Err(e) => s == Err::<Info, Error>(e),
            }
        }),
{
    let hdr = match read_header(d) {
        Ok(h) => h,
        Err(e) => {
            return Err(e);
        },
    };
    proof {
        lemma_header_bounds(d@);
        assert(parse_header_spec(d@)->Ok_0 == hdr@);
        assert(-0x8000_0000 <= (hdr.width as int) && (hdr.width as int) < 0x8000_0000);
        assert(-0x8000_0000 <= (hdr.height as int) && (hdr.height as int) < 0x8000_0000);
    }
    let w64: i64 = hdr.width as i64;
    let h64: i64 = hdr.height as i64;
    let w = (if w64 < 0 {
        -w64
    } else {
        w64
    }) as usize;
    let h = (if h64 < 0 {
        -h64
    } else {
        h64
    }) as usize;
    let ct = match hdr.dib_v3_alpha_mask {
        Some(mask) if mask != 0 && hdr.bits_pp == 32 => ColType::ColorAlpha,
        _ => ColType::Color,
    };
    Ok(Info { w, h, ct })
}

/// Checks whether `d` starts like a BMP stream, reading nothing past the
/// first 18 bytes and leaving the buffer untouched.
pub fn detect(d: &[u8]) -> (r: bool)
    ensures
        r == detect_spec(d@),
{
    if d.len() < 18 {
        return false;
    }
    if !(d[0] == 0x42 && d[1] == 0x4d) {
        return false;
    }
    let dib_size = u32_from_le(d, 14);
    dib_size == 12 || dib_size == 40 || dib_size == 52 || dib_size == 56 || dib_size == 108
        || dib_size == 124
}

/// Mathematical model of a resolved pixel layout: how many bytes one
/// on-disk pixel takes, whether they index a palette, and which byte of
/// a direct-color pixel holds each channel.
pub ghost struct LayoutG {
    pub bytes_pp: int,
    pub paletted: bool,
    pub palette_length: int,
    pub pe_fmt: ColFmt,
    pub redi: int,
    pub greeni: int,
    pub bluei: int,
    pub alpha_masked: bool,
    pub alphai: int,
}

/// The byte index a channel bitmask selects: only the four byte-aligned
/// full-byte masks are supported.
pub open spec fn mask_index(mask: u32) -> Result<int, Error> {
    if mask == 0xff00_0000 {
        Ok(3)
    } else if mask == 0x00ff_0000 {
        Ok(2)
    } else if mask == 0x0000_ff00 {
        Ok(1)
    } else if mask == 0x0000_00ff {
        Ok(0)
    } else {
        Err(Error::UnsupportedFeature)
    }
}

/// Channel indices and alpha resolution on top of the basic layout.
pub open spec fn finish_layout_spec(
    h: HeaderG,
    bytes_pp: int,
    paletted: bool,
    palette_length: int,
    rgb_masked: bool,
    pe_fmt: ColFmt,
) -> Result<LayoutG, Error> {
    let idx = if rgb_masked {
        match h.dib_v2 {
            Some(dv2) => {
                match (mask_index(dv2.red_mask), mask_index(dv2.green_mask), mask_index(
                    dv2.blue_mask,
                )) {
                    (Ok(r), Ok(g), Ok(b)) => Ok((r, g, b)),
                    _ => Err(Error::UnsupportedFeature),
                }
            },
            None => Err(Error::Format),
        }
    } else {
        Ok((2int, 1int, 0int))
    };
    match idx {
        Err(e) => Err(e),
        Ok((redi, greeni, bluei)) => {
            if !paletted && (redi >= bytes_pp || greeni >= bytes_pp || bluei >= bytes_pp) {
                Err(Error::UnsupportedFeature)
            } else {
                let am = bytes_pp == 4 && (h.dib_v3_alpha_mask matches Some(m) && m != 0);
                let ai = if am {
                    mask_index(h.dib_v3_alpha_mask->Some_0)
                } else {
                    Ok(0int)
                };
                match ai {
                    Err(e) => Err(e),
                    Ok(alphai) => Ok(
                        LayoutG {
                            bytes_pp,
                            paletted,
                            palette_length,
                            pe_fmt,
                            redi,
                            greeni,
                            bluei,
                            alpha_masked: am,
                            alphai,
                        },
                    ),
                }
            }
        },
    }
}

/// The pixel layout a header resolves to, or the error rejecting it.
/// A legacy header without the first sub-record means a fixed 256-entry
/// paletted layout with 3-byte palette entries; later revisions carry
/// the palette size and compression in the first sub-record.
pub open spec fn resolve_layout_spec(h: HeaderG) -> Result<LayoutG, Error> {
    match h.dib_v1 {
        Some(dv1) => {
            if dv1.palette_length > 256 {
                Err(Error::Format)
            } else if h.bits_pp <= 8 && (dv1.palette_length == 0 || dv1.compression != 0) {
                Err(Error::Format)
            } else if dv1.compression != 0 && dv1.compression != 3 {
                Err(Error::UnsupportedFeature)
            } else if h.bits_pp == 8 {
                finish_layout_spec(
                    h,
                    1,
                    true,
                    dv1.palette_length as int,
                    dv1.compression == 3,
                    ColFmt::BGRA,
                )
            } else if h.bits_pp == 24 {
                finish_layout_spec(
                    h,
                    3,
                    false,
                    dv1.palette_length as int,
                    dv1.compression == 3,
                    ColFmt::BGRA,
                )
            } else if h.bits_pp == 32 {
                finish_layout_spec(
                    h,
                    4,
                    false,
                    dv1.palette_length as int,
                    dv1.compression == 3,
                    ColFmt::BGRA,
                )
            } else {
                Err(Error::UnsupportedFeature)
            }
        },
        None => finish_layout_spec(h, 1, true, 256, false, ColFmt::BGR),
    }
}

/// The output layout a request resolves to: an explicit request is taken
/// as it is; automatic selection yields four channels exactly when an
/// alpha mask was resolved.
pub open spec fn tgt_fmt_spec(req: ColFmt, alpha_masked: bool) -> ColFmt {
    if req == ColFmt::Auto {
        if alpha_masked {
            ColFmt::RGBA
        } else {
            ColFmt::RGB
        }
    } else {
        req
    }
}

/// Bytes appended to a row of `linesize` bytes so it fills a multiple of
/// four bytes on disk.
pub open spec fn row_pad_spec(linesize: int) -> int
    recommends
        linesize >= 1,
{
    3 - ((linesize - 1) % 4)
}

/// A paletted source row expanded through the palette: each source byte
/// indexes an entry of `ps` bytes, and a 4-byte entry's alpha position is
/// overwritten as fully opaque.
pub open spec fn depal_row_spec(src: Seq<u8>, pal: Seq<u8>, ps: int) -> Seq<u8>
    recommends
        ps == 3 || ps == 4,
{
    Seq::new(
        (src.len() * ps) as nat,
        |i: int|
            {
                let k = i / ps;
                let c = i % ps;
                if ps == 4 && c == 3 {
                    255u8
                } else {
                    pal[src[k] * ps + c]
                }
            },
    )
}

/// A direct-color source row rearranged into 4-byte pixels in
/// blue, green, red, alpha order, the alpha byte taken from the pixel
/// only when an alpha mask was resolved and fully opaque otherwise.
pub open spec fn bgra_row_spec(
    src: Seq<u8>,
    s: int,
    redi: int,
    greeni: int,
    bluei: int,
    alpha_masked: bool,
    alphai: int,
) -> Seq<u8>
    recommends
        s == 3 || s == 4,
        0 <= redi < s && 0 <= greeni < s && 0 <= bluei < s,
        alpha_masked ==> 0 <= alphai < s,
{
    Seq::new(
        ((src.len() as int / s) * 4) as nat,
        |i: int|
            {
                let k = i / 4;
                let c = i % 4;
                if c == 0 {
                    src[k * s + bluei]
                } else if c == 1 {
                    src[k * s + greeni]
                } else if c == 2 {
                    src[k * s + redi]
                } else if alpha_masked {
                    src[k * s + alphai]
                } else {
                    255u8
                }
            },
    )
}

/// One decoded output row: the source row at `rstart` expanded (through
/// the palette, or into blue-green-red-alpha order) and then rewritten in
/// the target layout.
pub open spec fn decoded_row_spec(
    d: Seq<u8>,
    pal: Seq<u8>,
    l: LayoutG,
    tgt: ColFmt,
    rstart: int,
    sls: int,
) -> Seq<u8> {
    let src = d.subrange(rstart, rstart + sls);
    if l.paletted {
        convert_row_spec(l.pe_fmt, tgt, depal_row_spec(src, pal, l.pe_fmt.bytes_pp_spec()))
    } else {
        convert_row_spec(
            ColFmt::BGRA,
            tgt,
            bgra_row_spec(src, l.bytes_pp, l.redi, l.greeni, l.bluei, l.alpha_masked, l.alphai),
        )
    }
}

/// The whole decoded pixel buffer: output row `ty` comes from disk row
/// `ty` when rows are stored top-down (negative height) and from disk row
/// `rows - 1 - ty` when they are stored bottom-up.
pub open spec fn decode_buf_spec(
    d: Seq<u8>,
    pal: Seq<u8>,
    l: LayoutG,
    tgt: ColFmt,
    w: int,
    rows: int,
    topdown: bool,
    off: int,
    sls: int,
    pad: int,
) -> Seq<u8> {
    let tls = w * tgt.bytes_pp_spec();
    Seq::new(
        (rows * tls) as nat,
        |i: int|
            {
                let ty = i / tls;
                let sy = if topdown {
                    ty
                } else {
                    rows - 1 - ty
                };
                decoded_row_spec(d, pal, l, tgt, off + sy * (sls + pad), sls)[i % tls]
            },
    )
}

/// Whether every pixel byte of a paletted source names an existing
/// palette entry.
pub open spec fn palette_indices_ok(
    d: Seq<u8>,
    palette_length: int,
    rows: int,
    off: int,
    sls: int,
    pad: int,
) -> bool {
    forall|sy: int, x: int|
        0 <= sy < rows && 0 <= x < sls ==> (#[trigger] d[off + sy * (sls + pad) + x] as int)
            < palette_length
}

/// What decoding the buffer `d` into the requested layout yields, given
/// that its header parsed to `h`: the geometry and plane checks, the
/// resolved layout, the palette read right after the header, and the
/// padded scanlines at the declared pixel-data offset. An output buffer
/// or intermediate row beyond what the machine can address is rejected
/// as a capacity error.
pub open spec fn decode_with_header_spec(h: HeaderG, d: Seq<u8>, req: ColFmt) -> Result<
    ImageG,
    Error,
> {
    if h.width < 1 || h.height == 0 {
        Err(Error::Format)
    } else if h.pixel_data_offset < 14 + h.dib_size || h.pixel_data_offset > 0xffffff {
        Err(Error::Format)
    } else if h.planes != 1 {
        Err(Error::UnsupportedFeature)
    } else {
        match resolve_layout_spec(h) {
            Err(e) => Err(e),
            Ok(l) => {
                let pal_off = 14 + h.dib_size;
                let pal_bytes = l.palette_length * l.pe_fmt.bytes_pp_spec();
                if l.paletted && d.len() < pal_off + pal_bytes {
                    Err(Error::Truncated)
                } else {
                    let pal = if l.paletted {
                        d.subrange(pal_off, pal_off + pal_bytes)
                    } else {
                        Seq::empty()
                    };
                    let tgt = tgt_fmt_spec(req, l.alpha_masked);
                    let w = h.width;
                    let rows = abs_spec(h.height);
                    let topdown = h.height < 0;
                    let sls = w * l.bytes_pp;
                    let pad = row_pad_spec(sls);
                    let off = h.pixel_data_offset;
                    if d.len() < off + rows * (sls + pad) {
                        Err(Error::Truncated)
                    } else if rows * (w * tgt.bytes_pp_spec()) > usize::MAX || w * 4
                        > usize::MAX {
                        Err(Error::Capacity)
                    } else if l.paletted && !palette_indices_ok(
                        d,
                        l.palette_length,
                        rows,
                        off,
                        sls,
                        pad,
                    ) {
                        Err(Error::Format)
                    } else {
                        Ok(
                            ImageG {
                                w,
                                h: rows,
                                fmt: tgt,
                                buf: decode_buf_spec(
                                    d,
                                    pal,
                                    l,
                                    tgt,
                                    w,
                                    rows,
                                    topdown,
                                    off,
                                    sls,
                                    pad,
                                ),
                            },
                        )
                    }
                }
            },
        }
    }
}

/// What decoding the buffer `d` into the requested layout yields.
pub open spec fn decode_spec(d: Seq<u8>, req: ColFmt) -> Result<ImageG, Error> {
    match parse_header_spec(d) {
        Err(e) => Err(e),
        Ok(h) => decode_with_header_spec(h, d, req),
    }
}

/// Resolved pixel layout, in executable form.
pub struct Layout {
    pub bytes_pp: usize,
    pub paletted: bool,
    pub palette_length: usize,
    pub pe_fmt: ColFmt,
    pub redi: usize,
    pub greeni: usize,
    pub bluei: usize,
    pub alpha_masked: bool,
    pub alphai: usize,
}

impl View for Layout {
    type V = LayoutG;

    open spec fn view(&self) -> LayoutG {
        LayoutG {
            bytes_pp: self.bytes_pp as int,
            paletted: self.paletted,
            palette_length: self.palette_length as int,
            pe_fmt: self.pe_fmt,
            redi: self.redi as int,
            greeni: self.greeni as int,
            bluei: self.bluei as int,
            alpha_masked: self.alpha_masked,
            alphai: self.alphai as int,
        }
    }
}

/// The byte index a channel bitmask selects.
fn mask_to_idx(mask: u32) -> (r: Result<usize, Error>)
    ensures
        ({
            let s = mask_index(mask);
            match r {
                Ok(i) => s == Ok::<int, Error>(i as int),
                Err(e) => s == Err::<int, Error>(e),
            }
        }),
{
    match mask {
        0xff00_0000 => Ok(3),
        0x00ff_0000 => Ok(2),
        0x0000_ff00 => Ok(1),
        0x0000_00ff => Ok(0),
        _ => Err(Error::UnsupportedFeature),
    }
}

/// Resolves the concrete pixel layout a header calls for.
fn resolve_layout(hdr: &BmpHeader) -> (r: Result<Layout, Error>)
    ensures
        ({
            let s = resolve_layout_spec(hdr@);
            match r {
                Ok(l) => s == Ok::<LayoutG, Error>(l@),
                Err(e) => s == Err::<LayoutG, Error>(e),
            }
        }),
{
    let (bytes_pp, paletted, palette_length, rgb_masked, pe_fmt): (
        usize,
        bool,
        usize,
        bool,
        ColFmt,
    ) = match hdr.dib_v1 {
        Some(ref dv1) => {
            if dv1.palette_length > 256 {
                return Err(Error::Format);
            }
            if hdr.bits_pp <= 8 && (dv1.palette_length == 0 || dv1.compression != 0) {
                return Err(Error::Format);
            }
            if dv1.compression != 0 && dv1.compression != 3 {
                return Err(Error::UnsupportedFeature);
            }
            let rgb_masked = dv1.compression == 3;
            match hdr.bits_pp {
                8 => (1, true, dv1.palette_length, rgb_masked, ColFmt::BGRA),
                24 => (3, false, dv1.palette_length, rgb_masked, ColFmt::BGRA),
                32 => (4, false, dv1.palette_length, rgb_masked, ColFmt::BGRA),
                _ => {
                    return Err(Error::UnsupportedFeature);
                },
            }
        },
        None => (1, true, 256, false, ColFmt::BGR),
    };
    let (redi, greeni, bluei): (usize, usize, usize) = if rgb_masked {
        match hdr.dib_v2 {
            Some(ref dv2) => {
                let ri = mask_to_idx(dv2.red_mask);
                let gi = mask_to_idx(dv2.green_mask);
                let bi = mask_to_idx(dv2.blue_mask);
                match (ri, gi, bi) {
                    (Ok(r), Ok(g), Ok(b)) => (r, g, b),
                    _ => {
                        return Err(Error::UnsupportedFeature);
                    },
                }
            },
            None => {
                return Err(Error::Format);
            },
        }
    } else {
        (2, 1, 0)
    };
    if !paletted && (redi >= bytes_pp || greeni >= bytes_pp || bluei >= bytes_pp) {
        return Err(Error::UnsupportedFeature);
    }
    let (alpha_masked, alphai): (bool, usize) = match hdr.dib_v3_alpha_mask {
        Some(mask) if bytes_pp == 4 && mask != 0 => {
            match mask_to_idx(mask) {
                Ok(i) => (true, i),
                Err(e) => {
                    return Err(e);
                },
            }
        },
        _ => (false, 0),
    };
    Ok(
        Layout {
            bytes_pp,
            paletted,
            palette_length,
            pe_fmt,
            redi,
            greeni,
            bluei,
            alpha_masked,
            alphai,
        },
    )
}

/// A fresh vector of `n` zero bytes.
fn zero_vec(n: usize) -> (r: Vec<u8>)
    ensures
        r@.len() == n,
{
    let mut r: Vec<u8> = Vec::new();
    let mut k: usize = 0;
    while k < n
        invariant
            k <= n,
            r@.len() == k,
        decreases n - k,
    {
        r.push(0);
        k = k + 1;
    }
    r
}

/// Overwrites `out[at .. at + src.len()]` with `src`, leaving the rest.
fn write_at(out: &mut Vec<u8>, at: usize, src: &Vec<u8>)
    requires
        at + src@.len() <= old(out)@.len(),
    ensures
        final(out)@.len() == old(out)@.len(),
        forall|j: int| 0 <= j < src@.len() ==> final(out)@[at + j] == src@[j],
        forall|j: int|
            0 <= j < old(out)@.len() && !(at <= j < at + src@.len()) ==> final(out)@[j] == old(
                out,
            )@[j],
{
    let m = src.len();
    let outlen = out.len();
    let mut i: usize = 0;
    while i < m
        invariant
            i <= m,
            m == src@.len(),
            at + m <= outlen && outlen == out@.len(),
            out@.len() == old(out)@.len(),
            forall|j: int| 0 <= j < i ==> out@[at + j] == src@[j],
            forall|j: int|
                0 <= j < old(out)@.len() && !(at <= j < at + i) ==> out@[j] == old(out)@[j],
        decreases m - i,
    {
        out.set(at + i, src[i]);
        i = i + 1;
    }
}

/// Expands one paletted source row through the palette, rejecting any
/// index at or past the end of the palette.
fn depal_row(src: &Vec<u8>, pal: &Vec<u8>, ps: usize, entries: usize) -> (r: Result<Vec<u8>, Error>)
    requires
        ps == 3 || ps == 4,
        pal@.len() == entries * ps,
        entries <= 256,
        src@.len() * ps <= usize::MAX,
    ensures
        ({
            match r {
                Ok(line) => (forall|k: int| 0 <= k < src@.len() ==> (src@[k] as int) < entries)
                    && line@ == depal_row_spec(src@, pal@, ps as int),
                Err(e) => e == Error::Format && exists|k: int|
                    0 <= k < src@.len() && (src@[k] as int) >= entries,
            }
        }),
{
    let n = src.len();
    let mut out: Vec<u8> = Vec::new();
    let mut k: usize = 0;
    while k < n
        invariant
            ps == 3 || ps == 4,
            pal@.len() == entries * ps,
            entries <= 256,
            n == src@.len(),
            n * ps <= usize::MAX,
            k <= n,
            out@.len() == k * ps,
            forall|k2: int| 0 <= k2 < k ==> (src@[k2] as int) < entries,
            forall|i: int| 0 <= i < k * ps ==> out@[i] == depal_row_spec(src@, pal@, ps as int)[i],
        decreases n - k,
    {
        proof {
            assert(k * ps + ps <= n * ps && (k + 1) * ps == k * ps + ps) by (nonlinear_arith)
                requires
                    k < n,
                    ps >= 1,
            ;
        }
        let idx = src[k] as usize;
        if idx >= entries {
            return Err(Error::Format);
        }
        let base = idx * ps;
        proof {
            assert(idx * ps + ps <= entries * ps) by (nonlinear_arith)
                requires
                    idx < entries,
                    ps >= 1,
            ;
        }
        out.push(pal[base]);
        out.push(pal[base + 1]);
        out.push(pal[base + 2]);
        if ps == 4 {
            out.push(255);
        }
        proof {
            assert forall|i: int| k * ps <= i < k * ps + ps implies #[trigger] out@[i]
                == depal_row_spec(src@, pal@, ps as int)[i] by {
                let c = i - k * ps;
                vstd::arithmetic::div_mod::lemma_fundamental_div_mod_converse(
                    i,
                    ps as int,
                    k as int,
                    c,
                );
            }
        }
        k = k + 1;
        proof {
            assert forall|i: int| 0 <= i < k * ps implies #[trigger] out@[i] == depal_row_spec(
                src@,
                pal@,
                ps as int,
            )[i] by {
                assert((k - 1) * ps + ps == k * ps) by (nonlinear_arith);
            }
        }
    }
    proof {
        assert(out@ =~= depal_row_spec(src@, pal@, ps as int));
    }
    Ok(out)
}

/// Rearranges one direct-color source row into 4-byte pixels in
/// blue, green, red, alpha order.
fn bgra_row(
    src: &Vec<u8>,
    s: usize,
    redi: usize,
    greeni: usize,
    bluei: usize,
    alpha_masked: bool,
    alphai: usize,
) -> (line: Vec<u8>)
    requires
        s == 3 || s == 4,
        redi < s && greeni < s && bluei < s,
        alpha_masked ==> alphai < s,
        src@.len() as int % s as int == 0,
        (src@.len() as int / s as int) * 4 <= usize::MAX,
    ensures
        line@ == bgra_row_spec(
            src@,
            s as int,
            redi as int,
            greeni as int,
            bluei as int,
            alpha_masked,
            alphai as int,
        ),
{
    let ghost gspec = bgra_row_spec(
        src@,
        s as int,
        redi as int,
        greeni as int,
        bluei as int,
        alpha_masked,
        alphai as int,
    );
    let len = src.len();
    let n = len / s;
    proof {
        vstd::arithmetic::div_mod::lemma_fundamental_div_mod(len as int, s as int);
    }
    let mut out: Vec<u8> = Vec::new();
    let mut k: usize = 0;
    while k < n
        invariant
            s == 3 || s == 4,
            redi < s && greeni < s && bluei < s,
            alpha_masked ==> alphai < s,
            len == src@.len(),
            n == len as int / s as int,
            n * s == len,
            n * 4 <= usize::MAX,
            k <= n,
            out@.len() == k * 4,
            gspec == bgra_row_spec(
                src@,
                s as int,
                redi as int,
                greeni as int,
                bluei as int,
                alpha_masked,
                alphai as int,
            ),
            forall|i: int| 0 <= i < k * 4 ==> out@[i] == gspec[i],
        decreases n - k,
    {
        proof {
            assert(k * s + s <= n * s && (k + 1) * 4 == k * 4 + 4 && (k + 1) * 4 <= n * 4)
                by (nonlinear_arith)
                requires
                    k < n,
                    s >= 1,
            ;
        }
        let base = k * s;
        out.push(src[base + bluei]);
        out.push(src[base + greeni]);
        out.push(src[base + redi]);
        if alpha_masked {
            out.push(src[base + alphai]);
        } else {
            out.push(255);
        }
        proof {
            assert forall|i: int| k * 4 <= i < k * 4 + 4 implies #[trigger] out@[i] == gspec[i] by {
                let c = i - k * 4;
                vstd::arithmetic::div_mod::lemma_fundamental_div_mod_converse(i, 4, k as int, c);
            }
        }
        k = k + 1;
        proof {
            assert forall|i: int| 0 <= i < k * 4 implies #[trigger] out@[i] == gspec[i] by {
                assert((k - 1) * 4 + 4 == k * 4) by (nonlinear_arith);
            }
        }
    }
    proof {
        assert(out@ =~= gspec);
    }
    out
}

/// For an index of a row-major buffer, the row and column it falls in.
pub proof fn lemma_buf_index(i: int, tls: int, rows: int)
    requires
        tls > 0,
        rows >= 0,
        0 <= i < rows * tls,
    ensures
        0 <= i / tls < rows,
        0 <= i % tls < tls,
        i == (i / tls) * tls + (i % tls),
{
    vstd::arithmetic::div_mod::lemma_fundamental_div_mod(i, tls);
    assert((i / tls) * tls == tls * (i / tls)) by (nonlinear_arith);
    if i / tls >= rows {
        assert(i >= rows * tls) by (nonlinear_arith)
            requires
                i / tls >= rows,
                tls > 0,
                i == (i / tls) * tls + (i % tls),
                i % tls >= 0,
        ;
    }
}

/// Two distinct rows of a row-major buffer do not overlap.
proof fn lemma_rows_disjoint(ty: int, ty2: int, tls: int, j: int)
    requires
        tls > 0,
        0 <= j < tls,
        0 <= ty,
        0 <= ty2,
        ty != ty2,
    ensures
        ty2 * tls + j < ty * tls || ty2 * tls + j >= ty * tls + tls,
{
    if ty2 < ty {
        assert(ty2 * tls + tls <= ty * tls) by (nonlinear_arith)
            requires
                ty2 < ty,
                tls > 0,
        ;
    } else {
        assert(ty * tls + tls <= ty2 * tls) by (nonlinear_arith)
            requires
                ty < ty2,
                tls > 0,
        ;
    }
}

/// Shape facts every resolved layout satisfies.
pub proof fn lemma_layout_bounds(h: HeaderG)
    requires
        resolve_layout_spec(h) is Ok,
    ensures
        ({
            let l = resolve_layout_spec(h)->Ok_0;
            &&& (l.bytes_pp == 1 || l.bytes_pp == 3 || l.bytes_pp == 4)
            &&& (l.paletted <==> l.bytes_pp == 1)
            &&& (l.paletted ==> 1 <= l.palette_length <= 256)
            &&& (l.paletted ==> (l.pe_fmt == ColFmt::BGR || l.pe_fmt == ColFmt::BGRA))
            &&& (!l.paletted ==> 0 <= l.redi < l.bytes_pp && 0 <= l.greeni < l.bytes_pp && 0
                <= l.bluei < l.bytes_pp)
            &&& (l.alpha_masked ==> l.bytes_pp == 4 && 0 <= l.alphai < 4)
            &&& 0 <= l.palette_length <= 256
        }),
{
}

/// Whether output row `ty` has been written after `k` source rows.
pub open spec fn row_done(topdown: bool, ty: int, k: int, rows: int) -> bool {
    if topdown {
        0 <= ty < k
    } else {
        rows - k <= ty < rows
    }
}

/// Reads an image out of `d` and converts it to the requested layout.
/// Passing `ColFmt::Auto` converts the data to `RGB`, or to `RGBA` when
/// an alpha mask is present. The color-space and ICC fields of the two
/// highest header revisions are parsed but ignored.
#[verifier::rlimit(60)]
pub fn read(d: &[u8], req_fmt: ColFmt) -> (r: Result<Image, Error>)
    ensures
        ({
            let s = decode_spec(d@, req_fmt);
            match r {
                Ok(img) => s == Ok::<ImageG, Error>(img@),
                Err(e) => s == Err::<ImageG, Error>(e),
            }
        }),
{
    let hdr = match read_header(d) {
        Ok(h) => h,
        Err(e) => {
            return Err(e);
        },
    };
    let ghost gh: HeaderG = hdr@;
    proof {
        lemma_header_bounds(d@);
        assert(parse_header_spec(d@) == Ok::<HeaderG, Error>(gh));
    }
    if hdr.width < 1 || hdr.height == 0 {
        return Err(Error::Format);
    }
    if hdr.pixel_data_offset < 14 + hdr.dib_size || hdr.pixel_data_offset > 0xffffff {
        return Err(Error::Format);
    }
    if hdr.planes != 1 {
        return Err(Error::UnsupportedFeature);
    }
    let l = match resolve_layout(&hdr) {
        Ok(l) => l,
        Err(e) => {
            return Err(e);
        },
    };
    let ghost gl: LayoutG = l@;
    proof {
        lemma_layout_bounds(gh);
        assert(resolve_layout_spec(gh) == Ok::<LayoutG, Error>(gl));
    }
    let n = d.len();
    let ps = l.pe_fmt.bytes_pp();
    let pal_off = 14 + hdr.dib_size;
    proof {
        assert(l.palette_length <= 256 && ps <= 4);
        assert(l.palette_length * ps <= 1024) by (nonlinear_arith)
            requires
                0 <= l.palette_length <= 256,
                0 <= ps <= 4,
        ;
    }
    let pal_bytes = l.palette_length * ps;
    let mut palette: Vec<u8> = Vec::new();
    if l.paletted {
        if n < pal_off + pal_bytes {
            return Err(Error::Truncated);
        }
        palette = copy_range(d, pal_off, pal_bytes);
    }
    let ghost gpal: Seq<u8> = palette@;
    let w64: i64 = hdr.width as i64;
    let h64: i64 = hdr.height as i64;
    let w: usize = w64 as usize;
    let rows: usize = (if h64 < 0 {
        -h64
    } else {
        h64
    }) as usize;
    let topdown = hdr.height < 0;
    let off = hdr.pixel_data_offset;
    proof {
        assert(1 <= w as int && w as int <= 0x7fff_ffff);
        assert(1 <= rows as int && rows as int <= 0x8000_0000);
        assert(1 <= w as int * gl.bytes_pp && w as int * gl.bytes_pp <= 0x2_0000_0000)
            by (nonlinear_arith)
            requires
                1 <= w as int <= 0x7fff_ffff,
                1 <= gl.bytes_pp <= 4,
        ;
    }
    let sls128: u128 = (w as u128) * (l.bytes_pp as u128);
    let pad128: u128 = 3 - ((sls128 - 1) % 4);
    proof {
        assert((rows as int) * (sls128 as int + pad128 as int) <= 0x1_0000_0010_0000_0000)
            by (nonlinear_arith)
            requires
                0 <= rows as int <= 0x8000_0000,
                0 <= sls128 as int + pad128 as int <= 0x2_0000_0003,
        ;
    }
    let needed: u128 = (off as u128) + (rows as u128) * (sls128 + pad128);
    if (n as u128) < needed {
        return Err(Error::Truncated);
    }
    let tgt = match req_fmt {
        ColFmt::Auto => if l.alpha_masked {
            ColFmt::RGBA
        } else {
            ColFmt::RGB
        },
        _ => req_fmt,
    };
    let tbpp = tgt.bytes_pp();
    proof {
        assert(0 <= w as int * (tbpp as int) && w as int * (tbpp as int) <= 0x2_0000_0000)
            by (nonlinear_arith)
            requires
                1 <= w as int <= 0x7fff_ffff,
                1 <= tbpp as int <= 4,
        ;
    }
    let tls128: u128 = (w as u128) * (tbpp as u128);
    proof {
        assert((rows as int) * (tls128 as int) <= 0x1_0000_0000_0000_0000) by (nonlinear_arith)
            requires
                0 <= rows as int <= 0x8000_0000,
                0 <= tls128 as int <= 0x2_0000_0000,
        ;
    }
    let total128: u128 = (rows as u128) * tls128;
    if total128 > (usize::MAX as u128) || (w as u128) * 4 > (usize::MAX as u128) {
        return Err(Error::Capacity);
    }
    proof {
        assert(sls128 as int + pad128 as int <= (rows as int) * (sls128 as int + pad128 as int)
            && tls128 as int <= (rows as int) * (tls128 as int)) by (nonlinear_arith)
            requires
                rows as int >= 1,
                sls128 as int + pad128 as int >= 0,
                tls128 as int >= 0,
        ;
        assert(sls128 as int <= n as int);
    }
    let sls: usize = sls128 as usize;
    let pad: usize = pad128 as usize;
    let tls: usize = tls128 as usize;
    let total: usize = total128 as usize;
    let mut result = zero_vec(total);
    let ghost dbuf = decode_buf_spec(
        d@,
        gpal,
        gl,
        tgt,
        w as int,
        rows as int,
        topdown,
        off as int,
        sls as int,
        pad as int,
    );
    let mut k: usize = 0;
    while k < rows
        invariant
            n == d@.len(),
            parse_header_spec(d@) == Ok::<HeaderG, Error>(gh),
            resolve_layout_spec(gh) == Ok::<LayoutG, Error>(gl),
            gl == l@,
            1 <= w && w as int == gh.width,
            1 <= rows && rows as int == abs_spec(gh.height),
            gh.height != 0,
            topdown == (gh.height < 0),
            off as int == gh.pixel_data_offset,
            14 + gh.dib_size <= off as int && off as int <= 0xffffff,
            gh.planes == 1,
            gl.bytes_pp == 1 || gl.bytes_pp == 3 || gl.bytes_pp == 4,
            l.bytes_pp as int == gl.bytes_pp,
            l.paletted == gl.paletted,
            l.palette_length as int == gl.palette_length,
            l.pe_fmt == gl.pe_fmt,
            l.redi as int == gl.redi && l.greeni as int == gl.greeni && l.bluei as int
                == gl.bluei,
            l.alpha_masked == gl.alpha_masked && l.alphai as int == gl.alphai,
            (gl.paletted <==> gl.bytes_pp == 1),
            ps as int == gl.pe_fmt.bytes_pp_spec(),
            gl.paletted ==> (ps == 3 || ps == 4),
            gl.paletted ==> 1 <= gl.palette_length <= 256,
            gl.paletted ==> n as int >= 14 + gh.dib_size + gl.palette_length
                * gl.pe_fmt.bytes_pp_spec(),
            gl.paletted ==> gpal == d@.subrange(
                14 + gh.dib_size,
                14 + gh.dib_size + gl.palette_length * gl.pe_fmt.bytes_pp_spec(),
            ),
            gl.paletted ==> gpal.len() == gl.palette_length * ps,
            !gl.paletted ==> gpal == Seq::<u8>::empty(),
            !gl.paletted ==> (gl.redi < gl.bytes_pp && gl.greeni < gl.bytes_pp && gl.bluei
                < gl.bytes_pp),
            gl.alpha_masked ==> gl.bytes_pp == 4 && gl.alphai < 4,
            gpal == palette@,
            sls as int == w as int * gl.bytes_pp,
            1 <= sls,
            pad as int == row_pad_spec(sls as int),
            pad <= 3,
            off as int + (rows as int) * (sls as int + pad as int) <= n as int,
            tgt == tgt_fmt_spec(req_fmt, gl.alpha_masked),
            tgt != ColFmt::Auto,
            tbpp as int == tgt.bytes_pp_spec(),
            1 <= tbpp <= 4,
            tls as int == w as int * tbpp as int,
            total as int == rows as int * tls as int,
            (w as int) * 4 <= usize::MAX as int,
            result@.len() == total,
            dbuf == decode_buf_spec(
                d@,
                gpal,
                gl,
                tgt,
                w as int,
                rows as int,
                topdown,
                off as int,
                sls as int,
                pad as int,
            ),
            k <= rows,
            forall|ty: int, j: int|
                row_done(topdown, ty, k as int, rows as int) && 0 <= j < tls
                    ==> #[trigger] result@[ty * tls + j] == decoded_row_spec(
                    d@,
                    gpal,
                    gl,
                    tgt,
                    off + (if topdown {
                        ty
                    } else {
                        rows - 1 - ty
                    }) * (sls + pad),
                    sls as int,
                )[j],
            gl.paletted ==> forall|sy: int, x: int|
                0 <= sy < k && 0 <= x < sls ==> (#[trigger] d@[off + sy * (sls + pad) + x] as int)
                    < gl.palette_length,
        decreases rows - k,
    {
        proof {
            assert((k as int) * (sls as int + pad as int) + (sls as int + pad as int) <= (
            rows as int) * (sls as int + pad as int)) by (nonlinear_arith)
                requires
                    k < rows,
                    sls as int + pad as int >= 1,
            ;
        }
        let rstart = off + k * (sls + pad);
        let src_line = copy_range(d, rstart, sls);
        let line: Vec<u8>;
        let src_cfmt: ColFmt;
        if l.paletted {
            proof {
                assert(sls * ps <= sls * 4 && sls * 4 <= w as int * 4) by (nonlinear_arith)
                    requires
                        ps <= 4,
                        sls as int == w as int,
                        sls >= 0,
                ;
            }
            match depal_row(&src_line, &palette, ps, l.palette_length) {
                Ok(v) => {
                    line = v;
                },
                Err(_) => {
                    proof {
                        let x = choose|x: int|
                            0 <= x < src_line@.len() && (src_line@[x] as int) >= gl.palette_length;
                        assert(d@[off + (k as int) * (sls as int + pad as int) + x] == src_line@[x]);
                        assert(!palette_indices_ok(
                            d@,
                            gl.palette_length,
                            rows as int,
                            off as int,
                            sls as int,
                            pad as int,
                        ));
                    }
                    return Err(Error::Format);
                },
            }
            src_cfmt = l.pe_fmt;
            proof {
                vstd::arithmetic::div_mod::lemma_mod_multiples_basic(sls as int, ps as int);
                assert(line@ == depal_row_spec(
                    d@.subrange(rstart as int, rstart + sls),
                    gpal,
                    ps as int,
                ));
                assert(line@.len() as int % (src_cfmt.bytes_pp_spec() as int) == 0);
            }
        } else {
            proof {
                vstd::arithmetic::div_mod::lemma_mod_multiples_basic(
                    w as int,
                    gl.bytes_pp as int,
                );
                vstd::arithmetic::div_mod::lemma_div_multiples_vanish(
                    w as int,
                    gl.bytes_pp as int,
                );
                assert(w as int * gl.bytes_pp == gl.bytes_pp * w as int) by (nonlinear_arith);
                assert(sls as int % (l.bytes_pp as int) == 0);
                assert((sls as int / (l.bytes_pp as int)) * 4 == w as int * 4);
            }
            line = bgra_row(&src_line, l.bytes_pp, l.redi, l.greeni, l.bluei, l.alpha_masked,
                l.alphai);
            src_cfmt = ColFmt::BGRA;
            proof {
                vstd::arithmetic::div_mod::lemma_mod_multiples_basic(w as int, 4);
                assert(line@.len() == w as int * 4);
                assert(line@.len() as int % (src_cfmt.bytes_pp_spec() as int) == 0);
            }
        }
        let conv = convert_row(src_cfmt, tgt, line.as_slice());
        proof {
            if gl.paletted {
                vstd::arithmetic::div_mod::lemma_div_multiples_vanish(sls as int, ps as int);
                assert(sls as int * ps == ps * sls as int) by (nonlinear_arith);
                assert(line@.len() as int / (ps as int) == sls as int);
            } else {
                vstd::arithmetic::div_mod::lemma_div_multiples_vanish(w as int, 4);
                assert(w as int * 4 == 4 * w as int) by (nonlinear_arith);
                assert(line@.len() as int / 4 == w as int);
            }
            assert(conv@ == decoded_row_spec(d@, gpal, gl, tgt, rstart as int, sls as int));
            assert(conv@.len() == tls);
        }
        let ty = if topdown {
            k
        } else {
            rows - 1 - k
        };
        proof {
            assert((ty as int) * tls + tls <= (rows as int) * tls) by (nonlinear_arith)
                requires
                    0 <= (ty as int) && (ty as int) < rows as int,
                    tls >= 0,
            ;
        }
        write_at(&mut result, ty * tls, &conv);
        let ghost prev = k as int;
        k = k + 1;
        proof {
            assert forall|ty2: int, j: int|
                row_done(topdown, ty2, k as int, rows as int) && 0 <= j < tls implies #[trigger]
            result@[ty2 * tls + j] == decoded_row_spec(
                d@,
                gpal,
                gl,
                tgt,
                off + (if topdown {
                    ty2
                } else {
                    rows - 1 - ty2
                }) * (sls + pad),
                sls as int,
            )[j] by {
                if ty2 == ty as int {
                    assert(result@[ty * tls + j] == conv@[j]);
                } else {
                    lemma_rows_disjoint(ty as int, ty2, tls as int, j);
                    assert(ty2 * tls + j < total as int) by (nonlinear_arith)
                        requires
                            0 <= ty2 && ty2 < rows as int,
                            0 <= j && j < tls as int,
                            total as int == (rows as int) * (tls as int),
                    ;
                    assert(row_done(topdown, ty2, prev, rows as int));
                }
            }
            if gl.paletted {
                assert forall|sy: int, x: int| 0 <= sy < k && 0 <= x < sls implies (
                #[trigger] d@[off + sy * (sls + pad) + x] as int) < gl.palette_length by {
                    if sy == prev {
                        assert(d@[off + prev * (sls + pad) + x] == src_line@[x]);
                    }
                }
            }
        }
    }
    proof {
        assert forall|i: int| 0 <= i < total implies result@[i] == dbuf[i] by {
            lemma_buf_index(i, tls as int, rows as int);
            let ty = i / (tls as int);
            let j = i % (tls as int);
            assert(row_done(topdown, ty, rows as int, rows as int));
            assert(result@[ty * tls + j] == decoded_row_spec(
                d@,
                gpal,
                gl,
                tgt,
                off + (if topdown {
                    ty
                } else {
                    rows - 1 - ty
                }) * (sls + pad),
                sls as int,
            )[j]);
        }
        assert(result@ =~= dbuf);
    }
    Ok(Image { w, h: rows, fmt: tgt, buf: result })
}

} // verus!
