//! The encoder: writes an image as a minimal, portable 24-bit BMP.

use vstd::prelude::*;

use crate::convert::{convert_row, convert_row_spec};
use crate::decode::row_pad_spec;
use crate::le::{le16_bytes, le32_bytes, push_u16_le, push_u32_le};
use crate::types::{ColFmt, ColType, Error};

verus! {

/// The 54 header bytes the encoder emits: the file header carrying the
/// total file size and a pixel-data offset of 54, then a 40-byte DIB
/// header declaring the geometry, one plane, 24 bits per pixel, no
/// compression, and zeroed resolution and palette fields. The positive
/// height declares bottom-up row order.
pub open spec fn encode_header_spec(filesize: int, w: int, h: int) -> Seq<u8>
    recommends
        0 <= filesize <= 0xffff_ffff,
        0 <= w <= 0x7fff,
        0 <= h <= 0x7fff,
{
    seq![0x42u8, 0x4du8] + le32_bytes(filesize as u32) + le32_bytes(0) + le32_bytes(54)
        + le32_bytes(40) + le32_bytes(w as u32) + le32_bytes(h as u32) + le16_bytes(1) + le16_bytes(
        24,
    ) + le32_bytes(0) + le32_bytes(0) + le32_bytes(0) + le32_bytes(0) + le32_bytes(0) + le32_bytes(
        0,
    )
}

/// The pixel bytes the encoder emits: rows in bottom-up order, each
/// converted to blue-green-red byte order and followed by `pad` zero
/// bytes.
pub open spec fn encode_rows_spec(
    w: int,
    h: int,
    fmt: ColFmt,
    data: Seq<u8>,
    ls: int,
    pad: int,
) -> Seq<u8>
    recommends
        fmt != ColFmt::Auto,
        ls == w * 3,
        pad == row_pad_spec(ls),
        data.len() == fmt.bytes_pp_spec() * w * h,
{
    let sls = w * fmt.bytes_pp_spec();
    Seq::new(
        (h * (ls + pad)) as nat,
        |i: int|
            {
                let ty = i / (ls + pad);
                let j = i % (ls + pad);
                let sy = h - 1 - ty;
                if j < ls {
                    convert_row_spec(fmt, ColFmt::BGR, data.subrange(sy * sls, (sy + 1) * sls))[j]
                } else {
                    0u8
                }
            },
    )
}

/// What encoding yields: the dimensions must lie in `[1, 0x7fff]`, the
/// buffer length must match them exactly, the input layout must be
/// concrete, and the requested output type must be color or automatic
/// (both produce the same 24-bit file); a file size past the 32-bit
/// size field is rejected.
pub open spec fn encode_spec(w: int, h: int, fmt: ColFmt, data: Seq<u8>, tgt: ColType) -> Result<
    Seq<u8>,
    Error,
> {
    if w < 1 || h < 1 || w > 0x7fff || h > 0x7fff || fmt.bytes_pp_spec() * w * h != data.len() {
        Err(Error::Format)
    } else if fmt == ColFmt::Auto {
        Err(Error::Format)
    } else if !(tgt == ColType::Color || tgt == ColType::Auto) {
        Err(Error::UnsupportedFeature)
    } else {
        let ls = w * 3;
        let pad = row_pad_spec(ls);
        let filesize = 54 + h * (ls + pad);
        if filesize > 0xffff_ffff {
            Err(Error::Capacity)
        } else {
            Ok(encode_header_spec(filesize, w, h) + encode_rows_spec(w, h, fmt, data, ls, pad))
        }
    }
}

/// Appends all of `src`.
fn push_all(out: &mut Vec<u8>, src: &Vec<u8>)
    ensures
        final(out)@ == old(out)@ + src@,
{
    let m = src.len();
    let mut i: usize = 0;
    while i < m
        invariant
            i <= m,
            m == src@.len(),
            out@ == old(out)@ + src@.subrange(0, i as int),
        decreases m - i,
    {
        out.push(src[i]);
        i = i + 1;
        proof {
            assert(out@ =~= old(out)@ + src@.subrange(0, i as int));
        }
    }
    proof {
        assert(out@ =~= old(out)@ + src@);
    }
}

/// Writes an image as a minimal 24-bit bottom-up BMP and returns the
/// file bytes. Only colors without alpha are written: `tgt_type` can be
/// `ColType::Color` or `ColType::Auto`, and both do the same thing here.
#[verifier::rlimit(60)]
pub fn write(w: usize, h: usize, src_fmt: ColFmt, data: &[u8], tgt_type: ColType) -> (r: Result<
    Vec<u8>,
    Error,
>)
    ensures
        ({
            let s = encode_spec(w as int, h as int, src_fmt, data@, tgt_type);
            match r {
                Ok(out) => s == Ok::<Seq<u8>, Error>(out@),
                Err(e) => s == Err::<Seq<u8>, Error>(e),
            }
        }),
{
    let bpp = src_fmt.bytes_pp();
    if w < 1 || h < 1 || w > 0x7fff || h > 0x7fff {
        return Err(Error::Format);
    }
    proof {
        assert(0 <= bpp as int * (w as int) * (h as int) && bpp as int * (w as int) * (h as int)
            <= 4 * 0x7fff * 0x7fff) by (nonlinear_arith)
            requires
                1 <= w as int <= 0x7fff,
                1 <= h as int <= 0x7fff,
                0 <= bpp as int <= 4,
        ;
    }
    let len = data.len();
    if bpp * w * h != len {
        return Err(Error::Format);
    }
    match src_fmt {
        ColFmt::Auto => {
            return Err(Error::Format);
        },
        _ => {},
    }
    match tgt_type {
        ColType::Color | ColType::Auto => {},
        _ => {
            return Err(Error::UnsupportedFeature);
        },
    }
    let ls = w * 3;
    let pad = 3 - ((ls - 1) % 4);
    proof {
        assert((h as int) * (ls as int + pad as int) <= 0x7fff * 0x18004) by (nonlinear_arith)
            requires
                1 <= h as int <= 0x7fff,
                0 <= ls as int + pad as int <= 0x18004,
        ;
    }
    let filesize = 54 + h * (ls + pad);
    if filesize > 0xffff_ffff {
        return Err(Error::Capacity);
    }
    let ghost hdrseq = encode_header_spec(filesize as int, w as int, h as int);
    let ghost rowsseq = encode_rows_spec(
        w as int,
        h as int,
        src_fmt,
        data@,
        ls as int,
        pad as int,
    );
    let mut out: Vec<u8> = Vec::new();
    out.push(0x42);
    out.push(0x4d);
    push_u32_le(&mut out, filesize as u32);
    push_u32_le(&mut out, 0);
    push_u32_le(&mut out, 54);
    push_u32_le(&mut out, 40);
    push_u32_le(&mut out, w as u32);
    push_u32_le(&mut out, h as u32);
    push_u16_le(&mut out, 1);
    push_u16_le(&mut out, 24);
    push_u32_le(&mut out, 0);
    push_u32_le(&mut out, 0);
    push_u32_le(&mut out, 0);
    push_u32_le(&mut out, 0);
    push_u32_le(&mut out, 0);
    push_u32_le(&mut out, 0);
    proof {
        assert(out@ =~= hdrseq);
    }
    let sls = w * bpp;
    proof {
        assert(sls as int * (h as int) == bpp as int * (w as int) * (h as int))
            by (nonlinear_arith)
            requires
                sls as int == (w as int) * (bpp as int),
        ;
    }
    let mut ty: usize = 0;
    while ty < h
        invariant
            1 <= w <= 0x7fff && 1 <= h <= 0x7fff,
            src_fmt != ColFmt::Auto,
            bpp as int == src_fmt.bytes_pp_spec(),
            1 <= bpp <= 4,
            len == data@.len(),
            len == bpp * w * h,
            ls == w * 3,
            pad as int == row_pad_spec(ls as int),
            pad <= 3,
            sls == w * bpp,
            sls as int * (h as int) == len,
            filesize == 54 + h * (ls + pad),
            hdrseq == encode_header_spec(filesize as int, w as int, h as int),
            rowsseq == encode_rows_spec(
                w as int,
                h as int,
                src_fmt,
                data@,
                ls as int,
                pad as int,
            ),
            hdrseq.len() == 54,
            rowsseq.len() == h as int * (ls as int + pad as int),
            ty <= h,
            out@.len() == 54 + ty * (ls + pad),
            forall|i: int| 0 <= i < 54 ==> out@[i] == hdrseq[i],
            forall|i: int| 0 <= i < ty * (ls + pad) ==> #[trigger] out@[54 + i] == rowsseq[i],
        decreases h - ty,
    {
        let sy = h - 1 - ty;
        proof {
            assert(sy as int * sls + sls <= h as int * sls && (sy as int + 1) * sls == sy as int
                * sls + sls && h as int * sls == sls as int * (h as int)) by (nonlinear_arith)
                requires
                    0 <= (sy as int) && (sy as int) < h as int,
                    sls >= 0,
            ;
            vstd::arithmetic::div_mod::lemma_mod_multiples_basic(w as int, bpp as int);
            vstd::arithmetic::div_mod::lemma_div_multiples_vanish(w as int, bpp as int);
            assert(w as int * bpp == bpp as int * (w as int)) by (nonlinear_arith);
            assert(sls as int % (bpp as int) == 0);
            assert(sls as int / (bpp as int) == w as int);
        }
        let row = &data[sy * sls..sy * sls + sls];
        let conv = convert_row(src_fmt, ColFmt::BGR, row);
        proof {
            assert(conv@ == convert_row_spec(
                src_fmt,
                ColFmt::BGR,
                data@.subrange(sy as int * sls, (sy as int + 1) * sls),
            ));
            assert(conv@.len() == ls) by (nonlinear_arith)
                requires
                    conv@.len() == (sls as int / (bpp as int)) * 3,
                    sls as int / (bpp as int) == w as int,
                    ls == w * 3,
            ;
            assert((ty as int) * (ls as int + pad as int) + (ls as int + pad as int) <= (
            h as int) * (ls as int + pad as int) && (ty as int + 1) * (ls as int + pad as int) == (
            ty as int) * (ls as int + pad as int) + (ls as int + pad as int)) by (nonlinear_arith)
                requires
                    0 <= (ty as int) && (ty as int) < h as int,
                    ls as int + pad as int >= 0,
            ;
        }
        let ghost base = (ty as int) * (ls as int + pad as int);
        let ghost out_pre = out@;
        push_all(&mut out, &conv);
        if pad >= 1 {
            out.push(0);
        }
        if pad >= 2 {
            out.push(0);
        }
        if pad >= 3 {
            out.push(0);
        }
        proof {
            assert(out_pre.len() == 54 + base);
            assert(out@.len() == 54 + base + ls + pad);
            assert forall|j: int| 0 <= j < ls + pad implies #[trigger] out@[54 + base + j] == (
            if j < ls {
                conv@[j]
            } else {
                0u8
            }) by {
                if j < ls {
                    assert(out@[54 + base + j] == (out_pre + conv@)[54 + base + j]);
                }
            }
            assert forall|i: int| 0 <= i < 54 + base implies #[trigger] out@[i] == out_pre[i] by {
                assert(out@[i] == (out_pre + conv@)[i]);
            }
            assert forall|i: int| base <= i < base + (ls + pad) implies #[trigger] out@[54 + i]
                == rowsseq[i] by {
                let j = i - base;
                vstd::arithmetic::div_mod::lemma_fundamental_div_mod_converse(
                    i,
                    ls as int + pad as int,
                    ty as int,
                    j,
                );
                assert(out@[54 + base + j] == (
                if j < ls {
                    conv@[j]
                } else {
                    0u8
                }));
            }
        }
        ty = ty + 1;
        proof {
            assert forall|i: int| 0 <= i < ty * (ls + pad) implies #[trigger] out@[54 + i]
                == rowsseq[i] by {
                assert((ty - 1) * (ls as int + pad as int) + (ls as int + pad as int) == ty as int
                    * (ls as int + pad as int)) by (nonlinear_arith);
            }
        }
    }
    proof {
        assert forall|i: int| 0 <= i < out@.len() implies out@[i] == (hdrseq + rowsseq)[i] by {
            if i >= 54 {
                assert(out@[54 + (i - 54)] == rowsseq[i - 54]);
            }
        }
        assert(out@ =~= hdrseq + rowsseq);
    }
    Ok(out)
}

} // verus!
