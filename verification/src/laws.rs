//! Relations between the codec's operations, stated and proved over the
//! same spec functions their contracts use.

use vstd::prelude::*;

use crate::convert::convert_row_spec;
use crate::decode::{
    abs_spec, bgra_row_spec, color_type_spec, decode_buf_spec, decode_spec,
    decode_with_header_spec, decoded_row_spec, info_spec, lemma_buf_index, resolve_layout_spec,
    row_pad_spec, LayoutG,
};
use crate::encode::{encode_header_spec, encode_rows_spec, encode_spec};
use crate::header::{parse_header_spec, DibV1, DibV2, HeaderG};
use crate::le::{
    le16_bytes, le32_bytes, le32_spec, lemma_le16_roundtrip, lemma_le32_roundtrip,
    lemma_le32_signed_nonneg,
};
use crate::types::{ColFmt, ColType, Error, ImageG};

verus! {

/// A valid legacy input (12-byte DIB header) never probes to an alpha
/// color type: its header revision has no alpha mask, so the probe
/// reports plain color.
pub proof fn lemma_legacy_probe_color(d: Seq<u8>)
    requires
        parse_header_spec(d) is Ok,
        parse_header_spec(d)->Ok_0.dib_size == 12,
    ensures
        info_spec(d) is Ok,
        info_spec(d)->Ok_0.ct == ColType::Color,
{
    let h = parse_header_spec(d)->Ok_0;
    assert(h.dib_v3_alpha_mask is None);
}

/// The probe reports `ColorAlpha` exactly when the header holds a
/// nonzero alpha mask of the third revision and 32 bits per pixel, and
/// `Color` otherwise.
pub proof fn lemma_probe_alpha(d: Seq<u8>)
    requires
        parse_header_spec(d) is Ok,
    ensures
        info_spec(d) is Ok,
        ({
            let h = parse_header_spec(d)->Ok_0;
            info_spec(d)->Ok_0.ct == (if h.bits_pp == 32 && (h.dib_v3_alpha_mask matches Some(m)
                && m != 0) {
                ColType::ColorAlpha
            } else {
                ColType::Color
            })
        }),
{
    let h = parse_header_spec(d)->Ok_0;
    assert(info_spec(d)->Ok_0.ct == color_type_spec(h));
}

/// The standard byte-aligned bitmask set (red `0x00FF0000`, green
/// `0x0000FF00`, blue `0x000000FF`) reconstructs the same channel order
/// as plain uncompressed data: two headers of a direct-color bit depth
/// that differ only in the compression field (bitfields with those masks
/// against plain) decode any buffer, under any request, to the same
/// result.
pub proof fn lemma_standard_masks_match_plain(h1: HeaderG, h2: HeaderG, d: Seq<u8>, req: ColFmt)
    requires
        h1.dib_v1 is Some,
        h1.dib_v1->Some_0.compression == 3,
        h1.dib_v2 == Some(
            DibV2 { red_mask: 0x00ff_0000u32, green_mask: 0x0000_ff00u32, blue_mask: 0x0000_00ffu32 },
        ),
        h1.bits_pp == 24 || h1.bits_pp == 32,
        h2.dib_v1 == Some(DibV1 { compression: 0u32, ..h1.dib_v1->Some_0 }),
        h2.file_size == h1.file_size,
        h2.pixel_data_offset == h1.pixel_data_offset,
        h2.dib_size == h1.dib_size,
        h2.width == h1.width,
        h2.height == h1.height,
        h2.planes == h1.planes,
        h2.bits_pp == h1.bits_pp,
        h2.dib_v3_alpha_mask == h1.dib_v3_alpha_mask,
    ensures
        decode_with_header_spec(h1, d, req) == decode_with_header_spec(h2, d, req),
{
    assert(resolve_layout_spec(h1) == resolve_layout_spec(h2));
}

/// Rewriting a row from `RGB` to the encoder's `BGR` order, reading it
/// back as blue-green-red-alpha pixels with plain channel indices, and
/// converting that to `RGB` gives back the original row.
proof fn lemma_bgr_round_trip(row: Seq<u8>, w: int)
    requires
        w >= 0,
        row.len() == w * 3,
    ensures
        convert_row_spec(
            ColFmt::BGRA,
            ColFmt::RGB,
            bgra_row_spec(convert_row_spec(ColFmt::RGB, ColFmt::BGR, row), 3, 2, 1, 0, false, 0),
        ) == row,
{
    vstd::arithmetic::div_mod::lemma_mod_multiples_basic(w, 3);
    vstd::arithmetic::div_mod::lemma_div_multiples_vanish(w, 3);
    vstd::arithmetic::div_mod::lemma_div_multiples_vanish(w, 4);
    assert(w * 3 == 3 * w && w * 4 == 4 * w) by (nonlinear_arith);
    let enc = convert_row_spec(ColFmt::RGB, ColFmt::BGR, row);
    assert(row.len() as int / 3 == w);
    assert(enc.len() == w * 3);
    let mid = bgra_row_spec(enc, 3, 2, 1, 0, false, 0);
    assert(enc.len() as int / 3 == w);
    assert(mid.len() == w * 4);
    let out = convert_row_spec(ColFmt::BGRA, ColFmt::RGB, mid);
    assert(mid.len() as int / 4 == w);
    assert(out.len() == w * 3);
    assert forall|i: int| 0 <= i < w * 3 implies out[i] == row[i] by {
        lemma_buf_index(i, 3, w);
        let k = i / 3;
        let c = i % 3;
        assert forall|m: int| 0 <= m < 4 implies #[trigger] mid[k * 4 + m] == (if m == 3 {
            255u8
        } else {
            enc[k * 3 + m]
        }) by {
            vstd::arithmetic::div_mod::lemma_fundamental_div_mod_converse(k * 4 + m, 4, k, m);
        }
        assert forall|c2: int| 0 <= c2 < 3 implies #[trigger] enc[k * 3 + c2] == row[k * 3 + (2
            - c2)] by {
            vstd::arithmetic::div_mod::lemma_fundamental_div_mod_converse(k * 3 + c2, 3, k, c2);
            assert(row.subrange(k * 3, k * 3 + 3)[2 - c2] == row[k * 3 + (2 - c2)]);
        }
        let px = mid.subrange(k * 4, k * 4 + 4);
        assert(px[0] == mid[k * 4 + 0] && px[1] == mid[k * 4 + 1] && px[2] == mid[k * 4 + 2]
            && px[3] == mid[k * 4 + 3]);
        assert(px[0] == row[k * 3 + 2] && px[1] == row[k * 3 + 1] && px[2] == row[k * 3 + 0]
            && px[3] == 255u8);
        assert(out[i] == crate::convert::convert_px_spec(ColFmt::BGRA, ColFmt::RGB, px)[c]);
        assert(out[i] == row[k * 3 + c]);
    }
    assert(out =~= row);
}

/// The file the encoder emits parses back to a first-revision header
/// with the emitted geometry: one plane, 24 bits per pixel, no
/// compression, no palette, and the pixel data at offset 54.
#[verifier::rlimit(100)]
#[verifier::spinoff_prover]
proof fn lemma_encoded_parses(w: int, h: int, fmt: ColFmt, data: Seq<u8>, e: Seq<u8>, filesize: int, ls: int, pad: int)
    requires
        1 <= w <= 0x7fff,
        1 <= h <= 0x7fff,
        fmt != ColFmt::Auto,
        data.len() == fmt.bytes_pp_spec() * w * h,
        ls == w * 3,
        pad == row_pad_spec(ls),
        filesize == 54 + h * (ls + pad),
        filesize <= 0xffff_ffff,
        e == encode_header_spec(filesize, w, h) + encode_rows_spec(w, h, fmt, data, ls, pad),
    ensures
        parse_header_spec(e) is Ok,
        ({
            let gh = parse_header_spec(e)->Ok_0;
            &&& gh.dib_size == 40
            &&& gh.pixel_data_offset == 54
            &&& gh.width == w
            &&& gh.height == h
            &&& gh.planes == 1
            &&& gh.bits_pp == 24
            &&& gh.dib_v1 == Some(
                DibV1 {
                    compression: 0u32,
                    idat_size: 0usize,
                    pixels_per_meter_x: 0usize,
                    pixels_per_meter_y: 0usize,
                    palette_length: 0usize,
                    important_color_count: 0u32,
                },
            )
            &&& gh.dib_v2 is None
            &&& gh.dib_v3_alpha_mask is None
            &&& gh.dib_v4 is None
            &&& gh.dib_v5 is None
        }),
{
    let hs = encode_header_spec(filesize, w, h);
    let rs = encode_rows_spec(w, h, fmt, data, ls, pad);
    assert(hs.len() == 54);
    assert(e.len() == 54 + rs.len());
    assert(e[0] == 0x42 && e[1] == 0x4d);
    assert(e.subrange(14, 18) =~= le32_bytes(40));
    lemma_le32_roundtrip(40);
    assert(le32_spec(e.subrange(14, 18)) == 40);
    let dib = e.subrange(18, 54);
    assert(dib.subrange(0, 4) =~= le32_bytes(w as u32));
    assert(dib.subrange(4, 8) =~= le32_bytes(h as u32));
    assert(dib.subrange(8, 10) =~= le16_bytes(1));
    assert(dib.subrange(10, 12) =~= le16_bytes(24));
    assert(dib.subrange(12, 16) =~= le32_bytes(0));
    assert(dib.subrange(16, 20) =~= le32_bytes(0));
    assert(dib.subrange(20, 24) =~= le32_bytes(0));
    assert(dib.subrange(24, 28) =~= le32_bytes(0));
    assert(dib.subrange(28, 32) =~= le32_bytes(0));
    assert(dib.subrange(32, 36) =~= le32_bytes(0));
    assert(e.subrange(10, 14) =~= le32_bytes(54));
    lemma_le32_roundtrip(w as u32);
    lemma_le32_roundtrip(h as u32);
    lemma_le32_roundtrip(0);
    lemma_le32_roundtrip(54);
    lemma_le16_roundtrip(1);
    lemma_le16_roundtrip(24);
    lemma_le32_signed_nonneg(dib.subrange(0, 4));
    lemma_le32_signed_nonneg(dib.subrange(4, 8));
}

/// Round trip: a 24-bit `RGB` image written by the encoder decodes
/// back, under an explicit `RGB` request, to the same pixels and the
/// same dimensions.
#[verifier::rlimit(100)]
#[verifier::spinoff_prover]
pub proof fn lemma_round_trip_rgb(w: int, h: int, data: Seq<u8>)
    requires
        1 <= w <= 0x7fff,
        1 <= h <= 0x7fff,
        data.len() == 3 * w * h,
    ensures
        encode_spec(w, h, ColFmt::RGB, data, ColType::Color) is Ok,
        decode_spec(encode_spec(w, h, ColFmt::RGB, data, ColType::Color)->Ok_0, ColFmt::RGB)
            == Ok::<ImageG, Error>(ImageG { w, h, fmt: ColFmt::RGB, buf: data }),
{
    let ls = w * 3;
    assert(3 <= ls <= 0x17ffd) by (nonlinear_arith)
        requires
            1 <= w <= 0x7fff,
            ls == w * 3,
    ;
    let pad = row_pad_spec(ls);
    assert(0 <= pad <= 3);
    assert(h * (ls + pad) <= 0x7fff * 0x18000 && h * (ls + pad) >= ls + pad)
        by (nonlinear_arith)
        requires
            1 <= h <= 0x7fff,
            0 <= ls + pad <= 0x18000,
    ;
    let filesize = 54 + h * (ls + pad);
    assert(encode_spec(w, h, ColFmt::RGB, data, ColType::Color) is Ok);
    let e = encode_spec(w, h, ColFmt::RGB, data, ColType::Color)->Ok_0;
    lemma_encoded_parses(w, h, ColFmt::RGB, data, e, filesize, ls, pad);
    let gh = parse_header_spec(e)->Ok_0;
    let rs = encode_rows_spec(w, h, ColFmt::RGB, data, ls, pad);
    assert(e.len() == 54 + h * (ls + pad));
    let l = LayoutG {
        bytes_pp: 3,
        paletted: false,
        palette_length: 0,
        pe_fmt: ColFmt::BGRA,
        redi: 2,
        greeni: 1,
        bluei: 0,
        alpha_masked: false,
        alphai: 0,
    };
    assert(resolve_layout_spec(gh) == Ok::<LayoutG, Error>(l));
    assert(abs_spec(gh.height) == h);
    assert(h * (w * 3) <= 0x7fff * 0x7fff * 3) by (nonlinear_arith)
        requires
            1 <= w <= 0x7fff,
            1 <= h <= 0x7fff,
    ;
    assert(0x7fff * 0x7fff * 3 <= usize::MAX);
    assert(w * 4 <= usize::MAX);
    let tls = w * 3;
    let dbuf = decode_buf_spec(e, Seq::empty(), l, ColFmt::RGB, w, h, false, 54, ls, pad);
    assert(dbuf.len() == h * tls);
    assert(h * tls == 3 * w * h) by (nonlinear_arith)
        requires
            tls == w * 3,
    ;
    assert forall|i: int| 0 <= i < h * tls implies dbuf[i] == data[i] by {
        lemma_buf_index(i, tls, h);
        let ty = i / tls;
        let j = i % tls;
        let sy = h - 1 - ty;
        let rstart = 54 + sy * (ls + pad);
        assert(sy * (ls + pad) + (ls + pad) <= h * (ls + pad) && 0 <= sy * (ls + pad))
            by (nonlinear_arith)
            requires
                0 <= sy && sy < h,
                0 <= ls + pad,
        ;
        let src = e.subrange(rstart, rstart + ls);
        let drow = data.subrange(ty * ls, ty * ls + ls);
        assert((ty + 1) * ls == ty * ls + ls && ty * ls + ls <= h * ls && 0 <= ty * ls)
            by (nonlinear_arith)
            requires
                0 <= ty && ty < h,
                0 <= ls,
        ;
        assert(h * ls == 3 * w * h) by (nonlinear_arith)
            requires
                ls == w * 3,
        ;
        assert forall|x: int| 0 <= x < ls implies src[x] == convert_row_spec(
            ColFmt::RGB,
            ColFmt::BGR,
            drow,
        )[x] by {
            let m = sy * (ls + pad) + x;
            vstd::arithmetic::div_mod::lemma_fundamental_div_mod_converse(m, ls + pad, sy, x);
            assert(m < h * (ls + pad)) by (nonlinear_arith)
                requires
                    m == sy * (ls + pad) + x,
                    0 <= sy && sy < h,
                    0 <= x && x < ls + pad,
            ;
            assert(e[54 + m] == rs[m]);
            assert(h - 1 - sy == ty);
            assert(src[x] == e[rstart + x]);
            assert(rstart + x == 54 + m);
        }
        assert(src =~= convert_row_spec(ColFmt::RGB, ColFmt::BGR, drow));
        assert(drow.len() == w * 3);
        lemma_bgr_round_trip(drow, w);
        assert(decoded_row_spec(e, Seq::empty(), l, ColFmt::RGB, rstart, ls) == drow);
        assert(dbuf[i] == decoded_row_spec(e, Seq::empty(), l, ColFmt::RGB, 54 + (if false {
            ty
        } else {
            h - 1 - ty
        }) * (ls + pad), ls)[j]);
        assert(drow[j] == data[ty * ls + j]);
        assert(i == ty * tls + j);
    }
    assert(dbuf =~= data);
    assert(decode_with_header_spec(gh, e, ColFmt::RGB) == Ok::<ImageG, Error>(
        ImageG { w, h, fmt: ColFmt::RGB, buf: dbuf },
    ));
}

} // verus!
