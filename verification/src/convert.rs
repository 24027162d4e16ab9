//! Conversion between canonical pixel layouts, one row at a time.
//!
//! Every concrete layout maps into a common RGBA reading of each pixel;
//! the target layout is then written back out of that reading. Gray output
//! uses an integer luminance weighting of the three color channels.

use vstd::prelude::*;

use crate::types::ColFmt;

verus! {

/// Integer luminance of a color: `(54 r + 183 g + 19 b) / 256`, the
/// weights summing to 256 so the result stays in a byte.
pub open spec fn lum_spec(r: u8, g: u8, b: u8) -> u8 {
    ((54 * (r as int) + 183 * (g as int) + 19 * (b as int)) / 256) as u8
}

/// The RGBA reading of one pixel of layout `fmt`; a missing alpha channel
/// reads as fully opaque, and a gray byte fills all three color channels.
pub open spec fn px_rgba_spec(fmt: ColFmt, p: Seq<u8>) -> (u8, u8, u8, u8)
    recommends
        p.len() == fmt.bytes_pp_spec(),
        fmt != ColFmt::Auto,
{
    match fmt {
        ColFmt::Auto => (0u8, 0u8, 0u8, 0u8),
        ColFmt::Y => (p[0], p[0], p[0], 255u8),
        ColFmt::YA => (p[0], p[0], p[0], p[1]),
        ColFmt::RGB => (p[0], p[1], p[2], 255u8),
        ColFmt::RGBA => (p[0], p[1], p[2], p[3]),
        ColFmt::BGR => (p[2], p[1], p[0], 255u8),
        ColFmt::BGRA => (p[2], p[1], p[0], p[3]),
    }
}

/// The bytes of one pixel of layout `fmt` holding the RGBA reading `c`.
pub open spec fn px_bytes_spec(fmt: ColFmt, c: (u8, u8, u8, u8)) -> Seq<u8>
    recommends
        fmt != ColFmt::Auto,
{
    match fmt {
        ColFmt::Auto => seq![],
        ColFmt::Y => seq![lum_spec(c.0, c.1, c.2)],
        ColFmt::YA => seq![lum_spec(c.0, c.1, c.2), c.3],
        ColFmt::RGB => seq![c.0, c.1, c.2],
        ColFmt::RGBA => seq![c.0, c.1, c.2, c.3],
        ColFmt::BGR => seq![c.2, c.1, c.0],
        ColFmt::BGRA => seq![c.2, c.1, c.0, c.3],
    }
}

/// One pixel of layout `src`, rewritten in layout `tgt`.
pub open spec fn convert_px_spec(src: ColFmt, tgt: ColFmt, p: Seq<u8>) -> Seq<u8>
    recommends
        p.len() == src.bytes_pp_spec(),
        src != ColFmt::Auto,
        tgt != ColFmt::Auto,
{
    px_bytes_spec(tgt, px_rgba_spec(src, p))
}

/// A whole row of pixels of layout `src`, rewritten in layout `tgt`,
/// pixel by pixel.
pub open spec fn convert_row_spec(src: ColFmt, tgt: ColFmt, line: Seq<u8>) -> Seq<u8>
    recommends
        src != ColFmt::Auto,
        tgt != ColFmt::Auto,
        line.len() as int % src.bytes_pp_spec() == 0,
{
    let s = src.bytes_pp_spec();
    let t = tgt.bytes_pp_spec();
    Seq::new(
        ((line.len() as int / s) * t) as nat,
        |i: int|
            {
                let k = i / t;
                convert_px_spec(src, tgt, line.subrange(k * s, k * s + s))[i % t]
            },
    )
}

/// Integer luminance of a color.
pub fn lum(r: u8, g: u8, b: u8) -> (y: u8)
    ensures
        y == lum_spec(r, g, b),
{
    let v: u32 = (54 * (r as u32) + 183 * (g as u32) + 19 * (b as u32)) / 256;
    assert(v <= 255);
    v as u8
}

/// Reads the RGBA value of the pixel at byte offset `base` of a
/// `src`-layout row.
fn read_px(src: ColFmt, line: &[u8], base: usize) -> (c: (u8, u8, u8, u8))
    requires
        src != ColFmt::Auto,
        base + src.bytes_pp_spec() <= line@.len(),
    ensures
        c == px_rgba_spec(src, line@.subrange(base as int, base + src.bytes_pp_spec())),
{
    let n = line.len();
    assert(base + src.bytes_pp_spec() <= n);
    match src {
        ColFmt::Y => (line[base], line[base], line[base], 255),
        ColFmt::YA => (line[base], line[base], line[base], line[base + 1]),
        ColFmt::RGB => (line[base], line[base + 1], line[base + 2], 255),
        ColFmt::RGBA => (line[base], line[base + 1], line[base + 2], line[base + 3]),
        ColFmt::BGR => (line[base + 2], line[base + 1], line[base], 255),
        ColFmt::BGRA => (line[base + 2], line[base + 1], line[base], line[base + 3]),
        ColFmt::Auto => (0, 0, 0, 0),
    }
}

/// Appends one pixel with RGBA value `c`, written in layout `tgt`.
fn push_px(tgt: ColFmt, c: (u8, u8, u8, u8), out: &mut Vec<u8>)
    requires
        tgt != ColFmt::Auto,
    ensures
        final(out)@ == old(out)@ + px_bytes_spec(tgt, c),
{
    let (r, g, b, a) = c;
    match tgt {
        ColFmt::Y => {
            out.push(lum(r, g, b));
        },
        ColFmt::YA => {
            out.push(lum(r, g, b));
            out.push(a);
        },
        ColFmt::RGB => {
            out.push(r);
            out.push(g);
            out.push(b);
        },
        ColFmt::RGBA => {
            out.push(r);
            out.push(g);
            out.push(b);
            out.push(a);
        },
        ColFmt::BGR => {
            out.push(b);
            out.push(g);
            out.push(r);
        },
        ColFmt::BGRA => {
            out.push(b);
            out.push(g);
            out.push(r);
            out.push(a);
        },
        ColFmt::Auto => {},
    }
    proof {
        assert(out@ =~= old(out)@ + px_bytes_spec(tgt, c));
    }
}

/// Rewrites a row of `src`-layout pixels in layout `tgt`.
pub fn convert_row(src: ColFmt, tgt: ColFmt, line: &[u8]) -> (out: Vec<u8>)
    requires
        src != ColFmt::Auto,
        tgt != ColFmt::Auto,
        line@.len() as int % src.bytes_pp_spec() == 0,
    ensures
        out@ == convert_row_spec(src, tgt, line@),
{
    let s = src.bytes_pp();
    let t = tgt.bytes_pp();
    let len = line.len();
    let n = len / s;
    proof {
        assert(n * s == line@.len()) by {
            vstd::arithmetic::div_mod::lemma_fundamental_div_mod(len as int, s as int);
        }
        assert(convert_row_spec(src, tgt, line@).len() == n * t);
    }
    let mut out: Vec<u8> = Vec::new();
    let mut k: usize = 0;
    while k < n
        invariant
            src != ColFmt::Auto,
            tgt != ColFmt::Auto,
            s == src.bytes_pp_spec(),
            t == tgt.bytes_pp_spec(),
            1 <= s <= 4,
            1 <= t <= 4,
            len == line@.len(),
            n * s == len,
            k <= n,
            out@.len() == k * t,
            forall|i: int|
                0 <= i < k * t ==> out@[i] == convert_row_spec(src, tgt, line@)[i],
        decreases n - k,
    {
        proof {
            assert(k * s + s <= n * s && (k + 1) * t <= n * t) by (nonlinear_arith)
                requires
                    k < n,
                    s >= 1,
                    t >= 1,
            ;
            assert(k * t + t == (k + 1) * t) by (nonlinear_arith);
        }
        let base = k * s;
        let c = read_px(src, line, base);
        let ghost px = line@.subrange(k * s, k * s + s);
        push_px(tgt, c, &mut out);
        proof {
            assert(out@.subrange(k * t, k * t + t) =~= convert_px_spec(src, tgt, px));
            assert forall|i: int| k * t <= i < k * t + t implies #[trigger] out@[i]
                == convert_row_spec(src, tgt, line@)[i] by {
                let j = i - k * t;
                vstd::arithmetic::div_mod::lemma_fundamental_div_mod_converse(
                    i,
                    t as int,
                    k as int,
                    j,
                );
                assert(out@.subrange(k * t, k * t + t)[j] == out@[i]);
            }
        }
        k = k + 1;
        proof {
            assert(out@.len() == k * t);
            assert forall|i: int| 0 <= i < k * t implies #[trigger] out@[i] == convert_row_spec(
                src,
                tgt,
                line@,
            )[i] by {
                assert((k - 1) * t + t == k * t) by (nonlinear_arith);
            }
        }
    }
    proof {
        assert(out@ =~= convert_row_spec(src, tgt, line@));
    }
    out
}

} // verus!
