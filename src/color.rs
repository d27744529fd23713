use vstd::prelude::*;

verus! {

/// An 8-bit RGB pixel.
#[derive(Debug, Clone, Copy, PartialEq, Eq, Structural)]
pub struct Rgb {
    pub r: u8,
    pub g: u8,
    pub b: u8,
}

/// An 8-bit luminance sample and its chrominance pair.
#[derive(Debug, Clone, Copy, PartialEq, Eq, Structural)]
pub struct YCbCr {
    pub y: u8,
    pub cb: u8,
    pub cr: u8,
}

/// Luminance handed to [`ycbcr_to_rgb`] is counted in units of `1 / LUMA_SCALE`.
pub const LUMA_SCALE: i64 = 1000;

/// `n / d` rounded to the nearest integer, halves away from zero.
pub open spec fn round_div(n: int, d: int) -> int
    recommends
        d > 0,
{
    if n >= 0 {
        (2 * n + d) / (2 * d)
    } else {
        -((-2 * n + d) / (2 * d))
    }
}

/// `v` narrowed to a byte, saturating at both ends.
pub open spec fn saturate(v: int) -> u8 {
    if v < 0 {
        0
    } else if v > 255 {
        255
    } else {
        v as u8
    }
}

/// Y = 0.299 R + 0.587 G + 0.114 B, Cb = -0.169 R - 0.331 G + 0.5 B + 128 and
/// Cr = 0.5 R - 0.419 G - 0.081 B + 128, each rounded and narrowed to a byte.
pub open spec fn ycbcr_of(p: Rgb) -> YCbCr {
    let (r, g, b) = (p.r as int, p.g as int, p.b as int);
    YCbCr {
        y: saturate(round_div(299 * r + 587 * g + 114 * b, 1000)),
        cb: saturate(round_div(-169 * r - 331 * g + 500 * b + 128000, 1000)),
        cr: saturate(round_div(500 * r - 419 * g - 81 * b + 128000, 1000)),
    }
}

/// R = Y + 1.402 (Cr - 128), G = Y - 0.34414 (Cb - 128) - 0.71414 (Cr - 128) and
/// B = Y + 1.772 (Cb - 128), each rounded and narrowed to a byte, where Y is
/// `luma / LUMA_SCALE`.
pub open spec fn rgb_of(luma: int, cb: u8, cr: u8) -> Rgb {
    let (u, v) = (cb as int - 128, cr as int - 128);
    Rgb {
        r: saturate(round_div(100 * luma + 140200 * v, 100000)),
        g: saturate(round_div(100 * luma - 34414 * u - 71414 * v, 100000)),
        b: saturate(round_div(100 * luma + 177200 * u, 100000)),
    }
}

/// `n / d` rounded halves away from zero, then narrowed to a byte.
fn round_div_saturate(n: i128, d: i128) -> (r: u8)
    requires
        0 < d <= 1_000_000,
        -1_000_000_000_000_000_000_000_000 <= n <= 1_000_000_000_000_000_000_000_000,
    ensures
        r == saturate(round_div(n as int, d as int)),
{
    let q: i128 = if n >= 0 {
        (2 * n + d) / (2 * d)
    } else {
        let m: i128 = d - 2 * n;
        let t: i128 = m / (2 * d);
        assert(0 <= t <= m) by (nonlinear_arith)
            requires
                m >= 0,
                d > 0,
                t as int == m as int / (2 * d as int),
        ;
        -t
    };
    if q < 0 {
        0
    } else if q > 255 {
        255
    } else {
        q as u8
    }
}

/// Splits a pixel into luminance and chrominance.
pub fn rgb_to_ycbcr(p: Rgb) -> (r: YCbCr)
    ensures
        r == ycbcr_of(p),
{
    let (r, g, b) = (p.r as i128, p.g as i128, p.b as i128);
    YCbCr {
        y: round_div_saturate(299 * r + 587 * g + 114 * b, 1000),
        cb: round_div_saturate(-169 * r - 331 * g + 500 * b + 128000, 1000),
        cr: round_div_saturate(500 * r - 419 * g - 81 * b + 128000, 1000),
    }
}

/// Rebuilds a pixel from a luminance, in units of `1 / LUMA_SCALE`, and a
/// chrominance pair.
pub fn ycbcr_to_rgb(luma: i64, cb: u8, cr: u8) -> (r: Rgb)
    ensures
        r == rgb_of(luma as int, cb, cr),
{
    let l = luma as i128;
    let (u, v) = (cb as i128 - 128, cr as i128 - 128);
    Rgb {
        r: round_div_saturate(100 * l + 140200 * v, 100000),
        g: round_div_saturate(100 * l - 34414 * u - 71414 * v, 100000),
        b: round_div_saturate(100 * l + 177200 * u, 100000),
    }
}

/// A neutral gray (R = G = B) survives conversion to YCbCr and back unchanged.
pub proof fn lemma_gray_round_trip(v: u8)
    ensures
        ({
            let c = ycbcr_of(Rgb { r: v, g: v, b: v });
            rgb_of(c.y as int * LUMA_SCALE as int, c.cb, c.cr) == Rgb { r: v, g: v, b: v }
        }),
{
    let g = Rgb { r: v, g: v, b: v };
    let c = ycbcr_of(g);
    let x = v as int;
    assert((2 * (1000 * x) + 1000) / 2000 == x) by (nonlinear_arith)
        requires
            0 <= x,
    ;
    assert(299 * x + 587 * x + 114 * x == 1000 * x);
    assert(round_div(299 * x + 587 * x + 114 * x, 1000) == x);
    assert(round_div(-169 * x - 331 * x + 500 * x + 128000, 1000) == 128);
    assert(round_div(500 * x - 419 * x - 81 * x + 128000, 1000) == 128);
    assert(c.y == v && c.cb == 128 && c.cr == 128);
    assert((2 * (100 * (x * 1000)) + 100000) / 200000 == x) by (nonlinear_arith)
        requires
            0 <= x,
    ;
    assert(round_div(100 * (x * 1000), 100000) == x);
}

} // verus!
