use vstd::prelude::*;

use crate::color::{rgb_of, rgb_to_ycbcr, ycbcr_of, ycbcr_to_rgb, Rgb};

verus! {

/// Why a raster could not be built or compared.
#[derive(Debug, Clone, Copy, PartialEq, Eq, Structural)]
pub enum RasterError {
    /// The number of samples differs from width times height.
    SizeMismatch,
    /// Two rasters that must be the same size are not.
    DimensionMismatch,
}

/// A grid of RGB pixels, row-major from the top-left corner.
pub struct Raster {
    width: u32,
    height: u32,
    pixels: Vec<Rgb>,
}

/// The chrominance pair of a pixel.
#[derive(Debug, Clone, Copy, PartialEq, Eq, Structural)]
pub struct Chroma {
    pub cb: u8,
    pub cr: u8,
}

/// A raster split into a luminance plane and a chrominance plane, both
/// flattened row-major.
pub struct Planes {
    pub luma: Vec<u8>,
    pub chroma: Vec<Chroma>,
}

/// Position of pixel (x, y) in the row-major flattening of a grid `width` wide.
pub open spec fn flat_index(width: nat, x: nat, y: nat) -> nat {
    y * width + x
}

/// The squared difference of two bytes.
pub open spec fn sq_diff(a: u8, b: u8) -> nat {
    ((a as int - b as int) * (a as int - b as int)) as nat
}

pub open spec fn pixel_sq_error(p: Rgb, q: Rgb) -> nat {
    sq_diff(p.r, q.r) + sq_diff(p.g, q.g) + sq_diff(p.b, q.b)
}

/// The sum over pixels and channels of the squared differences of `a` and `b`.
pub open spec fn sq_error_sum(a: Seq<Rgb>, b: Seq<Rgb>) -> nat
    decreases a.len(),
{
    if a.len() == 0 || b.len() == 0 {
        0
    } else {
        sq_error_sum(a.drop_last(), b.drop_last()) + pixel_sq_error(a.last(), b.last())
    }
}

/// The raster rebuilt from a luminance plane, in units of `1 / LUMA_SCALE`, and a
/// chrominance plane.
pub open spec fn recomposed(luma: Seq<i64>, chroma: Seq<Chroma>) -> Seq<Rgb> {
    Seq::new(luma.len(), |i: int| rgb_of(luma[i] as int, chroma[i].cb, chroma[i].cr))
}

impl Raster {
    #[verifier::type_invariant]
    spec fn inv(&self) -> bool {
        self.pixels@.len() == self.width * self.height
    }

    pub closed spec fn spec_width(&self) -> nat {
        self.width as nat
    }

    pub closed spec fn spec_height(&self) -> nat {
        self.height as nat
    }

    /// The pixels, row-major.
    pub closed spec fn spec_pixels(&self) -> Seq<Rgb> {
        self.pixels@
    }

    /// A raster of the given size over row-major pixels; fails when their number
    /// is not `width * height`.
    pub fn new(width: u32, height: u32, pixels: Vec<Rgb>) -> (r: Result<Raster, RasterError>)
        ensures
            pixels@.len() == width * height <==> r is Ok,
            r matches Ok(raster) ==> raster.spec_width() == width && raster.spec_height()
                == height && raster.spec_pixels() == pixels@,
            r matches Err(e) ==> e == RasterError::SizeMismatch,
    {
        if pixels.len() as u64 == area(width, height) {
            Ok(Raster { width, height, pixels })
        } else {
            Err(RasterError::SizeMismatch)
        }
    }

    pub fn width(&self) -> (r: u32)
        ensures
            r == self.spec_width(),
    {
        self.width
    }

    pub fn height(&self) -> (r: u32)
        ensures
            r == self.spec_height(),
    {
        self.height
    }

    /// The pixels, row-major.
    pub fn pixels(&self) -> (r: &Vec<Rgb>)
        ensures
            r@ == self.spec_pixels(),
            r@.len() == self.spec_width() * self.spec_height(),
    {
        proof {
            use_type_invariant(self);
        }
        &self.pixels
    }

    /// The pixel in column `x` of row `y`.
    pub fn pixel(&self, x: u32, y: u32) -> (r: Rgb)
        requires
            x < self.spec_width(),
            y < self.spec_height(),
        ensures
            r == self.spec_pixels()[flat_index(self.spec_width(), x as nat, y as nat) as int],
    {
        let n = self.pixels.len();
        proof {
            use_type_invariant(self);
            assert(y * self.width <= y * self.width + x < self.width * self.height)
                by (nonlinear_arith)
                requires
                    x < self.width,
                    y < self.height,
            ;
            assert(y * self.width + x < n);
        }
        let i = y as usize * self.width as usize + x as usize;
        self.pixels[i]
    }

    /// Splits every pixel into luminance and chrominance, keeping row-major order.
    pub fn to_planes(&self) -> (r: Planes)
        ensures
            r.luma@.len() == self.spec_width() * self.spec_height(),
            r.luma@.len() == self.spec_pixels().len(),
            r.chroma@.len() == self.spec_pixels().len(),
            forall|i: int|
                0 <= i < r.luma@.len() ==> {
                    let c = #[trigger] ycbcr_of(self.spec_pixels()[i]);
                    r.luma@[i] == c.y && r.chroma@[i] == (Chroma { cb: c.cb, cr: c.cr })
                },
    {
        proof {
            use_type_invariant(self);
        }
        let n = self.pixels.len();
        let mut luma: Vec<u8> = Vec::with_capacity(n);
        let mut chroma: Vec<Chroma> = Vec::with_capacity(n);
        let mut i: usize = 0;
        while i < n
            invariant
                n == self.pixels@.len(),
                i <= n,
                luma@.len() == i,
                chroma@.len() == i,
                forall|j: int|
                    0 <= j < i ==> {
                        let c = #[trigger] ycbcr_of(self.pixels@[j]);
                        luma@[j] == c.y && chroma@[j] == (Chroma { cb: c.cb, cr: c.cr })
                    },
            decreases n - i,
        {
            let c = rgb_to_ycbcr(self.pixels[i]);
            luma.push(c.y);
            chroma.push(Chroma { cb: c.cb, cr: c.cr });
            i = i + 1;
        }
        Planes { luma, chroma }
    }

    /// Rebuilds a raster of the given size from a luminance plane, in units of
    /// `1 / LUMA_SCALE`, and a chrominance plane, both row-major; fails when
    /// either plane does not hold `width * height` samples.
    pub fn from_planes(width: u32, height: u32, luma: &Vec<i64>, chroma: &Vec<Chroma>) -> (r:
        Result<Raster, RasterError>)
        ensures
            (luma@.len() == width * height && chroma@.len() == width * height) <==> r is Ok,
            r matches Ok(raster) ==> raster.spec_width() == width && raster.spec_height()
                == height && raster.spec_pixels() == recomposed(luma@, chroma@),
            r matches Err(e) ==> e == RasterError::SizeMismatch,
    {
        let n = luma.len();
        if n as u64 != area(width, height) || chroma.len() != n {
            return Err(RasterError::SizeMismatch);
        }
        let mut pixels: Vec<Rgb> = Vec::with_capacity(n);
        let mut i: usize = 0;
        while i < n
            invariant
                n == luma@.len(),
                n == chroma@.len(),
                i <= n,
                pixels@.len() == i,
                forall|j: int|
                    0 <= j < i ==> pixels@[j] == rgb_of(
                        luma@[j] as int,
                        chroma@[j].cb,
                        chroma@[j].cr,
                    ),
            decreases n - i,
        {
            pixels.push(ycbcr_to_rgb(luma[i], chroma[i].cb, chroma[i].cr));
            i = i + 1;
        }
        assert(pixels@ =~= recomposed(luma@, chroma@));
        Ok(Raster { width, height, pixels })
    }

    /// The sum over all pixels and channels of the squared difference between
    /// `self` and `other`; fails when their sizes differ.
    pub fn squared_error_sum(&self, other: &Raster) -> (r: Result<u128, RasterError>)
        ensures
            (self.spec_width() == other.spec_width() && self.spec_height()
                == other.spec_height()) <==> r is Ok,
            r matches Ok(v) ==> v == sq_error_sum(self.spec_pixels(), other.spec_pixels()),
            r matches Err(e) ==> e == RasterError::DimensionMismatch,
    {
        proof {
            use_type_invariant(self);
            use_type_invariant(other);
        }
        if self.width != other.width || self.height != other.height {
            return Err(RasterError::DimensionMismatch);
        }
        let n = self.pixels.len();
        let mut sum: u128 = 0;
        let mut i: usize = 0;
        while i < n
            invariant
                n == self.pixels@.len(),
                n == other.pixels@.len(),
                i <= n,
                sum == sq_error_sum(self.pixels@.subrange(0, i as int), other.pixels@.subrange(0, i as int)),
                sum <= 195075 * i,
            decreases n - i,
        {
            let p = self.pixels[i];
            let q = other.pixels[i];
            let e = byte_sq_diff(p.r, q.r) + byte_sq_diff(p.g, q.g) + byte_sq_diff(p.b, q.b);
            proof {
                let a = self.pixels@.subrange(0, i + 1);
                let b = other.pixels@.subrange(0, i + 1);
                assert(a.drop_last() =~= self.pixels@.subrange(0, i as int));
                assert(b.drop_last() =~= other.pixels@.subrange(0, i as int));
            }
            sum = sum + e as u128;
            i = i + 1;
        }
        assert(self.pixels@.subrange(0, n as int) =~= self.pixels@);
        assert(other.pixels@.subrange(0, n as int) =~= other.pixels@);
        Ok(sum)
    }
}

/// The number of pixels in a grid of the given size.
fn area(width: u32, height: u32) -> (r: u64)
    ensures
        r == width * height,
{
    assert(width * height <= 0xffff_ffff * 0xffff_ffff) by (nonlinear_arith)
        requires
            width <= 0xffff_ffff,
            height <= 0xffff_ffff,
    ;
    width as u64 * height as u64
}

fn byte_sq_diff(a: u8, b: u8) -> (r: u32)
    ensures
        r == sq_diff(a, b),
        r <= 65025,
{
    let d: u32 = if a >= b {
        (a - b) as u32
    } else {
        (b - a) as u32
    };
    assert(d * d <= 65025) by (nonlinear_arith)
        requires
            d <= 255,
    ;
    assert(d * d == (a as int - b as int) * (a as int - b as int)) by (nonlinear_arith)
        requires
            d == a - b || d == b - a,
    ;
    d * d
}

} // verus!
