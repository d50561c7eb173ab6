use vstd::prelude::*;
use crate::point::ComplexPoint;

verus! {

/// Why a render configuration was rejected.
#[derive(Clone, Copy, Debug, PartialEq, Eq, Structural)]
pub enum ConfigError {
    /// Width or height is zero.
    EmptyImage,
    /// `width * height` does not fit in memory addressing.
    ImageTooLarge,
    /// The thread count is zero.
    NoWorkers,
    /// The real range has `max <= min`.
    EmptyRealRange,
    /// The imaginary range has `max <= min`.
    EmptyImaginaryRange,
    /// An imaginary range derived from a center does not fit the
    /// fixed-point type.
    ImaginaryOutOfRange,
    /// The iteration budget is zero.
    ZeroIterations,
    /// The brightness scale factor is zero.
    ZeroColorFactor,
}

/// Everything one render reads: the viewport (fixed-point corners and pixel
/// size), the iteration budget, the brightness scale factor and the number
/// of workers, with the per-axis pixel step computed once.
#[derive(Clone, Copy, Debug)]
pub struct RenderConfig {
    pub rmin: i64,
    pub rmax: i64,
    pub imin: i64,
    pub imax: i64,
    pub width: usize,
    pub height: usize,
    pub iterations: u32,
    pub color_factor: u32,
    pub threads: usize,
    /// `(rmax - rmin) / width`, rounded down.
    pub rstep: i128,
    /// `(imax - imin) / height`, rounded down.
    pub istep: i128,
}

/// The first rule that the given parameters break, if any.
pub open spec fn config_error(
    rmin: int,
    rmax: int,
    imin: int,
    imax: int,
    width: int,
    height: int,
    iterations: int,
    color_factor: int,
    threads: int,
) -> Option<ConfigError> {
    if width <= 0 || height <= 0 {
        Some(ConfigError::EmptyImage)
    } else if width * height > usize::MAX {
        Some(ConfigError::ImageTooLarge)
    } else if threads <= 0 {
        Some(ConfigError::NoWorkers)
    } else if rmax <= rmin {
        Some(ConfigError::EmptyRealRange)
    } else if imax <= imin {
        Some(ConfigError::EmptyImaginaryRange)
    } else if iterations <= 0 {
        Some(ConfigError::ZeroIterations)
    } else if color_factor <= 0 {
        Some(ConfigError::ZeroColorFactor)
    } else {
        None
    }
}

/// The imaginary range centered on `icenter` whose height keeps the aspect
/// ratio of the image: `(rmax - rmin) * height / width` (rounded down),
/// starting half of it below the center (rounded down).
pub open spec fn centered_range(rmin: int, rmax: int, icenter: int, width: int, height: int) -> (
    int,
    int,
) {
    let span = (rmax - rmin) * height / width;
    let lo = icenter - span / 2;
    (lo, lo + span)
}

/// Whether an integer fits an `i64`.
pub open spec fn fits_i64(v: int) -> bool {
    i64::MIN <= v <= i64::MAX
}

impl RenderConfig {
    /// The configuration is valid and its steps are those of its ranges.
    pub open spec fn wf(&self) -> bool {
        &&& config_error(
            self.rmin as int,
            self.rmax as int,
            self.imin as int,
            self.imax as int,
            self.width as int,
            self.height as int,
            self.iterations as int,
            self.color_factor as int,
            self.threads as int,
        ) is None
        &&& self.rstep == (self.rmax - self.rmin) / (self.width as int)
        &&& self.istep == (self.imax - self.imin) / (self.height as int)
    }

    /// Real part of the points in pixel column `x`: `x * step + rmin`.
    pub open spec fn point_re(&self, x: int) -> int {
        x * ((self.rmax - self.rmin) / (self.width as int)) + self.rmin
    }

    /// Imaginary part of the points in pixel row `y`: `y * step + imin`.
    pub open spec fn point_im(&self, y: int) -> int {
        y * ((self.imax - self.imin) / (self.height as int)) + self.imin
    }

    /// Checks the parameters of a render and computes the pixel steps.
    pub fn new(
        rmin: i64,
        rmax: i64,
        imin: i64,
        imax: i64,
        width: usize,
        height: usize,
        iterations: u32,
        color_factor: u32,
        threads: usize,
    ) -> (r: Result<RenderConfig, ConfigError>)
        ensures
            match config_error(
                rmin as int,
                rmax as int,
                imin as int,
                imax as int,
                width as int,
                height as int,
                iterations as int,
                color_factor as int,
                threads as int,
            ) {
                Some(e) => r == Err::<RenderConfig, ConfigError>(e),
                None => r is Ok && r->Ok_0.wf() && r->Ok_0.rmin == rmin && r->Ok_0.rmax == rmax
                    && r->Ok_0.imin == imin && r->Ok_0.imax == imax && r->Ok_0.width == width
                    && r->Ok_0.height == height && r->Ok_0.iterations == iterations
                    && r->Ok_0.color_factor == color_factor && r->Ok_0.threads == threads,
            },
    {
        if width == 0 || height == 0 {
            return Err(ConfigError::EmptyImage);
        }
        if width > usize::MAX / height {
            proof {
                assert(width * height > usize::MAX) by (nonlinear_arith)
                    requires width > usize::MAX / height, height > 0;
            }
            return Err(ConfigError::ImageTooLarge);
        }
        proof {
            assert(width * height <= usize::MAX) by (nonlinear_arith)
                requires width <= usize::MAX / height, height > 0;
        }
        if threads == 0 {
            return Err(ConfigError::NoWorkers);
        }
        if rmax <= rmin {
            return Err(ConfigError::EmptyRealRange);
        }
        if imax <= imin {
            return Err(ConfigError::EmptyImaginaryRange);
        }
        if iterations == 0 {
            return Err(ConfigError::ZeroIterations);
        }
        if color_factor == 0 {
            return Err(ConfigError::ZeroColorFactor);
        }
        let rstep: i128 = (rmax as i128 - rmin as i128) / (width as i128);
        let istep: i128 = (imax as i128 - imin as i128) / (height as i128);
        Ok(RenderConfig {
            rmin,
            rmax,
            imin,
            imax,
            width,
            height,
            iterations,
            color_factor,
            threads,
            rstep,
            istep,
        })
    }

    /// Like `new`, with the imaginary range derived from its center so that
    /// pixels are square (see `centered_range`).
    pub fn centered(
        rmin: i64,
        rmax: i64,
        icenter: i64,
        width: usize,
        height: usize,
        iterations: u32,
        color_factor: u32,
        threads: usize,
    ) -> (r: Result<RenderConfig, ConfigError>)
        ensures
            width == 0 || height == 0 ==> r == Err::<RenderConfig, ConfigError>(
                ConfigError::EmptyImage,
            ),
            width > 0 && height > 0 && rmax <= rmin ==> r == Err::<RenderConfig, ConfigError>(
                ConfigError::EmptyRealRange,
            ),
            width > 0 && height > 0 && rmax > rmin ==> {
                let (lo, hi) = centered_range(
                    rmin as int,
                    rmax as int,
                    icenter as int,
                    width as int,
                    height as int,
                );
                if !fits_i64(lo) || !fits_i64(hi) {
                    r == Err::<RenderConfig, ConfigError>(ConfigError::ImaginaryOutOfRange)
                } else {
                    match config_error(
                        rmin as int,
                        rmax as int,
                        lo,
                        hi,
                        width as int,
                        height as int,
                        iterations as int,
                        color_factor as int,
                        threads as int,
                    ) {
                        Some(e) => r == Err::<RenderConfig, ConfigError>(e),
                        None => r is Ok && r->Ok_0.wf() && r->Ok_0.rmin == rmin && r->Ok_0.rmax
                            == rmax && r->Ok_0.imin == lo && r->Ok_0.imax == hi && r->Ok_0.width
                            == width && r->Ok_0.height == height && r->Ok_0.iterations
                            == iterations && r->Ok_0.color_factor == color_factor
                            && r->Ok_0.threads == threads,
                    }
                }
            },
    {
        if width == 0 || height == 0 {
            return Err(ConfigError::EmptyImage);
        }
        if rmax <= rmin {
            return Err(ConfigError::EmptyRealRange);
        }
        let rw: u128 = (rmax as i128 - rmin as i128) as u128;
        proof {
            assert(rw * height <= 0xffff_ffff_ffff_ffff * 0xffff_ffff_ffff_ffffu128) by (nonlinear_arith)
                requires rw <= 0xffff_ffff_ffff_ffff, height <= 0xffff_ffff_ffff_ffff;
        }
        let span: u128 = rw * (height as u128) / (width as u128);
        proof {
            assert(span <= rw * height) by (nonlinear_arith)
                requires span == (rw * height) / (width as int), width >= 1, rw * height >= 0;
        }
        if span > 0x7fff_ffff_ffff_ffff_ffff_ffff_ffffu128 {
            proof {
                assert(!fits_i64(icenter - span / 2 + span));
            }
            return Err(ConfigError::ImaginaryOutOfRange);
        }
        let lo: i128 = icenter as i128 - (span as i128) / 2;
        let hi: i128 = lo + span as i128;
        if lo < i64::MIN as i128 || lo > i64::MAX as i128 || hi < i64::MIN as i128 || hi
            > i64::MAX as i128 {
            return Err(ConfigError::ImaginaryOutOfRange);
        }
        Self::new(rmin, rmax, lo as i64, hi as i64, width, height, iterations, color_factor, threads)
    }

    /// Maps pixel `(x, y)` to its point of the complex plane.
    pub fn pixel_point(&self, x: usize, y: usize) -> (r: ComplexPoint)
        requires
            self.wf(),
            x < self.width,
            y < self.height,
        ensures
            r.re == self.point_re(x as int),
            r.im == self.point_im(y as int),
    {
        proof {
            lemma_offset_within(self.rmax - self.rmin, self.width as int, x as int);
            lemma_offset_within(self.imax - self.imin, self.height as int, y as int);
        }
        let re = x as i128 * self.rstep + self.rmin as i128;
        let im = y as i128 * self.istep + self.imin as i128;
        ComplexPoint { re: re as i64, im: im as i64 }
    }
}

/// `x` whole steps of `d / w`, for `x < w`, stay within `[0, d]`.
proof fn lemma_offset_within(d: int, w: int, x: int)
    requires
        d > 0,
        w > 0,
        0 <= x < w,
    ensures
        0 <= x * (d / w) <= d,
{
    let q = d / w;
    assert(d == w * q + d % w) by {
        vstd::arithmetic::div_mod::lemma_fundamental_div_mod(d, w);
    }
    assert(0 <= d % w);
    assert(q >= 0) by {
        vstd::arithmetic::div_mod::lemma_div_pos_is_pos(d, w);
    }
    assert(0 <= x * q <= w * q) by (nonlinear_arith)
        requires 0 <= x < w, q >= 0;
}

} // verus!
