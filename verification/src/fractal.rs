//! The Julia-set model: viewport bounds and the escape-time computation.
//!
//! A [`Bounds`] value is the axis-aligned rectangle of the complex plane
//! mapped onto the pixel grid; zooming and panning are driven by normalized
//! cursor coordinates in `[0, 1]` and a signed, frame-time-proportional
//! factor, and both keep the rectangle non-degenerate. A [`JuliaFractal`]
//! couples the bounds with the added complex parameter and turns a
//! normalized pixel coordinate into an escape-iteration count: iterate
//! `z := z^2 + add` until `|z|^2 >= 4`, up to the iteration budget, and
//! report how many steps completed; the budget itself is the
//! inside-the-set sentinel.

use vstd::prelude::*;
use crate::fixed::{fmul, mul_fixed, trunc_div, div_trunc, Fixed, ONE};

verus! {

/// Largest raw magnitude viewport corners may reach before a transform.
pub const COORD_LIMIT: i64 = 68719476736;

/// Largest raw magnitude allowed for the Julia parameter's components: the
/// parameter is picked from the cursor with a 4x magnification, so its
/// components stay within 4.
pub const ADD_LIMIT: i64 = 67108864;

/// Raw representation of one half, the screen center.
pub const HALF: i64 = 8388608;

/// A complex number with fixed-point components.
#[derive(Clone, Copy, PartialEq, Eq, Structural, Debug)]
pub struct Complex {
    pub re: Fixed,
    pub im: Fixed,
}

/// The visible rectangle `[x0, x1] x [y0, y1]` of the complex plane.
#[derive(Clone, Copy, PartialEq, Eq, Structural, Debug)]
pub struct Bounds {
    pub x0: Fixed,
    pub x1: Fixed,
    pub y0: Fixed,
    pub y1: Fixed,
}

/// Where the lower bound of an interval moves under a zoom toward cursor
/// coordinate `c` with factor `dt`.
pub open spec fn zoom_lo(lo: int, hi: int, c: int, dt: int) -> int {
    lo + fmul(c, fmul(hi - lo, dt))
}

/// Where the upper bound of an interval moves under the same zoom.
pub open spec fn zoom_hi(lo: int, hi: int, c: int, dt: int) -> int {
    hi - fmul((ONE as int) - c, fmul(hi - lo, dt))
}

/// The pan step shared by both axes: proportional to the two spans and to
/// the factor `dt`.
pub open spec fn pan_scale(sx: int, sy: int, dt: int) -> int {
    fmul(sx + sy, dt)
}

/// How far one axis pans: its cursor offset from the screen center times
/// the shared pan step.
pub open spec fn pan_delta(c: int, scale: int) -> int {
    fmul(c - (HALF as int), scale)
}

impl Bounds {
    /// The intervals are never collapsed or inverted.
    pub open spec fn wf(self) -> bool {
        self.x0.raw < self.x1.raw && self.y0.raw < self.y1.raw
    }

    /// The corners are small enough for a further transform to stay exact.
    pub open spec fn in_range(self) -> bool {
        &&& -COORD_LIMIT <= self.x0.raw <= COORD_LIMIT
        &&& -COORD_LIMIT <= self.x1.raw <= COORD_LIMIT
        &&& -COORD_LIMIT <= self.y0.raw <= COORD_LIMIT
        &&& -COORD_LIMIT <= self.y1.raw <= COORD_LIMIT
    }

    /// Runtime check for [`Bounds::in_range`], for callers that cannot track
    /// the corner magnitudes themselves.
    pub fn check_in_range(&self) -> (b: bool)
        ensures
            b == self.in_range(),
    {
        -COORD_LIMIT <= self.x0.raw && self.x0.raw <= COORD_LIMIT
            && -COORD_LIMIT <= self.x1.raw && self.x1.raw <= COORD_LIMIT
            && -COORD_LIMIT <= self.y0.raw && self.y0.raw <= COORD_LIMIT
            && -COORD_LIMIT <= self.y1.raw && self.y1.raw <= COORD_LIMIT
    }

    /// A viewport spanning `[lower, upper]` vertically, widened by the
    /// window's aspect ratio horizontally. Degenerate spans are ruled out
    /// up front.
    pub fn new(lower: Fixed, upper: Fixed, aspect_ratio_xy: Fixed) -> (b: Bounds)
        requires
            lower.raw < upper.raw,
            -COORD_LIMIT / 4 <= lower.raw <= COORD_LIMIT / 4,
            -COORD_LIMIT / 4 <= upper.raw <= COORD_LIMIT / 4,
            0 < aspect_ratio_xy.raw <= 4 * ONE,
            fmul(lower.raw as int, aspect_ratio_xy.raw as int)
                < fmul(upper.raw as int, aspect_ratio_xy.raw as int),
        ensures
            b.x0.raw == fmul(lower.raw as int, aspect_ratio_xy.raw as int),
            b.x1.raw == fmul(upper.raw as int, aspect_ratio_xy.raw as int),
            b.y0.raw == lower.raw,
            b.y1.raw == upper.raw,
            b.wf(),
            b.in_range(),
    {
        proof {
            assert(-0x4000_0000_0000_0000 <= lower.raw * aspect_ratio_xy.raw
                <= 0x4000_0000_0000_0000) by (nonlinear_arith)
                requires
                    -17179869184 <= lower.raw <= 17179869184,
                    0 < aspect_ratio_xy.raw <= 4 * 16777216,
            ;
            assert(-0x4000_0000_0000_0000 <= upper.raw * aspect_ratio_xy.raw
                <= 0x4000_0000_0000_0000) by (nonlinear_arith)
                requires
                    -17179869184 <= upper.raw <= 17179869184,
                    0 < aspect_ratio_xy.raw <= 4 * 16777216,
            ;
        }
        let x0: i64 = mul_fixed(lower.raw, aspect_ratio_xy.raw);
        let x1: i64 = mul_fixed(upper.raw, aspect_ratio_xy.raw);
        proof {
            crate::fixed::lemma_trunc_div_mag(
                lower.raw * aspect_ratio_xy.raw,
                ONE as int,
                0x4000_0000_0000_0000,
            );
            crate::fixed::lemma_trunc_div_mag(
                upper.raw * aspect_ratio_xy.raw,
                ONE as int,
                0x4000_0000_0000_0000,
            );
            assert(-COORD_LIMIT <= x0 <= COORD_LIMIT) by {
                assert(-17179869184 * (4 * 16777216) <= lower.raw * aspect_ratio_xy.raw
                    <= 17179869184 * (4 * 16777216)) by (nonlinear_arith)
                    requires
                        -17179869184 <= lower.raw <= 17179869184,
                        0 < aspect_ratio_xy.raw <= 4 * 16777216,
                ;
                crate::fixed::lemma_trunc_div_mag(
                    lower.raw * aspect_ratio_xy.raw,
                    ONE as int,
                    17179869184int * (4 * 16777216),
                );
                crate::fixed::lemma_trunc_div_ordered(
                    -(17179869184 * (4 * 16777216)),
                    lower.raw * aspect_ratio_xy.raw,
                    ONE as int,
                );
                crate::fixed::lemma_trunc_div_ordered(
                    lower.raw * aspect_ratio_xy.raw,
                    17179869184int * (4 * 16777216),
                    ONE as int,
                );
            }
            assert(-COORD_LIMIT <= x1 <= COORD_LIMIT) by {
                assert(-17179869184 * (4 * 16777216) <= upper.raw * aspect_ratio_xy.raw
                    <= 17179869184 * (4 * 16777216)) by (nonlinear_arith)
                    requires
                        -17179869184 <= upper.raw <= 17179869184,
                        0 < aspect_ratio_xy.raw <= 4 * 16777216,
                ;
                crate::fixed::lemma_trunc_div_ordered(
                    -(17179869184 * (4 * 16777216)),
                    upper.raw * aspect_ratio_xy.raw,
                    ONE as int,
                );
                crate::fixed::lemma_trunc_div_ordered(
                    upper.raw * aspect_ratio_xy.raw,
                    17179869184int * (4 * 16777216),
                    ONE as int,
                );
            }
        }
        Bounds {
            x0: Fixed { raw: x0 },
            x1: Fixed { raw: x1 },
            y0: lower,
            y1: upper,
        }
    }

    /// Zooms toward the cursor: the cursor coordinates are inverted so the
    /// point under the cursor stays fixed, then each bound moves inward (or
    /// outward for a negative factor) by its share of the scaled span.
    pub fn zoom(&mut self, x: Fixed, y: Fixed, delta_time: Fixed)
        requires
            old(self).wf(),
            old(self).in_range(),
            0 <= x.raw <= ONE,
            0 <= y.raw <= ONE,
            -ONE < delta_time.raw < ONE,
        ensures
            final(self).x0.raw == zoom_lo(
                old(self).x0.raw as int,
                old(self).x1.raw as int,
                x.raw as int,
                delta_time.raw as int,
            ),
            final(self).x1.raw == zoom_hi(
                old(self).x0.raw as int,
                old(self).x1.raw as int,
                x.raw as int,
                delta_time.raw as int,
            ),
            final(self).y0.raw == zoom_lo(
                old(self).y0.raw as int,
                old(self).y1.raw as int,
                y.raw as int,
                delta_time.raw as int,
            ),
            final(self).y1.raw == zoom_hi(
                old(self).y0.raw as int,
                old(self).y1.raw as int,
                y.raw as int,
                delta_time.raw as int,
            ),
            final(self).wf(),
    {
        let xc: i64 = ONE - x.raw;
        let yc: i64 = ONE - y.raw;
        let sx: i64 = self.x1.raw - self.x0.raw;
        let sy: i64 = self.y1.raw - self.y0.raw;
        proof {
            assert(-0x4000_0000_0000_0000 <= sx * delta_time.raw <= 0x4000_0000_0000_0000
                && -0x4000_0000_0000_0000 <= sy * delta_time.raw <= 0x4000_0000_0000_0000)
                by (nonlinear_arith)
                requires
                    0 < sx <= 2 * 68719476736i64,
                    0 < sy <= 2 * 68719476736i64,
                    -16777216 < delta_time.raw < 16777216,
            ;
        }
        let scale_x: i64 = mul_fixed(sx, delta_time.raw);
        let scale_y: i64 = mul_fixed(sy, delta_time.raw);
        proof {
            crate::fixed::lemma_fmul_in_one(sx as int, delta_time.raw as int, 2 * COORD_LIMIT);
            crate::fixed::lemma_fmul_in_one(sy as int, delta_time.raw as int, 2 * COORD_LIMIT);
            assert(-0x4000_0000_0000_0000 <= (ONE - xc) * scale_x <= 0x4000_0000_0000_0000
                && -0x4000_0000_0000_0000 <= xc * scale_x <= 0x4000_0000_0000_0000
                && -0x4000_0000_0000_0000 <= (ONE - yc) * scale_y <= 0x4000_0000_0000_0000
                && -0x4000_0000_0000_0000 <= yc * scale_y <= 0x4000_0000_0000_0000)
                by (nonlinear_arith)
                requires
                    0 <= xc <= 16777216,
                    0 <= yc <= 16777216,
                    -2 * 68719476736i64 <= scale_x <= 2 * 68719476736i64,
                    -2 * 68719476736i64 <= scale_y <= 2 * 68719476736i64,
            ;
        }
        let dx0: i64 = mul_fixed(ONE - xc, scale_x);
        let dx1: i64 = mul_fixed(xc, scale_x);
        let dy0: i64 = mul_fixed(ONE - yc, scale_y);
        let dy1: i64 = mul_fixed(yc, scale_y);
        proof {
            lemma_fmul_commute(ONE - xc as int, scale_x as int);
            lemma_fmul_commute(xc as int, scale_x as int);
            lemma_fmul_commute(ONE - yc as int, scale_y as int);
            lemma_fmul_commute(yc as int, scale_y as int);
            crate::fixed::lemma_fmul_in_one(scale_x as int, (ONE - xc) as int, 2 * COORD_LIMIT);
            crate::fixed::lemma_fmul_in_one(scale_x as int, xc as int, 2 * COORD_LIMIT);
            crate::fixed::lemma_fmul_in_one(scale_y as int, (ONE - yc) as int, 2 * COORD_LIMIT);
            crate::fixed::lemma_fmul_in_one(scale_y as int, yc as int, 2 * COORD_LIMIT);
            lemma_zoom_keeps_span(
                self.x0.raw as int,
                self.x1.raw as int,
                (ONE - xc) as int,
                delta_time.raw as int,
            );
            lemma_zoom_keeps_span(
                self.y0.raw as int,
                self.y1.raw as int,
                (ONE - yc) as int,
                delta_time.raw as int,
            );
        }
        self.x0 = Fixed { raw: self.x0.raw + dx0 };
        self.x1 = Fixed { raw: self.x1.raw - dx1 };
        self.y0 = Fixed { raw: self.y0.raw + dy0 };
        self.y1 = Fixed { raw: self.y1.raw - dy1 };
    }

    /// Pans the viewport: both bounds of each axis shift by the same delta,
    /// proportional to the spans and to the cursor's offset from the screen
    /// center.
    pub fn translate(&mut self, x: Fixed, y: Fixed, delta_time: Fixed)
        requires
            old(self).wf(),
            old(self).in_range(),
            0 <= x.raw <= ONE,
            0 <= y.raw <= ONE,
            -ONE <= delta_time.raw <= ONE,
        ensures
            ({
                let scale = pan_scale(
                    old(self).x1.raw - old(self).x0.raw,
                    old(self).y1.raw - old(self).y0.raw,
                    delta_time.raw as int,
                );
                &&& final(self).x0.raw == old(self).x0.raw + pan_delta(x.raw as int, scale)
                &&& final(self).x1.raw == old(self).x1.raw + pan_delta(x.raw as int, scale)
                &&& final(self).y0.raw == old(self).y0.raw + pan_delta(y.raw as int, scale)
                &&& final(self).y1.raw == old(self).y1.raw + pan_delta(y.raw as int, scale)
            }),
            final(self).wf(),
    {
        let sx: i64 = self.x1.raw - self.x0.raw;
        let sy: i64 = self.y1.raw - self.y0.raw;
        proof {
            assert(-0x4000_0000_0000_0000 <= (sx + sy) * delta_time.raw
                <= 0x4000_0000_0000_0000) by (nonlinear_arith)
                requires
                    0 < sx + sy <= 4 * 68719476736i64,
                    -16777216 <= delta_time.raw <= 16777216,
            ;
        }
        let scale: i64 = mul_fixed(sx + sy, delta_time.raw);
        proof {
            crate::fixed::lemma_fmul_in_one(
                (sx + sy) as int,
                delta_time.raw as int,
                4 * COORD_LIMIT,
            );
            assert(-0x4000_0000_0000_0000 <= (x.raw - HALF) * scale <= 0x4000_0000_0000_0000
                && -0x4000_0000_0000_0000 <= (y.raw - HALF) * scale <= 0x4000_0000_0000_0000)
                by (nonlinear_arith)
                requires
                    -8388608 <= x.raw - 8388608 <= 8388608,
                    -8388608 <= y.raw - 8388608 <= 8388608,
                    -4 * 68719476736i64 <= scale <= 4 * 68719476736i64,
            ;
        }
        let dx: i64 = mul_fixed(x.raw - HALF, scale);
        let dy: i64 = mul_fixed(y.raw - HALF, scale);
        proof {
            lemma_fmul_commute((x.raw - HALF) as int, scale as int);
            lemma_fmul_commute((y.raw - HALF) as int, scale as int);
            crate::fixed::lemma_fmul_in_one(scale as int, (x.raw - HALF) as int, 4 * COORD_LIMIT);
            crate::fixed::lemma_fmul_in_one(scale as int, (y.raw - HALF) as int, 4 * COORD_LIMIT);
        }
        self.x0 = Fixed { raw: self.x0.raw + dx };
        self.x1 = Fixed { raw: self.x1.raw + dx };
        self.y0 = Fixed { raw: self.y0.raw + dy };
        self.y1 = Fixed { raw: self.y1.raw + dy };
    }
}

/// Whether the orbit point `(zr, zi)` has left the escape circle:
/// `|z|^2 >= 4`, tested on squared magnitudes so no root is needed.
pub open spec fn escaped(zr: int, zi: int) -> bool {
    zr * zr + zi * zi >= 4 * (ONE as int) * (ONE as int)
}

/// Real part of one orbit step `z := z^2 + add`.
pub open spec fn step_re(zr: int, zi: int, ar: int) -> int {
    trunc_div(zr * zr - zi * zi, ONE as int) + ar
}

/// Imaginary part of one orbit step `z := z^2 + add`.
pub open spec fn step_im(zr: int, zi: int, ai: int) -> int {
    trunc_div(2 * (zr * zi), ONE as int) + ai
}

/// The escape-iteration count: how many orbit steps complete before the
/// point leaves the circle, capped at the budget. A point that starts
/// outside counts zero; a point that never leaves counts the full budget.
pub open spec fn escape_count(zr: int, zi: int, ar: int, ai: int, max_iterations: nat) -> nat
    decreases max_iterations,
{
    if escaped(zr, zi) || max_iterations == 0 {
        0
    } else {
        1 + escape_count(
            step_re(zr, zi, ar),
            step_im(zr, zi, ai),
            ar,
            ai,
            (max_iterations - 1) as nat,
        )
    }
}

/// Linear interpolation `a + w * (b - a)` in raw units, with `w` a
/// fixed-point weight in `[0, 1]`.
pub open spec fn lerp_spec(a: int, b: int, w: int) -> int {
    a + fmul(w, b - a)
}

/// Interpolates `w` of the way from `a` to `b`; the result never leaves the
/// interval the two endpoints span.
pub fn lerp(a: Fixed, b: Fixed, w: Fixed) -> (r: Fixed)
    requires
        -2 * COORD_LIMIT <= a.raw <= 2 * COORD_LIMIT,
        -2 * COORD_LIMIT <= b.raw <= 2 * COORD_LIMIT,
        0 <= w.raw <= ONE,
    ensures
        r.raw == lerp_spec(a.raw as int, b.raw as int, w.raw as int),
        a.raw <= b.raw ==> a.raw <= r.raw <= b.raw,
        b.raw < a.raw ==> b.raw <= r.raw <= a.raw,
{
    let span: i64 = b.raw - a.raw;
    proof {
        assert(-0x4000_0000_0000_0000 <= w.raw * span <= 0x4000_0000_0000_0000)
            by (nonlinear_arith)
            requires
                0 <= w.raw <= 16777216,
                -4 * 68719476736int <= span <= 4 * 68719476736int,
        ;
    }
    let d: i64 = mul_fixed(w.raw, span);
    proof {
        lemma_fmul_commute(w.raw as int, span as int);
        crate::fixed::lemma_fmul_in_one(span as int, w.raw as int, 4 * COORD_LIMIT);
        if span >= 0 {
            assert(0 <= w.raw * span && w.raw * span <= (ONE as int) * span)
                by (nonlinear_arith)
                requires
                    0 <= w.raw <= 16777216,
                    0 <= span,
            ;
            crate::fixed::lemma_trunc_div_ordered(0, w.raw * span, ONE as int);
            crate::fixed::lemma_trunc_div_ordered(w.raw * span, (ONE as int) * span, ONE as int);
            vstd::arithmetic::div_mod::lemma_div_multiples_vanish(span as int, ONE as int);
        } else {
            assert((ONE as int) * span <= w.raw * span && w.raw * span <= 0)
                by (nonlinear_arith)
                requires
                    0 <= w.raw <= 16777216,
                    span < 0,
            ;
            crate::fixed::lemma_trunc_div_ordered(w.raw * span, 0, ONE as int);
            crate::fixed::lemma_trunc_div_ordered((ONE as int) * span, w.raw * span, ONE as int);
            crate::fixed::lemma_trunc_div_neg((ONE as int) * (-span), ONE as int);
            assert((ONE as int) * span == -((ONE as int) * (-span)));
            vstd::arithmetic::div_mod::lemma_div_multiples_vanish(-span as int, ONE as int);
        }
    }
    Fixed { raw: a.raw + d }
}

/// Runs the escape-time loop from the starting point `z0`: steps
/// `z := z^2 + add` until `|z|^2 >= 4` or the budget is spent, and returns
/// the number of completed steps.
pub fn escape_iterations(z0: Complex, add: Complex, max_iterations: u32) -> (n: u32)
    requires
        -2 * COORD_LIMIT <= z0.re.raw <= 2 * COORD_LIMIT,
        -2 * COORD_LIMIT <= z0.im.raw <= 2 * COORD_LIMIT,
        -ADD_LIMIT <= add.re.raw <= ADD_LIMIT,
        -ADD_LIMIT <= add.im.raw <= ADD_LIMIT,
    ensures
        n == escape_count(
            z0.re.raw as int,
            z0.im.raw as int,
            add.re.raw as int,
            add.im.raw as int,
            max_iterations as nat,
        ),
        n <= max_iterations,
{
    let ar: i64 = add.re.raw;
    let ai: i64 = add.im.raw;
    let mut zr: i64 = z0.re.raw;
    let mut zi: i64 = z0.im.raw;
    let mut n: u32 = 0;
    while n < max_iterations
        invariant
            0 <= n <= max_iterations,
            ar == add.re.raw,
            ai == add.im.raw,
            -2 * COORD_LIMIT <= zr <= 2 * COORD_LIMIT,
            -2 * COORD_LIMIT <= zi <= 2 * COORD_LIMIT,
            -ADD_LIMIT <= ar <= ADD_LIMIT,
            -ADD_LIMIT <= ai <= ADD_LIMIT,
            escape_count(
                z0.re.raw as int,
                z0.im.raw as int,
                ar as int,
                ai as int,
                max_iterations as nat,
            ) == n + escape_count(zr as int, zi as int, ar as int, ai as int, (
            max_iterations - n) as nat),
        decreases max_iterations - n,
    {
        let wr: i128 = zr as i128;
        let wi: i128 = zi as i128;
        proof {
            assert(0 <= wr * wr <= 0x4000_0000_0000_0000_0000int
                && 0 <= wi * wi <= 0x4000_0000_0000_0000_0000int) by (nonlinear_arith)
                requires
                    -137438953473int * 2 <= wr <= 137438953473int * 2,
                    -137438953473int * 2 <= wi <= 137438953473int * 2,
            ;
        }
        let mag2: i128 = wr * wr + wi * wi;
        let threshold: i128 = 4 * (ONE as i128) * (ONE as i128);
        if mag2 >= threshold {
            proof {
                assert(escaped(zr as int, zi as int));
                assert(escape_count(zr as int, zi as int, ar as int, ai as int, (
                max_iterations - n) as nat) == 0);
            }
            return n;
        }
        proof {
            assert(-33554432 < zr < 33554432 && -33554432 < zi < 33554432)
                by (nonlinear_arith)
                requires
                    (zr as int) * (zr as int) + (zi as int) * (zi as int)
                        < 1125899906842624int,
            ;
            assert(-1125899906842624int <= zr * zr - zi * zi <= 1125899906842624int
                && -2251799813685248int <= 2 * (zr * zi) <= 2251799813685248int)
                by (nonlinear_arith)
                requires
                    -33554432 <= zr <= 33554432,
                    -33554432 <= zi <= 33554432,
            ;
        }
        let re2: i64 = zr * zr;
        let im2: i64 = zi * zi;
        let cross: i64 = 2 * (zr * zi);
        let qr: i64 = div_trunc(re2 - im2, ONE);
        let qi: i64 = div_trunc(cross, ONE);
        proof {
            crate::fixed::lemma_trunc_div_mag(re2 - im2, ONE as int, 1125899906842624int);
            crate::fixed::lemma_trunc_div_mag(cross as int, ONE as int, 2251799813685248int);
            crate::fixed::lemma_trunc_div_ordered(re2 - im2, 1125899906842624int, ONE as int);
            crate::fixed::lemma_trunc_div_ordered(-1125899906842624int, re2 - im2, ONE as int);
            crate::fixed::lemma_trunc_div_ordered(cross as int, 2251799813685248int, ONE as int);
            crate::fixed::lemma_trunc_div_ordered(-2251799813685248int, cross as int, ONE as int);
        }
        let new_zr: i64 = qr + ar;
        let new_zi: i64 = qi + ai;
        proof {
            assert(new_zr == step_re(zr as int, zi as int, ar as int));
            assert(new_zi == step_im(zr as int, zi as int, ai as int));
            assert(escape_count(zr as int, zi as int, ar as int, ai as int, (max_iterations
                - n) as nat) == 1 + escape_count(
                new_zr as int,
                new_zi as int,
                ar as int,
                ai as int,
                (max_iterations - n - 1) as nat,
            ));
        }
        zr = new_zr;
        zi = new_zi;
        n = n + 1;
    }
    n
}

/// The Julia-set definition: the viewport and the added complex parameter.
#[derive(Clone, Copy, PartialEq, Eq, Structural, Debug)]
pub struct JuliaFractal {
    pub bounds: Bounds,
    pub add: Complex,
}

impl JuliaFractal {
    /// The bounds are usable and the parameter within its 4x cursor range.
    pub open spec fn wf(self) -> bool {
        &&& self.bounds.wf()
        &&& self.bounds.in_range()
        &&& -ADD_LIMIT <= self.add.re.raw <= ADD_LIMIT
        &&& -ADD_LIMIT <= self.add.im.raw <= ADD_LIMIT
    }

    /// A fractal over the given viewport with the parameter at zero.
    pub fn new(bounds: Bounds) -> (j: JuliaFractal)
        ensures
            j.bounds == bounds,
            j.add.re.raw == 0,
            j.add.im.raw == 0,
    {
        JuliaFractal {
            bounds,
            add: Complex { re: Fixed { raw: 0 }, im: Fixed { raw: 0 } },
        }
    }

    /// The starting orbit point for normalized pixel coordinates: `x`
    /// interpolated into the horizontal interval, `y` into the vertical.
    pub open spec fn start_re(self, x: int) -> int {
        lerp_spec(self.bounds.x0.raw as int, self.bounds.x1.raw as int, x)
    }

    /// See [`JuliaFractal::start_re`].
    pub open spec fn start_im(self, y: int) -> int {
        lerp_spec(self.bounds.y0.raw as int, self.bounds.y1.raw as int, y)
    }

    /// The escape count this fractal assigns to normalized coordinates.
    pub open spec fn count_at(self, x: int, y: int, max_iterations: nat) -> nat {
        escape_count(
            self.start_re(x),
            self.start_im(y),
            self.add.re.raw as int,
            self.add.im.raw as int,
            max_iterations,
        )
    }

    /// Sets the Julia parameter from a normalized cursor position: the
    /// offset from the screen center, magnified four times. This is the
    /// only action that moves the parameter, and it keeps the parameter
    /// within its range whatever the cursor position.
    pub fn set_parameter_at_cursor(&mut self, x: Fixed, y: Fixed)
        requires
            0 <= x.raw <= ONE,
            0 <= y.raw <= ONE,
        ensures
            final(self).add.re.raw == 4 * (x.raw - HALF),
            final(self).add.im.raw == 4 * (y.raw - HALF),
            final(self).bounds == old(self).bounds,
            -ADD_LIMIT <= final(self).add.re.raw <= ADD_LIMIT,
            -ADD_LIMIT <= final(self).add.im.raw <= ADD_LIMIT,
    {
        self.add = Complex {
            re: Fixed { raw: 4 * (x.raw - HALF) },
            im: Fixed { raw: 4 * (y.raw - HALF) },
        };
    }

    /// The escape-iteration count for the normalized pixel coordinates
    /// `(x, y)`, both in `[0, 1]`, under the given iteration budget.
    pub fn get(&self, x: Fixed, y: Fixed, max_iterations: u32) -> (n: u32)
        requires
            self.wf(),
            0 <= x.raw <= ONE,
            0 <= y.raw <= ONE,
            max_iterations >= 1,
        ensures
            n == self.count_at(x.raw as int, y.raw as int, max_iterations as nat),
            n <= max_iterations,
    {
        let zr = lerp(self.bounds.x0, self.bounds.x1, x);
        let zi = lerp(self.bounds.y0, self.bounds.y1, y);
        escape_iterations(Complex { re: zr, im: zi }, self.add, max_iterations)
    }
}

/// Law: with the parameter at zero, the origin is a fixed point of the
/// orbit, so it never escapes: the count is the whole budget, whatever the
/// budget is.
pub proof fn lemma_origin_never_escapes(max_iterations: nat)
    ensures
        escape_count(0, 0, 0, 0, max_iterations) == max_iterations,
    decreases max_iterations,
{
    if max_iterations > 0 {
        assert(!escaped(0, 0));
        assert(step_re(0, 0, 0) == 0);
        assert(step_im(0, 0, 0) == 0);
        lemma_origin_never_escapes((max_iterations - 1) as nat);
    }
}

/// Law: the escape count is monotone in the iteration budget, and a count
/// that came in under budget is stable: raising the budget returns the very
/// same count.
pub proof fn lemma_escape_monotonic(zr: int, zi: int, ar: int, ai: int, m1: nat, m2: nat)
    requires
        m1 <= m2,
    ensures
        escape_count(zr, zi, ar, ai, m1) <= escape_count(zr, zi, ar, ai, m2),
        escape_count(zr, zi, ar, ai, m1) < m1 ==> escape_count(zr, zi, ar, ai, m2)
            == escape_count(zr, zi, ar, ai, m1),
    decreases m1,
{
    if !escaped(zr, zi) && m1 > 0 {
        lemma_escape_monotonic(
            step_re(zr, zi, ar),
            step_im(zr, zi, ai),
            ar,
            ai,
            (m1 - 1) as nat,
            (m2 - 1) as nat,
        );
    }
}

/// The center weight maps a symmetric interval exactly onto the origin.
proof fn lemma_symmetric_center(m: int)
    requires
        m >= 0,
    ensures
        lerp_spec(-m, m, HALF as int) == 0,
{
    assert((HALF as int) * (m - (-m)) == m * (ONE as int)) by (nonlinear_arith);
    assert(m * (ONE as int) == (ONE as int) * m) by (nonlinear_arith);
    vstd::arithmetic::div_mod::lemma_div_multiples_vanish(m, ONE as int);
    assert((m * (ONE as int)) / (ONE as int) == m);
}

/// Law: for a viewport symmetric about the origin and the parameter at
/// zero, the center pixel maps exactly onto the origin, so it never
/// escapes: its count is the whole budget, whatever the budget.
pub proof fn lemma_center_pixel_never_escapes(j: JuliaFractal, max_iterations: nat)
    requires
        j.bounds.x0.raw == -j.bounds.x1.raw,
        j.bounds.y0.raw == -j.bounds.y1.raw,
        j.bounds.x1.raw >= 0,
        j.bounds.y1.raw >= 0,
        j.add.re.raw == 0,
        j.add.im.raw == 0,
    ensures
        j.count_at(HALF as int, HALF as int, max_iterations) == max_iterations,
{
    lemma_symmetric_center(j.bounds.x1.raw as int);
    lemma_symmetric_center(j.bounds.y1.raw as int);
    lemma_origin_never_escapes(max_iterations);
}

/// Law: the count a fractal assigns to a pixel is monotone in the
/// iteration budget, and stable once it came in under budget.
pub proof fn lemma_count_at_monotonic(j: JuliaFractal, x: int, y: int, m1: nat, m2: nat)
    requires
        m1 <= m2,
    ensures
        j.count_at(x, y, m1) <= j.count_at(x, y, m2),
        j.count_at(x, y, m1) < m1 ==> j.count_at(x, y, m2) == j.count_at(x, y, m1),
{
    lemma_escape_monotonic(
        j.start_re(x),
        j.start_im(y),
        j.add.re.raw as int,
        j.add.im.raw as int,
        m1,
        m2,
    );
}

/// Law: panning and panning back with the negated factor restores the
/// viewport exactly. The pan leaves both spans unchanged, so the second
/// call scales the very same spans, and truncating division is odd, so the
/// second delta is exactly the negation of the first.
pub proof fn lemma_translate_roundtrip(sx: int, sy: int, c: int, dt: int)
    ensures
        pan_delta(c, pan_scale(sx, sy, dt)) + pan_delta(c, pan_scale(sx, sy, -dt)) == 0,
{
    crate::fixed::lemma_fmul_neg(sx + sy, dt);
    crate::fixed::lemma_fmul_neg(c - (HALF as int), pan_scale(sx, sy, dt));
}

/// For a nonnegative zoom factor: the scaled span stays strictly below the
/// span, both cursor shares are nonnegative, and together they lose at most
/// one raw unit against the scaled span.
proof fn lemma_zoom_shares(span: int, c: int, f: int)
    requires
        1 <= span <= 5 * COORD_LIMIT,
        0 <= c <= ONE,
        0 <= f < ONE,
    ensures
        ({
            let s = fmul(span, f);
            let d0 = fmul(c, s);
            let d1 = fmul((ONE as int) - c, s);
            &&& 0 <= s <= span - 1
            &&& 0 <= d0
            &&& 0 <= d1
            &&& s - 1 <= d0 + d1 <= s
        }),
{
    let one = ONE as int;
    let s = fmul(span, f);
    let d0 = fmul(c, s);
    let d1 = fmul(one - c, s);
    assert(0 <= span * f <= span * (one - 1)) by (nonlinear_arith)
        requires
            span >= 1,
            0 <= f <= one - 1,
    ;
    assert(span * (one - 1) == span * one - span) by (nonlinear_arith);
    assert((span - 1) * one + (one - 1) == span * one - 1) by (nonlinear_arith);
    vstd::arithmetic::div_mod::lemma_fundamental_div_mod_converse(
        span * one - 1,
        one,
        span - 1,
        one - 1,
    );
    vstd::arithmetic::div_mod::lemma_div_is_ordered(span * f, span * one - 1, one);
    vstd::arithmetic::div_mod::lemma_div_pos_is_pos(span * f, one);
    assert(0 <= s <= span - 1);
    assert(c * s >= 0 && (one - c) * s >= 0) by (nonlinear_arith)
        requires
            0 <= c <= one,
            s >= 0,
    ;
    vstd::arithmetic::div_mod::lemma_div_pos_is_pos(c * s, one);
    vstd::arithmetic::div_mod::lemma_div_pos_is_pos((one - c) * s, one);
    vstd::arithmetic::div_mod::lemma_fundamental_div_mod(c * s, one);
    vstd::arithmetic::div_mod::lemma_fundamental_div_mod((one - c) * s, one);
    vstd::arithmetic::div_mod::lemma_mod_division_less_than_divisor(c * s, one);
    vstd::arithmetic::div_mod::lemma_mod_division_less_than_divisor((one - c) * s, one);
    assert(c * s + (one - c) * s == one * s) by (nonlinear_arith);
    let r0 = (c * s) % one;
    let r1 = ((one - c) * s) % one;
    assert(one * s == one * (d0 + d1) + r0 + r1);
    assert(one * (s - d0 - d1) == r0 + r1) by (nonlinear_arith)
        requires
            one * s == one * (d0 + d1) + r0 + r1,
    ;
    assert(0 <= s - d0 - d1 <= 1) by (nonlinear_arith)
        requires
            one * (s - d0 - d1) == r0 + r1,
            0 <= r0 < one,
            0 <= r1 < one,
    ;
}

/// A cursor share of a slightly smaller scaled span lags the share of the
/// full one by a bounded amount: if the scaled spans differ by at most
/// `t + 1`, the shares differ by at most `t + 2`.
proof fn lemma_share_dev(c: int, s: int, s1: int, t: int)
    requires
        0 <= c <= ONE,
        0 <= s1 <= s,
        s - s1 <= t + 1,
        0 <= t,
    ensures
        0 <= fmul(c, s) - fmul(c, s1) <= t + 2,
{
    let one = ONE as int;
    assert(0 <= c * s1 <= c * s && c * (s - s1) <= one * (t + 1)) by (nonlinear_arith)
        requires
            0 <= c <= one,
            0 <= s1 <= s,
            s - s1 <= t + 1,
            0 <= t,
    ;
    assert(c * s - c * s1 == c * (s - s1)) by (nonlinear_arith);
    crate::fixed::lemma_trunc_div_ordered(c * s1, c * s, one);
    crate::fixed::lemma_div_sub(c * s, c * s1, one);
    vstd::arithmetic::div_mod::lemma_div_is_ordered(c * (s - s1), one * (t + 1), one);
    vstd::arithmetic::div_mod::lemma_div_multiples_vanish(t + 1, one);
    vstd::arithmetic::div_mod::lemma_div_pos_is_pos(c * (s - s1), one);
}

/// Law: zooming toward a cursor point with a nonnegative factor and then
/// zooming back with the negated factor restores each bound of the
/// interval to within tolerance: the residue is nonnegative, and at most
/// the span scaled by the squared factor, plus two raw units of rounding.
pub proof fn lemma_zoom_roundtrip(lo: int, hi: int, c: int, f: int)
    requires
        lo < hi,
        hi - lo <= 2 * COORD_LIMIT,
        0 <= c <= ONE,
        -(ONE as int) < f < ONE as int,
    ensures
        ({
            let lo1 = zoom_lo(lo, hi, c, f);
            let hi1 = zoom_hi(lo, hi, c, f);
            let lo2 = zoom_lo(lo1, hi1, c, -f);
            let hi2 = zoom_hi(lo1, hi1, c, -f);
            let tol = ((hi - lo) * f * f) / ((ONE as int) * (ONE as int)) + 2;
            &&& 0 <= lo2 - lo <= tol
            &&& 0 <= hi - hi2 <= tol
        }),
{
    if f >= 0 {
        lemma_zoom_roundtrip_inward(lo, hi, c, f);
    } else {
        lemma_zoom_roundtrip_outward(lo, hi, c, f);
        assert((hi - lo) * f * f == (hi - lo) * (-f) * (-f)) by (nonlinear_arith);
    }
}

/// The roundtrip bound when the first zoom moves inward.
proof fn lemma_zoom_roundtrip_inward(lo: int, hi: int, c: int, f: int)
    requires
        lo < hi,
        hi - lo <= 2 * COORD_LIMIT,
        0 <= c <= ONE,
        0 <= f < ONE,
    ensures
        ({
            let lo1 = zoom_lo(lo, hi, c, f);
            let hi1 = zoom_hi(lo, hi, c, f);
            let lo2 = zoom_lo(lo1, hi1, c, -f);
            let hi2 = zoom_hi(lo1, hi1, c, -f);
            let tol = ((hi - lo) * f * f) / ((ONE as int) * (ONE as int)) + 2;
            &&& 0 <= lo2 - lo <= tol
            &&& 0 <= hi - hi2 <= tol
        }),
{
    let one = ONE as int;
    let span = hi - lo;
    let s = fmul(span, f);
    let d0 = fmul(c, s);
    let d1 = fmul(one - c, s);
    lemma_zoom_shares(span, c, f);
    let lo1 = zoom_lo(lo, hi, c, f);
    let hi1 = zoom_hi(lo, hi, c, f);
    let span1 = hi1 - lo1;
    assert(span1 == span - d0 - d1);
    assert(span - s <= span1 <= span - s + 1);
    let s1 = fmul(span1, f);
    lemma_zoom_shares(span1, c, f);
    let d0p = fmul(c, s1);
    let d1p = fmul(one - c, s1);
    // The second zoom negates the scaled span and both shares exactly.
    crate::fixed::lemma_fmul_neg(span1, f);
    crate::fixed::lemma_fmul_neg(c, s1);
    crate::fixed::lemma_fmul_neg(one - c, s1);
    assert(zoom_lo(lo1, hi1, c, -f) == lo1 - d0p);
    assert(zoom_hi(lo1, hi1, c, -f) == hi1 + d1p);
    // The rescaled span lags the first by at most the share bound.
    assert(0 <= span1 * f <= span * f && span * f - span1 * f == (d0 + d1) * f)
        by (nonlinear_arith)
        requires
            0 <= f,
            0 <= span1 <= span,
            span1 == span - d0 - d1,
    ;
    crate::fixed::lemma_trunc_div_ordered(span1 * f, span * f, one);
    assert(0 <= s1 <= s);
    let ts = (s * f) / one;
    assert(0 <= (d0 + d1) * f <= s * f) by (nonlinear_arith)
        requires
            0 <= d0 + d1 <= s,
            0 <= f,
    ;
    crate::fixed::lemma_div_sub(span * f, (d0 + d1) * f, one);
    vstd::arithmetic::div_mod::lemma_div_is_ordered((d0 + d1) * f, s * f, one);
    vstd::arithmetic::div_mod::lemma_div_pos_is_pos((d0 + d1) * f, one);
    assert(s - s1 <= ts + 1);
    vstd::arithmetic::div_mod::lemma_div_pos_is_pos(s * f, one);
    assert(0 <= ts);
    // Each share of the second zoom lags its first-zoom share by at most
    // `ts + 2`.
    lemma_share_dev(c, s, s1, ts);
    lemma_share_dev(one - c, s, s1, ts);
    // The residual scale is bounded by the squared factor.
    crate::fixed::lemma_div_mul_le(span * f, f, one);
    assert(0 <= s * f) by (nonlinear_arith)
        requires
            0 <= s,
            0 <= f,
    ;
    vstd::arithmetic::div_mod::lemma_div_is_ordered(s * f, (span * f) * f, one);
    assert((span * f) * f == span * f * f) by (nonlinear_arith);
    vstd::arithmetic::div_mod::lemma_div_denominator(span * f * f, one, one);
    assert(ts <= (span * f * f) / (one * one));
}

/// The roundtrip bound when the first zoom moves outward: stated over the
/// positive magnitude `g == -f` of the factor.
proof fn lemma_zoom_roundtrip_outward(lo: int, hi: int, c: int, f: int)
    requires
        lo < hi,
        hi - lo <= 2 * COORD_LIMIT,
        0 <= c <= ONE,
        -(ONE as int) < f < 0,
    ensures
        ({
            let lo1 = zoom_lo(lo, hi, c, f);
            let hi1 = zoom_hi(lo, hi, c, f);
            let lo2 = zoom_lo(lo1, hi1, c, -f);
            let hi2 = zoom_hi(lo1, hi1, c, -f);
            let tol = ((hi - lo) * (-f) * (-f)) / ((ONE as int) * (ONE as int)) + 2;
            &&& 0 <= lo2 - lo <= tol
            &&& 0 <= hi - hi2 <= tol
        }),
{
    let one = ONE as int;
    let g = -f;
    let span = hi - lo;
    let sg = fmul(span, g);
    let dg0 = fmul(c, sg);
    let dg1 = fmul(one - c, sg);
    lemma_zoom_shares(span, c, g);
    // The first zoom negates the scaled span and both shares exactly, so
    // both bounds move outward by their shares.
    crate::fixed::lemma_fmul_neg(span, g);
    crate::fixed::lemma_fmul_neg(c, sg);
    crate::fixed::lemma_fmul_neg(one - c, sg);
    let lo1 = zoom_lo(lo, hi, c, f);
    let hi1 = zoom_hi(lo, hi, c, f);
    assert(lo1 == lo - dg0);
    assert(hi1 == hi + dg1);
    let span1 = hi1 - lo1;
    assert(span1 == span + dg0 + dg1);
    let s2 = fmul(span1, g);
    let d0p = fmul(c, s2);
    let d1p = fmul(one - c, s2);
    lemma_zoom_shares(span1, c, g);
    assert(zoom_lo(lo1, hi1, c, g) == lo1 + d0p);
    assert(zoom_hi(lo1, hi1, c, g) == hi1 - d1p);
    // The grown span scales to at least the first scaled span, and to
    // at most one raw unit past it plus the residual scale.
    assert(0 <= span * g <= span1 * g && span1 * g - span * g == (dg0 + dg1) * g)
        by (nonlinear_arith)
        requires
            0 <= g,
            0 <= span <= span1,
            span1 == span + dg0 + dg1,
    ;
    crate::fixed::lemma_trunc_div_ordered(span * g, span1 * g, one);
    assert(0 <= sg <= s2);
    let ts = (sg * g) / one;
    assert(0 <= (dg0 + dg1) * g <= sg * g) by (nonlinear_arith)
        requires
            0 <= dg0 + dg1 <= sg,
            0 <= g,
    ;
    crate::fixed::lemma_div_sub(span1 * g, span * g, one);
    vstd::arithmetic::div_mod::lemma_div_is_ordered((dg0 + dg1) * g, sg * g, one);
    vstd::arithmetic::div_mod::lemma_div_pos_is_pos((dg0 + dg1) * g, one);
    assert(s2 - sg <= ts + 1);
    vstd::arithmetic::div_mod::lemma_div_pos_is_pos(sg * g, one);
    assert(0 <= ts);
    // Each share of the second zoom overshoots its first-zoom share by at
    // most `ts + 2`.
    lemma_share_dev(c, s2, sg, ts);
    lemma_share_dev(one - c, s2, sg, ts);
    // The residual scale is bounded by the squared factor.
    crate::fixed::lemma_div_mul_le(span * g, g, one);
    assert(0 <= sg * g) by (nonlinear_arith)
        requires
            0 <= sg,
            0 <= g,
    ;
    vstd::arithmetic::div_mod::lemma_div_is_ordered(sg * g, (span * g) * g, one);
    assert((span * g) * g == span * g * g) by (nonlinear_arith);
    vstd::arithmetic::div_mod::lemma_div_denominator(span * g * g, one, one);
    assert(ts <= (span * g * g) / (one * one));
}

/// The fixed-point products in [`fmul`] commute.
proof fn lemma_fmul_commute(a: int, b: int)
    ensures
        fmul(a, b) == fmul(b, a),
{
    assert(a * b == b * a) by (nonlinear_arith);
}

/// A zoom with cursor share `c` and factor `dt` keeps an interval
/// non-degenerate: for a nonnegative factor both bounds move inward but
/// never meet; for a negative factor both move outward.
proof fn lemma_zoom_keeps_span(lo: int, hi: int, c: int, dt: int)
    requires
        lo < hi,
        hi - lo <= 2 * COORD_LIMIT,
        0 <= c <= ONE,
        -(ONE as int) < dt < ONE as int,
    ensures
        zoom_lo(lo, hi, c, dt) < zoom_hi(lo, hi, c, dt),
        dt >= 0 ==> lo <= zoom_lo(lo, hi, c, dt) && zoom_hi(lo, hi, c, dt) <= hi,
        dt < 0 ==> zoom_lo(lo, hi, c, dt) <= lo && hi <= zoom_hi(lo, hi, c, dt),
{
    let span = hi - lo;
    let s = fmul(span, dt);
    let d0 = fmul(c, s);
    let d1 = fmul((ONE as int) - c, s);
    crate::fixed::lemma_fmul_in_one(span, dt, 2 * COORD_LIMIT);
    lemma_fmul_commute(c, s);
    lemma_fmul_commute((ONE as int) - c, s);
    crate::fixed::lemma_fmul_in_one(s, c, 2 * COORD_LIMIT);
    crate::fixed::lemma_fmul_in_one(s, (ONE as int) - c, 2 * COORD_LIMIT);
    if dt >= 0 {
        // The scaled span is strictly below the span itself.
        assert(span * dt <= span * (ONE - 1)) by (nonlinear_arith)
            requires
                span >= 1,
                dt <= (ONE as int) - 1,
        ;
        assert(span * (ONE - 1) == span * (ONE as int) - span) by (nonlinear_arith);
        assert((span - 1) * (ONE as int) + ((ONE as int) - 1) == span * (ONE as int) - 1)
            by (nonlinear_arith);
        vstd::arithmetic::div_mod::lemma_fundamental_div_mod_converse(
            span * (ONE as int) - 1,
            ONE as int,
            span - 1,
            (ONE as int) - 1,
        );
        assert(span * dt >= 0) by (nonlinear_arith)
            requires
                span >= 1,
                dt >= 0,
        ;
        vstd::arithmetic::div_mod::lemma_div_is_ordered(
            span * dt,
            span * (ONE as int) - 1,
            ONE as int,
        );
        vstd::arithmetic::div_mod::lemma_div_pos_is_pos(span * dt, ONE as int);
        assert(0 <= s <= span - 1);
        // Both shares are nonnegative and together they never exceed the
        // scaled span.
        assert(c * s >= 0 && ((ONE as int) - c) * s >= 0) by (nonlinear_arith)
            requires
                0 <= c <= ONE as int,
                s >= 0,
        ;
        vstd::arithmetic::div_mod::lemma_div_pos_is_pos(c * s, ONE as int);
        vstd::arithmetic::div_mod::lemma_div_pos_is_pos(((ONE as int) - c) * s, ONE as int);
        vstd::arithmetic::div_mod::lemma_fundamental_div_mod(c * s, ONE as int);
        vstd::arithmetic::div_mod::lemma_fundamental_div_mod(((ONE as int) - c) * s, ONE as int);
        vstd::arithmetic::div_mod::lemma_mod_division_less_than_divisor(c * s, ONE as int);
        vstd::arithmetic::div_mod::lemma_mod_division_less_than_divisor(
            ((ONE as int) - c) * s,
            ONE as int,
        );
        assert(c * s + ((ONE as int) - c) * s == (ONE as int) * s) by (nonlinear_arith);
        assert(d0 + d1 <= s) by {
            let r0 = (c * s) % (ONE as int);
            let r1 = (((ONE as int) - c) * s) % (ONE as int);
            assert((ONE as int) * s == (ONE as int) * (d0 + d1) + r0 + r1);
            assert((ONE as int) * (s - d0 - d1) == r0 + r1) by (nonlinear_arith)
                requires
                    (ONE as int) * s == (ONE as int) * (d0 + d1) + r0 + r1,
            ;
            assert(s - d0 - d1 >= 0 && s - d0 - d1 <= 1) by (nonlinear_arith)
                requires
                    (ONE as int) * (s - d0 - d1) == r0 + r1,
                    0 <= r0 < (ONE as int),
                    0 <= r1 < (ONE as int),
            ;
        }
        assert(zoom_hi(lo, hi, c, dt) - zoom_lo(lo, hi, c, dt) == span - d0 - d1);
        assert(span - d0 - d1 >= 1);
    } else {
        assert(span * dt <= 0 && -0x4000_0000_0000_0000 <= span * dt) by (nonlinear_arith)
            requires
                1 <= span <= 2 * 68719476736int,
                -16777216 < dt < 0,
        ;
        crate::fixed::lemma_trunc_div_mag(span * dt, ONE as int, 0x4000_0000_0000_0000);
        assert(s <= 0);
        assert(c * s <= 0 && ((ONE as int) - c) * s <= 0 && -0x4000_0000_0000_0000 <= c * s
            && -0x4000_0000_0000_0000 <= ((ONE as int) - c) * s) by (nonlinear_arith)
            requires
                0 <= c <= 16777216,
                -2 * 68719476736int <= s <= 0,
        ;
        crate::fixed::lemma_trunc_div_mag(c * s, ONE as int, 0x4000_0000_0000_0000);
        crate::fixed::lemma_trunc_div_mag(((ONE as int) - c) * s, ONE as int, 0x4000_0000_0000_0000);
        assert(d0 <= 0 && d1 <= 0);
    }
}

} // verus!
