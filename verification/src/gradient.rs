//! The color gradient and its lookup buffer.
//!
//! A gradient is an ordered list of color stops spaced evenly over `[0, 1]`;
//! positions are handled as exact fractions `num / den`, so interpolation is
//! deterministic down to the last bit. From the gradient and an iteration
//! budget, [`GradientTable`] precomputes a lookup buffer of packed pixels:
//! slot 0 carries the budget itself (the accelerator uses it as its loop
//! bound), slots `1..max_iterations` carry the color for each escape count,
//! and slot `max_iterations` carries the black inside-the-set sentinel. For
//! large budgets the colors cycle every [`GRADIENT_LOOP`] counts instead of
//! stretching the ramp thin.

use vstd::prelude::*;
use crate::color::{clamp_spec, packed, clamp_channel, Color, ColorEncode};
use crate::fixed::{div_trunc, trunc_div};

verus! {

/// Once the budget reaches this many iterations, the gradient cycles with
/// this period instead of spanning the whole range.
pub const GRADIENT_LOOP: u32 = 40;

/// One channel interpolated `rem / den` of the way from `c0` to `c1`,
/// truncated toward zero and clamped into `0..=255`.
pub open spec fn lerp_channel_spec(c0: u8, c1: u8, rem: int, den: int) -> u8 {
    clamp_spec(c0 + trunc_div((c1 - c0) * rem, den))
}

/// The color at position `num / den` of the ramp through `stops`, which are
/// spaced evenly; the final stop is reached exactly at position 1.
pub open spec fn gradient_color_spec(stops: Seq<Color>, num: int, den: int) -> Color {
    let segs = stops.len() - 1;
    let pos = num * segs;
    let s = if pos / den >= segs {
        segs - 1
    } else {
        pos / den
    };
    let rem = pos - s * den;
    Color {
        red: lerp_channel_spec(stops[s].red, stops[s + 1].red, rem, den),
        green: lerp_channel_spec(stops[s].green, stops[s + 1].green, rem, den),
        blue: lerp_channel_spec(stops[s].blue, stops[s + 1].blue, rem, den),
    }
}

/// Numerator of the gradient position for lookup slot `j`: the escape count
/// `j - 1` itself for small budgets, cycling with period [`GRADIENT_LOOP`]
/// for large ones.
pub open spec fn table_num(j: int, max_iterations: int) -> int {
    if max_iterations < GRADIENT_LOOP {
        j - 1
    } else {
        (j - 1) % (GRADIENT_LOOP as int)
    }
}

/// Denominator of the gradient position: the budget spans the ramp over
/// `max_iterations - 1` directly when it is below the cycle period.
pub open spec fn table_den(max_iterations: int) -> int {
    if max_iterations < GRADIENT_LOOP {
        max_iterations - 1
    } else {
        GRADIENT_LOOP as int
    }
}

/// What each slot of a lookup buffer for `stops` and `max_iterations` holds.
pub open spec fn lookup_slot_spec(stops: Seq<Color>, max_iterations: u32, j: int) -> u32 {
    if j == 0 {
        max_iterations
    } else if j == max_iterations {
        0u32
    } else {
        packed(
            gradient_color_spec(stops, table_num(j, max_iterations as int), table_den(max_iterations as int)).red,
            gradient_color_spec(stops, table_num(j, max_iterations as int), table_den(max_iterations as int)).green,
            gradient_color_spec(stops, table_num(j, max_iterations as int), table_den(max_iterations as int)).blue,
        )
    }
}

/// The buffer `v` is exactly the lookup buffer for `stops` and
/// `max_iterations`: the right length and every slot pinned.
pub open spec fn lookup_buffer_matches(v: Seq<u32>, stops: Seq<Color>, max_iterations: u32) -> bool {
    &&& v.len() == max_iterations + 1
    &&& forall|j: int|
        0 <= j <= max_iterations ==> v[j] == lookup_slot_spec(stops, max_iterations, j)
}

/// Stops a gradient can be built from: at least a start and an end color,
/// and few enough that position arithmetic stays small.
pub open spec fn stops_wf(stops: Seq<Color>) -> bool {
    2 <= stops.len() <= 256
}

/// Budgets a lookup buffer can be built for: at least one iteration, and
/// small enough that the buffer length `max_iterations + 1` fits.
pub open spec fn budget_wf(max_iterations: u32) -> bool {
    1 <= max_iterations < 0xFFFF_FFFFu32
}

/// The stops of the ramp the renderers use: red through cyan to violet, the
/// linear-RGB reading of the classic hue ramp.
pub open spec fn default_stops() -> Seq<Color> {
    seq![
        Color { red: 255, green: 0, blue: 0 },
        Color { red: 0, green: 255, blue: 255 },
        Color { red: 170, green: 0, blue: 255 },
    ]
}

/// Builds the color ramp the renderers use.
pub fn get_color_gradient() -> (stops: Vec<Color>)
    ensures
        stops@ =~= default_stops(),
{
    let mut v: Vec<Color> = Vec::new();
    v.push(Color { red: 255, green: 0, blue: 0 });
    v.push(Color { red: 0, green: 255, blue: 255 });
    v.push(Color { red: 170, green: 0, blue: 255 });
    v
}

/// One channel interpolated `rem / den` of the way from `c0` to `c1`.
fn lerp_channel(c0: u8, c1: u8, rem: i64, den: i64) -> (r: u8)
    requires
        1 <= den <= 0x100_0000_0000,
        0 <= rem <= den,
    ensures
        r == lerp_channel_spec(c0, c1, rem as int, den as int),
{
    let diff: i64 = c1 as i64 - c0 as i64;
    proof {
        assert(-0x4000_0000_0000_0000 <= diff * rem <= 0x4000_0000_0000_0000) by (nonlinear_arith)
            requires
                -255 <= diff <= 255,
                0 <= rem <= 0x100_0000_0000,
        ;
    }
    let d: i64 = div_trunc(diff * rem, den);
    proof {
        crate::fixed::lemma_trunc_div_mag(diff * rem, den as int, 0x4000_0000_0000_0000);
    }
    clamp_channel(c0 as i64 + d)
}

/// The color at position `num / den` of the ramp through `stops`.
pub fn gradient_color(stops: &Vec<Color>, num: u32, den: u32) -> (c: Color)
    requires
        stops_wf(stops@),
        1 <= den,
        num <= den,
    ensures
        c == gradient_color_spec(stops@, num as int, den as int),
{
    let segs: usize = stops.len() - 1;
    proof {
        assert((num as int) * (segs as int) <= 0xFF_FFFF_FFFF) by (nonlinear_arith)
            requires
                0 <= num < 0x1_0000_0000,
                0 <= segs <= 255,
        ;
    }
    let pos: u64 = (num as u64) * (segs as u64);
    let q: u64 = pos / (den as u64);
    let s: u64 = if q >= segs as u64 {
        segs as u64 - 1
    } else {
        q
    };
    proof {
        vstd::arithmetic::div_mod::lemma_fundamental_div_mod(pos as int, den as int);
        vstd::arithmetic::div_mod::lemma_mod_division_less_than_divisor(pos as int, den as int);
        vstd::arithmetic::mul::lemma_mul_inequality(s as int, q as int, den as int);
        assert(s * den <= pos);
        if q >= segs as u64 {
            vstd::arithmetic::mul::lemma_mul_inequality(num as int, den as int, segs as int);
            assert((den as int) * (segs as int) - (segs as int - 1) * (den as int) == den as int)
                by (nonlinear_arith);
            assert(pos - s * den <= den);
        } else {
            assert(pos - s * den < den);
        }
    }
    let rem: i64 = (pos - s * (den as u64)) as i64;
    let i: usize = s as usize;
    let c0: Color = stops[i];
    let c1: Color = stops[i + 1];
    Color {
        red: lerp_channel(c0.red, c1.red, rem, den as i64),
        green: lerp_channel(c0.green, c1.green, rem, den as i64),
        blue: lerp_channel(c0.blue, c1.blue, rem, den as i64),
    }
}

/// An ordered list of color stops together with the lookup buffer derived
/// from them for the current iteration budget.
pub struct GradientTable {
    pub stops: Vec<Color>,
    pub max_iterations: u32,
    pub lookup: Vec<u32>,
}

impl GradientTable {
    /// The table's invariant: the buffer is exactly the one its stops and
    /// budget describe, never partially mutated.
    pub open spec fn wf(self) -> bool {
        &&& stops_wf(self.stops@)
        &&& budget_wf(self.max_iterations)
        &&& lookup_buffer_matches(self.lookup@, self.stops@, self.max_iterations)
    }

    /// Builds the lookup buffer for `stops` and `max_iterations`.
    pub fn build(stops: &Vec<Color>, max_iterations: u32) -> (v: Vec<u32>)
        requires
            stops_wf(stops@),
            budget_wf(max_iterations),
        ensures
            lookup_buffer_matches(v@, stops@, max_iterations),
    {
        let n: usize = max_iterations as usize + 1;
        let mut v: Vec<u32> = Vec::new();
        v.push(max_iterations);
        let mut j: usize = 1;
        while j < n
            invariant
                stops_wf(stops@),
                budget_wf(max_iterations),
                n == max_iterations + 1,
                1 <= j <= n,
                v@.len() == j,
                forall|k: int| 0 <= k < j ==> v@[k] == lookup_slot_spec(stops@, max_iterations, k),
            decreases n - j,
        {
            if j == max_iterations as usize {
                v.push(0);
            } else {
                let i: u32 = j as u32 - 1;
                let num: u32;
                let den: u32;
                if max_iterations < GRADIENT_LOOP {
                    num = i;
                    den = max_iterations - 1;
                } else {
                    num = i % GRADIENT_LOOP;
                    den = GRADIENT_LOOP;
                }
                let c: Color = gradient_color(stops, num, den);
                v.push(c.encode());
            }
            j += 1;
        }
        v
    }

    /// Builds a table, rejecting degenerate input: fewer than two stops, a
    /// zero iteration budget, or a budget too large for the buffer to fit.
    pub fn new(stops: Vec<Color>, max_iterations: u32) -> (t: Option<GradientTable>)
        ensures
            t is Some <==> stops_wf(stops@) && budget_wf(max_iterations),
            t is Some ==> ({
                &&& t.unwrap().wf()
                &&& t.unwrap().stops@ == stops@
                &&& t.unwrap().max_iterations == max_iterations
            }),
    {
        if stops.len() < 2 || stops.len() > 256 || max_iterations < 1
            || max_iterations >= 0xFFFF_FFFFu32 {
            return None;
        }
        let lookup = GradientTable::build(&stops, max_iterations);
        Some(GradientTable { stops, max_iterations, lookup })
    }

    /// Rebuilds the lookup buffer in full for a new iteration budget; the
    /// stops stay as they are.
    pub fn set_max_iterations(&mut self, max_iterations: u32)
        requires
            old(self).wf(),
            budget_wf(max_iterations),
        ensures
            final(self).wf(),
            final(self).stops@ == old(self).stops@,
            final(self).max_iterations == max_iterations,
    {
        self.max_iterations = max_iterations;
        self.lookup = GradientTable::build(&self.stops, max_iterations);
    }

    /// The current lookup buffer.
    pub fn lookup_buffer(&self) -> (v: &Vec<u32>)
        ensures
            v == self.lookup,
    {
        &self.lookup
    }
}

/// Law: building the lookup buffer is deterministic. Any two buffers that
/// match the same stops and budget are identical, and slot 0 always holds
/// the budget itself.
pub proof fn lemma_build_deterministic(a: Seq<u32>, b: Seq<u32>, stops: Seq<Color>, max_iterations: u32)
    requires
        lookup_buffer_matches(a, stops, max_iterations),
        lookup_buffer_matches(b, stops, max_iterations),
    ensures
        a == b,
        a[0] == max_iterations,
{
    assert(a =~= b);
}

} // verus!
