//! Rendering backends and the export conversion.
//!
//! A [`Renderer`] turns the fractal model, the iteration budget and the
//! frame size into a full buffer of packed pixels; each backend declares in
//! [`Renderer::pixel_spec`] exactly which pixel it owes for each flat index,
//! and `render` is bound to fill every slot with it. [`CpuRenderer`] keeps
//! no state between frames and recomputes every pixel, fanning the work out
//! across worker threads for the duration of one call; every slot depends
//! only on its own index, so the workers share nothing mutable.
//! [`index_buffer`] and [`to_rgb_bytes`] are the computational halves of the
//! accelerator setup and of the still-image export: the flat index upload
//! and the alpha-dropping byte conversion.

use vstd::prelude::*;
use rayon::iter::{IndexedParallelIterator, IntoParallelRefMutIterator, ParallelIterator};
use crate::color::{blue_spec, green_spec, packed, red_spec, Color, ColorEncode};
use crate::fractal::{Bounds, Complex, JuliaFractal};
use crate::gradient::{
    default_stops, gradient_color, gradient_color_spec, get_color_gradient, stops_wf,
};
use crate::fixed::{Fixed, ONE};

verus! {

/// The denominator of the normalized progress a host-rendered pixel maps
/// into the gradient: the budget spans the ramp over `max_iterations - 1`;
/// a budget of one leaves a single escaping count, pinned to the ramp start.
pub open spec fn cpu_den(max_iterations: u32) -> int {
    if max_iterations >= 2 {
        max_iterations - 1
    } else {
        1
    }
}

/// The packed pixel the host backend owes for flat index `i`: recover the
/// normalized coordinates from the index, count escape iterations, paint
/// the inside-the-set sentinel for a full count and the gradient color at
/// `count / (max_iterations - 1)` otherwise.
pub open spec fn cpu_pixel_spec(
    julia: JuliaFractal,
    stops: Seq<Color>,
    max_iterations: u32,
    width: usize,
    height: usize,
    i: int,
) -> u32 {
    let x = ((i % (width as int)) * (ONE as int)) / (width as int);
    let y = ((i / (width as int)) * (ONE as int)) / (height as int);
    let j = julia.count_at(x, y, max_iterations as nat);
    if j == max_iterations {
        0u32
    } else {
        let c = gradient_color_spec(stops, j as int, cpu_den(max_iterations));
        packed(c.red, c.green, c.blue)
    }
}

/// Computes the packed pixel for flat index `i` of a `width x height`
/// frame, exactly as [`cpu_pixel_spec`] describes.
pub fn pixel_color(
    julia: &JuliaFractal,
    stops: &Vec<Color>,
    max_iterations: u32,
    width: usize,
    height: usize,
    i: usize,
) -> (p: u32)
    requires
        julia.wf(),
        stops_wf(stops@),
        max_iterations >= 1,
        1 <= width <= 0x1_0000_0000,
        1 <= height <= 0x1_0000_0000,
        i < width * height,
    ensures
        p == cpu_pixel_spec(*julia, stops@, max_iterations, width, height, i as int),
{
    let px: usize = i % width;
    let py: usize = i / width;
    proof {
        vstd::arithmetic::div_mod::lemma_fundamental_div_mod(i as int, width as int);
        vstd::arithmetic::div_mod::lemma_mod_division_less_than_divisor(i as int, width as int);
        vstd::arithmetic::div_mod::lemma_div_pos_is_pos(i as int, width as int);
        vstd::arithmetic::div_mod::lemma_multiply_divide_lt(i as int, width as int, height as int);
        assert(px < width && py < height);
        assert((px as int) * (ONE as int) < (width as int) * (ONE as int)) by (nonlinear_arith)
            requires
                0 <= px < width,
        ;
        assert((py as int) * (ONE as int) < (height as int) * (ONE as int)) by (nonlinear_arith)
            requires
                0 <= py < height,
        ;
        assert((px as int) * (ONE as int) <= 0x1_0000_0000int * 16777216) by (nonlinear_arith)
            requires
                0 <= px <= 0x1_0000_0000,
        ;
        assert((py as int) * (ONE as int) <= 0x1_0000_0000int * 16777216) by (nonlinear_arith)
            requires
                0 <= py <= 0x1_0000_0000,
        ;
    }
    let xn: u64 = (px as u64) * (ONE as u64);
    let yn: u64 = (py as u64) * (ONE as u64);
    let x: i64 = (xn / (width as u64)) as i64;
    let y: i64 = (yn / (height as u64)) as i64;
    proof {
        vstd::arithmetic::div_mod::lemma_multiply_divide_lt(
            xn as int,
            width as int,
            ONE as int,
        );
        vstd::arithmetic::div_mod::lemma_multiply_divide_lt(
            yn as int,
            height as int,
            ONE as int,
        );
        vstd::arithmetic::div_mod::lemma_div_pos_is_pos(xn as int, width as int);
        vstd::arithmetic::div_mod::lemma_div_pos_is_pos(yn as int, height as int);
        assert(0 <= x < ONE && 0 <= y < ONE);
    }
    let j: u32 = julia.get(Fixed { raw: x }, Fixed { raw: y }, max_iterations);
    if j == max_iterations {
        0
    } else {
        let den: u32 = if max_iterations >= 2 {
            max_iterations - 1
        } else {
            1
        };
        let c: Color = gradient_color(stops, j, den);
        c.encode()
    }
}

/// Fills every slot of the buffer with its pixel, in parallel.
///
/// Relies on rayon's `par_iter_mut`, `enumerate` and `for_each`: together
/// they hand the closure a mutable reference to every buffer slot exactly
/// once, paired with that slot's index, and return once all slots are done.
#[verifier::external_body]
fn fill_pixels_parallel(
    julia: &JuliaFractal,
    stops: &Vec<Color>,
    max_iterations: u32,
    buffer: &mut Vec<u32>,
    width: usize,
    height: usize,
)
    requires
        julia.wf(),
        stops_wf(stops@),
        max_iterations >= 1,
        1 <= width <= 0x1_0000_0000,
        1 <= height <= 0x1_0000_0000,
        old(buffer)@.len() == width * height,
    ensures
        final(buffer)@.len() == old(buffer)@.len(),
        forall|i: int|
            0 <= i < final(buffer)@.len() ==> final(buffer)@[i] == cpu_pixel_spec(
                *julia,
                stops@,
                max_iterations,
                width,
                height,
                i,
            ),
{
    buffer.par_iter_mut().enumerate().for_each(
        |(i, v): (usize, &mut u32)|
            {
                *v = pixel_color(julia, stops, max_iterations, width, height, i);
            },
    );
}

/// An interchangeable rendering backend: one frame per `render` call, plus
/// targeted notifications when a single parameter category changes.
pub trait Renderer {
    /// The packed pixel this backend owes for flat index `i` of a
    /// `width x height` frame.
    spec fn pixel_spec(
        &self,
        julia: JuliaFractal,
        max_iterations: u32,
        width: usize,
        height: usize,
        i: int,
    ) -> u32;

    /// A human-readable label for the backend, for display only.
    fn name(&self) -> String;

    /// Fills the whole buffer: slot `i` receives exactly the pixel that
    /// [`Renderer::pixel_spec`] assigns it.
    fn render(
        &mut self,
        julia: &JuliaFractal,
        max_iterations: u32,
        window_buffer: &mut Vec<u32>,
        width: usize,
        height: usize,
    )
        requires
            julia.wf(),
            max_iterations >= 1,
            1 <= width <= 0x1_0000_0000,
            1 <= height <= 0x1_0000_0000,
            old(window_buffer)@.len() == width * height,
        ensures
            final(window_buffer)@.len() == old(window_buffer)@.len(),
            forall|i: int|
                0 <= i < final(window_buffer)@.len() ==> final(window_buffer)@[i]
                    == final(self).pixel_spec(*julia, max_iterations, width, height, i),
    ;

    /// The Julia parameter changed.
    fn on_add_change(&mut self, add: &Complex);

    /// The viewport changed.
    fn on_bounds_change(&mut self, bounds: &Bounds);

    /// The iteration budget changed.
    fn on_max_iterations_change(&mut self, max_iterations: u32);
}

/// The host backend: stateless between frames, every pixel recomputed on
/// every call across the available worker threads.
pub struct CpuRenderer {}

impl CpuRenderer {
    /// A host backend; it owns no resources.
    pub fn new() -> (r: CpuRenderer)
    {
        CpuRenderer {  }
    }
}

impl Renderer for CpuRenderer {
    open spec fn pixel_spec(
        &self,
        julia: JuliaFractal,
        max_iterations: u32,
        width: usize,
        height: usize,
        i: int,
    ) -> u32 {
        cpu_pixel_spec(julia, default_stops(), max_iterations, width, height, i)
    }

    fn name(&self) -> String {
        "CPU Multi threaded".to_string()
    }

    fn render(
        &mut self,
        julia: &JuliaFractal,
        max_iterations: u32,
        window_buffer: &mut Vec<u32>,
        width: usize,
        height: usize,
    ) {
        let stops: Vec<Color> = get_color_gradient();
        fill_pixels_parallel(julia, &stops, max_iterations, window_buffer, width, height);
    }

    fn on_add_change(&mut self, _add: &Complex) {
    }

    fn on_bounds_change(&mut self, _bounds: &Bounds) {
    }

    fn on_max_iterations_change(&mut self, _max_iterations: u32) {
    }
}

/// The flat index upload the accelerator backend precomputes once at
/// construction: `[0, 1, 2, ...]`, one entry per pixel.
pub fn index_buffer(len: usize) -> (v: Vec<u32>)
    requires
        len <= 0xFFFF_FFFF,
    ensures
        v@.len() == len,
        forall|i: int| 0 <= i < len ==> v@[i] == i,
{
    let mut v: Vec<u32> = Vec::new();
    let mut m: usize = 0;
    while m < len
        invariant
            m <= len <= 0xFFFF_FFFF,
            v@.len() == m,
            forall|i: int| 0 <= i < m ==> v@[i] == i,
        decreases len - m,
    {
        v.push(m as u32);
        m += 1;
    }
    v
}

/// The export conversion: packed pixels to an RGB byte sequence, three
/// bytes per pixel in buffer order, the alpha byte dropped.
pub fn to_rgb_bytes(buffer: &Vec<u32>) -> (bytes: Vec<u8>)
    requires
        3 * buffer@.len() <= usize::MAX,
    ensures
        bytes@.len() == 3 * buffer@.len(),
        forall|i: int|
            0 <= i < buffer@.len() ==> {
                &&& bytes@[3 * i] == red_spec(buffer@[i])
                &&& bytes@[3 * i + 1] == green_spec(buffer@[i])
                &&& bytes@[3 * i + 2] == blue_spec(buffer@[i])
            },
{
    let mut bytes: Vec<u8> = Vec::new();
    let mut k: usize = 0;
    while k < buffer.len()
        invariant
            k <= buffer@.len(),
            3 * buffer@.len() <= usize::MAX,
            bytes@.len() == 3 * k,
            forall|i: int|
                0 <= i < k ==> {
                    &&& bytes@[3 * i] == red_spec(buffer@[i])
                    &&& bytes@[3 * i + 1] == green_spec(buffer@[i])
                    &&& bytes@[3 * i + 2] == blue_spec(buffer@[i])
                },
        decreases buffer@.len() - k,
    {
        let p: u32 = buffer[k];
        bytes.push(((p >> 16) & 0xFF) as u8);
        bytes.push(((p >> 8) & 0xFF) as u8);
        bytes.push((p & 0xFF) as u8);
        k += 1;
    }
    bytes
}

} // verus!
