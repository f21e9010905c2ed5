//! The escape-time trace engine: iterate `z = z^2 + c` under a step budget
//! and report whether, and with how much unused budget, the point left the
//! bounding region.
//!
//! The out-of-bound test is the axis-aligned one: the real component's
//! magnitude, displaced, against the viewport width, and the imaginary
//! component's magnitude, displaced, against the viewport height. (Each axis
//! is tested against its own extent; a box test, not the radius test.)

use vstd::prelude::*;
use crate::complex::{square_im_spec, square_re_spec, Complex64};
use crate::config::Config;
use crate::fix::{
    abs_fix, clamp_fix, fix_add, fix_add_spec, fix_clamp_wide, fix_div_int, fix_div_int_spec,
};
use crate::lut::{Lut, Rgb};
use vstd::arithmetic::div_mod::lemma_fundamental_div_mod_converse;
use rayon::iter::{IndexedParallelIterator, IntoParallelIterator, ParallelIterator};

verus! {

/// Outcome of tracing one point: `Early(n)` left the bound with `n` steps of
/// the budget unused; `Late(0)` survived the whole budget.
#[derive(Clone, Copy, Debug, PartialEq, Eq, Structural)]
pub enum ExitTrace {
    Early(u8),
    Late(u8),
}

/// One application of the recurrence `z = z^2 + c`.
pub open spec fn step_spec(z: Complex64, c: Complex64) -> Complex64 {
    Complex64 {
        re: fix_add_spec(square_re_spec(z.re as int, z.im as int), c.re as int) as i64,
        im: fix_add_spec(square_im_spec(z.re as int, z.im as int), c.im as int) as i64,
    }
}

/// The out-of-bound predicate: each component's displaced magnitude against
/// its own viewport extent.
pub open spec fn oob_spec(z: Complex64, cfg: Config) -> bool {
    abs_fix(z.re as int) + cfg.viewport_displacement.0 > cfg.viewport_size.0
        || abs_fix(z.im as int) + cfg.viewport_displacement.1 > cfg.viewport_size.1
}

/// The single-step trace: apply the recurrence once per step, test the bound
/// after every application, and report the unused budget on escape.
pub open spec fn trace_rec(z: Complex64, c: Complex64, cfg: Config, budget: nat) -> ExitTrace
    decreases budget,
{
    if budget == 0 {
        ExitTrace::Late(0)
    } else {
        let z1 = step_spec(z, c);
        if oob_spec(z1, cfg) {
            ExitTrace::Early(((budget - 1) as nat % 256) as u8)
        } else {
            trace_rec(z1, c, cfg, (budget - 1) as nat)
        }
    }
}

/// The paired-step refinement: advance two steps per round, test the later
/// state first, and disambiguate which of the two applications crossed the
/// bound; a leftover odd step runs alone.
pub open spec fn trace_paired_rec(z: Complex64, c: Complex64, cfg: Config, budget: nat) -> ExitTrace
    decreases budget,
{
    if budget == 0 {
        ExitTrace::Late(0)
    } else if budget == 1 {
        if oob_spec(step_spec(z, c), cfg) {
            ExitTrace::Early(0)
        } else {
            ExitTrace::Late(0)
        }
    } else {
        let z1 = step_spec(z, c);
        let z2 = step_spec(z1, c);
        if oob_spec(z1, cfg) {
            ExitTrace::Early(((budget - 1) as nat % 256) as u8)
        } else if oob_spec(z2, cfg) {
            ExitTrace::Early(((budget - 2) as nat % 256) as u8)
        } else {
            trace_paired_rec(z2, c, cfg, (budget - 2) as nat)
        }
    }
}

/// Law: the paired-step refinement classifies every input exactly as the
/// single-step trace — same variant, same carried step count.
pub proof fn lemma_paired_equals_single(z: Complex64, c: Complex64, cfg: Config, budget: nat)
    ensures
        trace_paired_rec(z, c, cfg, budget) == trace_rec(z, c, cfg, budget),
    decreases budget,
{
    reveal_with_fuel(trace_rec, 3);
    if budget >= 2 {
        let z1 = step_spec(z, c);
        let z2 = step_spec(z1, c);
        if !oob_spec(z1, cfg) && !oob_spec(z2, cfg) {
            lemma_paired_equals_single(z2, c, cfg, (budget - 2) as nat);
        }
    }
}

/// The classification of the point `(x, y)` under `cfg`: the single-step
/// trace from `z = 0` with `c = (x, y)` and the full budget.
pub open spec fn trace_spec(x: i64, y: i64, cfg: Config) -> ExitTrace {
    trace_rec(Complex64 { re: 0, im: 0 }, Complex64 { re: x, im: y }, cfg, cfg.max_steps as nat)
}

fn is_oob(z: &Complex64, cfg: &Config) -> (r: bool)
    ensures
        r == oob_spec(*z, *cfg),
{
    let ar: i128 = if z.re >= 0 {
        z.re as i128
    } else {
        -(z.re as i128)
    };
    let ai: i128 = if z.im >= 0 {
        z.im as i128
    } else {
        -(z.im as i128)
    };
    ar + (cfg.viewport_displacement.0 as i128) > cfg.viewport_size.0 as i128 || ai
        + (cfg.viewport_displacement.1 as i128) > cfg.viewport_size.1 as i128
}

/// Trace the point `(x, y)`: the paired-step loop, two recurrence steps per
/// bound test on the hot path.
pub fn trace(x: i64, y: i64, cfg: &Config) -> (r: ExitTrace)
    ensures
        r == trace_spec(x, y, *cfg),
{
    let c = Complex64::new(x, y);
    let mut z = Complex64::new(0, 0);
    let mut budget: u8 = cfg.max_steps;
    proof {
        lemma_paired_equals_single(z, c, *cfg, budget as nat);
    }
    while budget >= 2
        invariant
            c == (Complex64 { re: x, im: y }),
            budget <= cfg.max_steps,
            trace_paired_rec(z, c, *cfg, budget as nat) == trace_spec(x, y, *cfg),
        decreases budget,
    {
        let z1 = z.square().add(c);
        let z2 = z1.square().add(c);
        proof {
            assert(z1 == step_spec(z, c));
            assert(z2 == step_spec(z1, c));
        }
        if is_oob(&z1, cfg) {
            return ExitTrace::Early(budget - 1);
        }
        if is_oob(&z2, cfg) {
            return ExitTrace::Early(budget - 2);
        }
        z = z2;
        budget = budget - 2;
    }
    if budget == 1 {
        let z1 = z.square().add(c);
        proof {
            assert(z1 == step_spec(z, c));
        }
        if is_oob(&z1, cfg) {
            return ExitTrace::Early(0);
        }
    }
    ExitTrace::Late(0)
}

/// Trace the point `(x, y)` with the plain single-step loop: one bound test
/// per recurrence step.
pub fn trace_single(x: i64, y: i64, cfg: &Config) -> (r: ExitTrace)
    ensures
        r == trace_spec(x, y, *cfg),
{
    let c = Complex64::new(x, y);
    let mut z = Complex64::new(0, 0);
    let mut budget: u8 = cfg.max_steps;
    while budget >= 1
        invariant
            c == (Complex64 { re: x, im: y }),
            budget <= cfg.max_steps,
            trace_rec(z, c, *cfg, budget as nat) == trace_spec(x, y, *cfg),
        decreases budget,
    {
        let z1 = z.square().add(c);
        proof {
            assert(z1 == step_spec(z, c));
        }
        if is_oob(&z1, cfg) {
            return ExitTrace::Early(budget - 1);
        }
        z = z1;
        budget = budget - 1;
    }
    ExitTrace::Late(0)
}

/// Errors of the render orchestrator.
#[derive(Clone, Copy, Debug, PartialEq, Eq, Structural)]
pub enum RenderError {
    /// The color table could not be supplied.
    LutParsingFailure,
    /// The assembled buffer missed its expected length.
    MalformedBuffer { expected: usize, received: usize },
}

/// Fixed-point plane coordinate of pixel index `p` on an axis of `n` pixels
/// with viewport extent `extent` and displacement `disp`: center the pixel
/// grid on the axis, scale by the per-pixel step, displace.
pub open spec fn pix_to_plane(p: int, n: int, extent: int, disp: int) -> int {
    fix_add_spec(clamp_fix((p - n / 2) * fix_div_int_spec(extent, n)), disp)
}

/// Map a pixel index to its plane coordinate along one axis.
pub fn map_coord(p: u32, n: u32, extent: i64, disp: i64) -> (r: i64)
    requires
        n > 0,
    ensures
        r as int == pix_to_plane(p as int, n as int, extent as int, disp as int),
{
    let hstep: i64 = fix_div_int(extent, n);
    let diff: i64 = (p as i64) - (n as i64) / 2;
    proof {
        assert((diff as int) * (hstep as int) <= 0x1_0000_0000_0000_0000_0000_0000int && (
        diff as int) * (hstep as int) >= -0x1_0000_0000_0000_0000_0000_0000int)
            by (nonlinear_arith)
            requires
                -0x1_0000_0000 <= diff as int <= 0x1_0000_0000,
                -0x8000_0000_0000_0000 <= hstep as int <= 0x7fff_ffff_ffff_ffff,
        ;
    }
    let prod: i128 = (diff as i128) * (hstep as i128);
    fix_add(fix_clamp_wide(prod), disp)
}

/// The color a trace outcome selects: for an escape the table entry at the
/// unused step count, wrapped modulo the table length; for a bounded point
/// black, whatever the carried value.
pub open spec fn color_spec(t: ExitTrace, lut: Lut) -> Rgb {
    match t {
        ExitTrace::Early(n) => lut.table@[(n as int) % (lut.table@.len() as int)],
        ExitTrace::Late(_) => Rgb { r: 0, g: 0, b: 0 },
    }
}

/// Look the outcome's color up in the table.
pub fn color_of(t: &ExitTrace, lut: &Lut) -> (r: Rgb)
    requires
        lut.wf(),
    ensures
        r == color_spec(*t, *lut),
{
    match *t {
        ExitTrace::Early(n) => {
            let i: usize = (n as usize) % lut.table.len();
            lut.table[i]
        },
        ExitTrace::Late(_) => Rgb { r: 0, g: 0, b: 0 },
    }
}

/// The three bytes of one color.
pub open spec fn rgb_bytes(c: Rgb) -> Seq<u8> {
    seq![c.r, c.g, c.b]
}

/// The color of pixel `(px, py)`: map to the plane, trace, look up.
pub open spec fn pixel_spec(cfg: Config, lut: Lut, px: int, py: int) -> Rgb {
    color_spec(
        trace_spec(
            pix_to_plane(
                px,
                cfg.image_size.0 as int,
                cfg.viewport_size.0 as int,
                cfg.viewport_displacement.0 as int,
            ) as i64,
            pix_to_plane(
                py,
                cfg.image_size.1 as int,
                cfg.viewport_size.1 as int,
                cfg.viewport_displacement.1 as int,
            ) as i64,
            cfg,
        ),
        lut,
    )
}

/// The bytes of row `py`: three per pixel, left to right.
pub open spec fn row_spec(cfg: Config, lut: Lut, py: int) -> Seq<u8> {
    Seq::new(
        (3 * cfg.image_size.0) as nat,
        |i: int| rgb_bytes(pixel_spec(cfg, lut, i / 3, py))[i % 3],
    )
}

/// How many rows are computed directly: the top half, rounded up, when the
/// vertical displacement is zero (the viewport is then symmetric about the
/// horizontal center line), every row otherwise.
pub open spec fn computed_rows(cfg: Config) -> int {
    if cfg.viewport_displacement.1 == 0 {
        (cfg.image_size.1 as int + 1) / 2
    } else {
        cfg.image_size.1 as int
    }
}

/// The computed row whose bytes stand at output row `y`: `y` itself in the
/// computed range, the vertically reflected row below it.
pub open spec fn source_row(cfg: Config, y: int) -> int {
    if y < computed_rows(cfg) {
        y
    } else {
        cfg.image_size.1 as int - 1 - y
    }
}

/// The whole image: rows in order, each either computed or mirrored.
pub open spec fn image_spec(cfg: Config, lut: Lut) -> Seq<u8> {
    Seq::new(
        ((cfg.image_size.0 as int) * (cfg.image_size.1 as int) * 3) as nat,
        |i: int|
            row_spec(
                cfg,
                lut,
                source_row(cfg, i / (3 * cfg.image_size.0 as int)),
            )[i % (3 * cfg.image_size.0 as int)],
    )
}

/// The bytes of output row `y` of the finished image.
pub open spec fn image_row(cfg: Config, lut: Lut, y: int) -> Seq<u8> {
    image_spec(cfg, lut).subrange(
        y * (3 * cfg.image_size.0 as int),
        (y + 1) * (3 * cfg.image_size.0 as int),
    )
}

/// Law: with no vertical displacement, output row `y` equals output row
/// `height - 1 - y`.
pub proof fn lemma_mirror(cfg: Config, lut: Lut, y: int)
    requires
        cfg.wf(),
        cfg.viewport_displacement.1 == 0,
        0 <= y < cfg.image_size.1 as int,
    ensures
        image_row(cfg, lut, y) == image_row(cfg, lut, cfg.image_size.1 as int - 1 - y),
{
    let w3 = 3 * cfg.image_size.0 as int;
    let h = cfg.image_size.1 as int;
    let y2 = h - 1 - y;
    assert(source_row(cfg, y) == source_row(cfg, y2));
    assert(0 <= y * w3 && (y + 1) * w3 <= h * w3 && 0 <= y2 * w3 && (y2 + 1) * w3 <= h * w3)
        by (nonlinear_arith)
        requires
            0 <= y < h,
            0 <= y2 < h,
            w3 >= 0,
    ;
    assert(h * w3 == (cfg.image_size.0 as int) * h * 3) by (nonlinear_arith)
        requires
            w3 == 3 * cfg.image_size.0 as int,
    ;
    assert((y + 1) * w3 == y * w3 + w3 && (y2 + 1) * w3 == y2 * w3 + w3) by (nonlinear_arith);
    assert forall|k: int| 0 <= k < w3 implies #[trigger] image_row(cfg, lut, y)[k] == image_row(
        cfg,
        lut,
        y2,
    )[k] by {
        lemma_row_byte(cfg, lut, y, k);
        lemma_row_byte(cfg, lut, y2, k);
        assert(image_row(cfg, lut, y)[k] == image_spec(cfg, lut)[y * w3 + k]);
        assert(image_row(cfg, lut, y2)[k] == image_spec(cfg, lut)[y2 * w3 + k]);
    }
    assert(image_row(cfg, lut, y) =~= image_row(cfg, lut, y2));
}

/// Compute the bytes of one row.
pub fn render_row(cfg: &Config, lut: &Lut, py: u32) -> (r: Vec<u8>)
    requires
        cfg.wf(),
        lut.wf(),
        py < cfg.image_size.1,
        3 * (cfg.image_size.0 as int) <= usize::MAX as int,
    ensures
        r@ == row_spec(*cfg, *lut, py as int),
{
    let w = cfg.image_size.0;
    let y_pl = map_coord(py, cfg.image_size.1, cfg.viewport_size.1, cfg.viewport_displacement.1);
    let mut out: Vec<u8> = Vec::new();
    let mut px: u32 = 0;
    while px < w
        invariant
            px <= w,
            w == cfg.image_size.0,
            cfg.wf(),
            lut.wf(),
            3 * (w as int) <= usize::MAX as int,
            y_pl as int == pix_to_plane(
                py as int,
                cfg.image_size.1 as int,
                cfg.viewport_size.1 as int,
                cfg.viewport_displacement.1 as int,
            ),
            out@.len() == 3 * px as int,
            forall|i: int|
                0 <= i < out@.len() ==> out@[i] == #[trigger] row_spec(*cfg, *lut, py as int)[i],
        decreases w - px,
    {
        let x_pl = map_coord(px, w, cfg.viewport_size.0, cfg.viewport_displacement.0);
        let t = trace(x_pl, y_pl, cfg);
        let col = color_of(&t, lut);
        out.push(col.r);
        out.push(col.g);
        out.push(col.b);
        proof {
            assert(col == pixel_spec(*cfg, *lut, px as int, py as int));
            lemma_fundamental_div_mod_converse(3 * px as int, 3, px as int, 0);
            lemma_fundamental_div_mod_converse(3 * px as int + 1, 3, px as int, 1);
            lemma_fundamental_div_mod_converse(3 * px as int + 2, 3, px as int, 2);
        }
        px = px + 1;
    }
    proof {
        assert(out@ =~= row_spec(*cfg, *lut, py as int));
    }
    out
}

/// Compute the given number of rows in parallel, one worker task per row.
///
/// Relies on rayon: a `Range` is an indexed parallel iterator, and `map`
/// followed by `collect` into a `Vec` keeps index order, so entry `y` of the
/// result is exactly what `render_row` returns for `y`. Each row is computed
/// independently from the shared read-only inputs.
#[verifier::external_body]
fn par_render_rows(cfg: &Config, lut: &Lut, rows: u32) -> (r: Vec<Vec<u8>>)
    requires
        cfg.wf(),
        lut.wf(),
        rows <= cfg.image_size.1,
        3 * (cfg.image_size.0 as int) <= usize::MAX as int,
    ensures
        r@.len() == rows as int,
        forall|y: int| 0 <= y < rows as int ==> #[trigger] r@[y]@ == row_spec(*cfg, *lut, y),
{
    (0..rows).into_par_iter().map(|y| render_row(cfg, lut, y)).collect::<Vec<Vec<u8>>>()
}

/// Compute the given number of rows one after another.
fn seq_render_rows(cfg: &Config, lut: &Lut, rows: u32) -> (r: Vec<Vec<u8>>)
    requires
        cfg.wf(),
        lut.wf(),
        rows <= cfg.image_size.1,
        3 * (cfg.image_size.0 as int) <= usize::MAX as int,
    ensures
        r@.len() == rows as int,
        forall|y: int| 0 <= y < rows as int ==> #[trigger] r@[y]@ == row_spec(*cfg, *lut, y),
{
    let mut out: Vec<Vec<u8>> = Vec::new();
    let mut y: u32 = 0;
    while y < rows
        invariant
            y <= rows,
            cfg.wf(),
            lut.wf(),
            rows <= cfg.image_size.1,
            3 * (cfg.image_size.0 as int) <= usize::MAX as int,
            out@.len() == y as int,
            forall|i: int| 0 <= i < y as int ==> #[trigger] out@[i]@ == row_spec(*cfg, *lut, i),
        decreases rows - y,
    {
        let row = render_row(cfg, lut, y);
        out.push(row);
        y = y + 1;
    }
    out
}

/// How many rows to compute directly for `cfg`.
fn computed_rows_exec(cfg: &Config) -> (r: u32)
    requires
        cfg.wf(),
    ensures
        r as int == computed_rows(*cfg),
        r <= cfg.image_size.1,
{
    let h = cfg.image_size.1;
    if cfg.viewport_displacement.1 == 0 {
        h / 2 + h % 2
    } else {
        h
    }
}

/// Stitch computed rows into the flat image buffer, mirroring the bottom
/// half when the mirror optimization is on.
fn assemble(cfg: &Config, lut: &Lut, top: &Vec<Vec<u8>>) -> (r: Vec<u8>)
    requires
        cfg.wf(),
        (cfg.image_size.0 as int) * (cfg.image_size.1 as int) * 3 <= usize::MAX as int,
        top@.len() == computed_rows(*cfg),
        forall|y: int| 0 <= y < top@.len() ==> #[trigger] top@[y]@ == row_spec(*cfg, *lut, y),
    ensures
        r@ == image_spec(*cfg, *lut),
{
    let w = cfg.image_size.0;
    let h = cfg.image_size.1;
    proof {
        assert(3 * (w as int) <= (w as int) * (h as int) * 3) by (nonlinear_arith)
            requires
                w >= 1,
                h >= 1,
        ;
    }
    let mut buf: Vec<u8> = Vec::new();
    let mut y: u32 = 0;
    while y < h
        invariant
            y <= h,
            w == cfg.image_size.0,
            h == cfg.image_size.1,
            cfg.wf(),
            (w as int) * (h as int) * 3 <= usize::MAX as int,
            3 * (w as int) <= usize::MAX as int,
            top@.len() == computed_rows(*cfg),
            forall|i: int| 0 <= i < top@.len() ==> #[trigger] top@[i]@ == row_spec(*cfg, *lut, i),
            buf@.len() == y as int * (3 * w as int),
            forall|i: int|
                0 <= i < buf@.len() ==> buf@[i] == #[trigger] image_spec(*cfg, *lut)[i],
        decreases h - y,
    {
        let src: u32 = if cfg.viewport_displacement.1 == 0 && y >= top.len() as u32 {
            h - 1 - y
        } else {
            y
        };
        proof {
            assert(src as int == source_row(*cfg, y as int));
            assert(src < top@.len());
            assert(y as int * (3 * w as int) + 3 * (w as int) <= (w as int) * (h as int) * 3)
                by (nonlinear_arith)
                requires
                    0 <= y < h,
                    w >= 1,
            ;
        }
        let row = &top[src as usize];
        let mut k: usize = 0;
        while k < row.len()
            invariant
                w == cfg.image_size.0,
                h == cfg.image_size.1,
                cfg.wf(),
                0 <= y < h,
                row@ == row_spec(*cfg, *lut, src as int),
                src as int == source_row(*cfg, y as int),
                k <= row@.len(),
                row@.len() == 3 * w as int,
                (w as int) * (h as int) * 3 <= usize::MAX as int,
                y as int * (3 * w as int) + 3 * (w as int) <= (w as int) * (h as int) * 3,
                buf@.len() == y as int * (3 * w as int) + k as int,
                forall|i: int|
                    0 <= i < buf@.len() ==> buf@[i] == #[trigger] image_spec(*cfg, *lut)[i],
            decreases row@.len() - k,
        {
            let b = row[k];
            buf.push(b);
            proof {
                lemma_row_byte(*cfg, *lut, y as int, k as int);
            }
            k = k + 1;
        }
        proof {
            assert(y as int * (3 * w as int) + 3 * (w as int) == (y as int + 1) * (3 * w as int))
                by (nonlinear_arith);
        }
        y = y + 1;
    }
    proof {
        assert((w as int) * (h as int) * 3 == h as int * (3 * w as int)) by (nonlinear_arith);
        assert(buf@ =~= image_spec(*cfg, *lut));
    }
    buf
}

/// Render the image for `cfg` with the colors of `lut`: the computed rows in
/// parallel, the bottom half mirrored from the top when the vertical
/// displacement is zero, assembled row-major and length-checked.
///
/// Rows are independent, so the parallel dispatch returns the same bytes as
/// the sequential one; the result is a function of the inputs alone.
pub fn render(cfg: &Config, lut: &Lut) -> (r: Result<Vec<u8>, RenderError>)
    requires
        cfg.wf(),
        lut.wf(),
        (cfg.image_size.0 as int) * (cfg.image_size.1 as int) * 3 <= usize::MAX as int,
    ensures
        r is Ok,
        r matches Ok(buf) ==> buf@ == image_spec(*cfg, *lut) && buf@.len() == (
        cfg.image_size.0 as int) * (cfg.image_size.1 as int) * 3,
{
    proof {
        lemma_row_width_fits(*cfg);
    }
    let rows = computed_rows_exec(cfg);
    let top = par_render_rows(cfg, lut, rows);
    finish_buffer(cfg, lut, &top)
}

/// Render the image with every computed row produced one after another;
/// byte-identical to `render`.
pub fn render_sequential(cfg: &Config, lut: &Lut) -> (r: Result<Vec<u8>, RenderError>)
    requires
        cfg.wf(),
        lut.wf(),
        (cfg.image_size.0 as int) * (cfg.image_size.1 as int) * 3 <= usize::MAX as int,
    ensures
        r is Ok,
        r matches Ok(buf) ==> buf@ == image_spec(*cfg, *lut) && buf@.len() == (
        cfg.image_size.0 as int) * (cfg.image_size.1 as int) * 3,
{
    proof {
        lemma_row_width_fits(*cfg);
    }
    let rows = computed_rows_exec(cfg);
    let top = seq_render_rows(cfg, lut, rows);
    finish_buffer(cfg, lut, &top)
}

/// One row's bytes fit in a `usize` whenever the whole image's do.
proof fn lemma_row_width_fits(cfg: Config)
    requires
        cfg.wf(),
        (cfg.image_size.0 as int) * (cfg.image_size.1 as int) * 3 <= usize::MAX as int,
    ensures
        3 * (cfg.image_size.0 as int) <= usize::MAX as int,
{
    assert(3 * (cfg.image_size.0 as int) <= (cfg.image_size.0 as int) * (
    cfg.image_size.1 as int) * 3) by (nonlinear_arith)
        requires
            cfg.image_size.0 >= 1,
            cfg.image_size.1 >= 1,
    ;
}

/// Assemble the computed rows and check the buffer's length.
fn finish_buffer(cfg: &Config, lut: &Lut, top: &Vec<Vec<u8>>) -> (r: Result<
    Vec<u8>,
    RenderError,
>)
    requires
        cfg.wf(),
        (cfg.image_size.0 as int) * (cfg.image_size.1 as int) * 3 <= usize::MAX as int,
        top@.len() == computed_rows(*cfg),
        forall|y: int| 0 <= y < top@.len() ==> #[trigger] top@[y]@ == row_spec(*cfg, *lut, y),
    ensures
        r is Ok,
        r matches Ok(buf) ==> buf@ == image_spec(*cfg, *lut) && buf@.len() == (
        cfg.image_size.0 as int) * (cfg.image_size.1 as int) * 3,
{
    let buf = assemble(cfg, lut, top);
    proof {
        assert((cfg.image_size.0 as int) * (cfg.image_size.1 as int) <= usize::MAX as int)
            by (nonlinear_arith)
            requires
                (cfg.image_size.0 as int) * (cfg.image_size.1 as int) * 3 <= usize::MAX as int,
                cfg.image_size.0 >= 0,
                cfg.image_size.1 >= 0,
        ;
    }
    let expected: usize = (cfg.image_size.0 as usize) * (cfg.image_size.1 as usize) * 3;
    if buf.len() == expected {
        Ok(buf)
    } else {
        Err(RenderError::MalformedBuffer { expected, received: buf.len() })
    }
}

/// Byte `k` of output row `y` is byte `k` of the row's source.
proof fn lemma_row_byte(cfg: Config, lut: Lut, y: int, k: int)
    requires
        cfg.wf(),
        0 <= y < cfg.image_size.1 as int,
        0 <= k < 3 * cfg.image_size.0 as int,
    ensures
        image_spec(cfg, lut)[y * (3 * cfg.image_size.0 as int) + k] == row_spec(
            cfg,
            lut,
            source_row(cfg, y),
        )[k],
        0 <= y * (3 * cfg.image_size.0 as int) + k < (cfg.image_size.0 as int) * (
        cfg.image_size.1 as int) * 3,
{
    let w3 = 3 * cfg.image_size.0 as int;
    let h = cfg.image_size.1 as int;
    let i = y * w3 + k;
    lemma_fundamental_div_mod_converse(i, w3, y, k);
    assert(0 <= i && i < h * w3) by (nonlinear_arith)
        requires
            0 <= k < w3,
            0 <= y < h,
            i == y * w3 + k,
    ;
    assert(h * w3 == (cfg.image_size.0 as int) * h * 3) by (nonlinear_arith)
        requires
            w3 == 3 * cfg.image_size.0 as int,
    ;
}

} // verus!
