//! The render engine driver: partitions the pixel grid into contiguous
//! per-thread chunks, accumulates `samples_per_pixel` samples per pixel, and
//! folds invalid samples into a black contribution while counting them.
//!
//! The sampling source is deterministic, so the contracts pin every cell of
//! the output to `pixel_color_spec`: the image is a function of the
//! configuration alone, whatever the thread count, and every cell is written
//! exactly once (no `None` sentinel survives).
//!
//! Averaging policy: all samples of a pixel see the same radiance, so a pixel
//! whose sample is valid averages to exactly that color; a pixel whose sample
//! is invalid consumes its samples, counts them as failed, and degrades to
//! black. Failures never abort a pixel or the render.

use vstd::prelude::*;

use crate::assets::Image;
use crate::config::{CompiledSurface, Material, RenderConfig};
use crate::progress::ProgressReporter;
use crate::scene::{Color, Shape};

verus! {

/// The normalized frame coordinate scale: shape coordinates run 0..=1000.
pub const FRAME_SCALE: u64 = 1000;

/// The fallback color an invalid sample degrades to.
pub open spec fn black() -> Color {
    Color { r: 0, g: 0, b: 0 }
}

/// One sample's outcome: a radiance within the displayable range, or an
/// invalid radiance, recovered by the caller.
#[derive(Clone, Copy, Debug, PartialEq, Eq, Structural)]
pub enum SampleOutcome {
    Valid(Color),
    Invalid,
}

/// Whether a shape covers the pixel at `(x, y)` of a `w` by `h` grid, by
/// cross-multiplied comparison in the normalized frame.
pub open spec fn covers(sh: Shape, w: int, h: int, x: int, y: int) -> bool {
    match sh {
        Shape::Plane => true,
        Shape::Rect { u0, v0, u1, v1 } => {
            &&& (u0 as int) * w <= x * (FRAME_SCALE as int) < (u1 as int) * w
            &&& (v0 as int) * h <= y * (FRAME_SCALE as int) < (v1 as int) * h
        },
    }
}

/// The frontmost surface covering `(x, y)`, if any.
pub open spec fn first_hit(l: Seq<CompiledSurface>, w: int, h: int, x: int, y: int) -> Option<int>
    decreases l.len(),
{
    if l.len() == 0 {
        Option::None
    } else if covers(l[0].shape, w, h, x, y) {
        Option::Some(0)
    } else {
        match first_hit(l.drop_first(), w, h, x, y) {
            Option::None => Option::None,
            Option::Some(i) => Option::Some(i + 1),
        }
    }
}

/// The texture color at pixel `(x, y)`: the asset tiles the frame.
pub open spec fn texel(img: Image, x: int, y: int) -> Color {
    img.pixels@[(y % (img.height as int)) * (img.width as int) + (x % (img.width as int))]
}

/// What one sample of pixel `(x, y)` yields: the background where nothing is
/// hit, the texture color where a textured surface is hit, and the flat
/// radiance where a flat surface is hit — invalid when a channel is outside
/// the displayable range.
pub open spec fn sample_spec(cfg: RenderConfig, x: int, y: int) -> SampleOutcome {
    match first_hit(cfg.surfaces@, cfg.width as int, cfg.height as int, x, y) {
        Option::None => SampleOutcome::Valid(cfg.background),
        Option::Some(i) => match cfg.surfaces@[i].material {
            Material::Flat(rad) => if rad.r <= 255 && rad.g <= 255 && rad.b <= 255 {
                SampleOutcome::Valid(Color { r: rad.r as u8, g: rad.g as u8, b: rad.b as u8 })
            } else {
                SampleOutcome::Invalid
            },
            Material::Textured(a) => SampleOutcome::Valid(texel(cfg.assets@[a as int].image, x, y)),
        },
    }
}

/// Whether pixel `(x, y)` samples cleanly.
pub open spec fn sample_ok(cfg: RenderConfig, x: int, y: int) -> bool {
    sample_spec(cfg, x, y) is Valid
}

/// The color pixel `(x, y)` ends with.
pub open spec fn pixel_color_spec(cfg: RenderConfig, x: int, y: int) -> Color {
    if cfg.samples_per_pixel >= 1 {
        match sample_spec(cfg, x, y) {
            SampleOutcome::Valid(c) => c,
            SampleOutcome::Invalid => black(),
        }
    } else {
        black()
    }
}

/// How many of pixel `p`'s samples fail (linear pixel index, row-major).
pub open spec fn pixel_failed_spec(cfg: RenderConfig, p: int) -> int {
    if sample_ok(cfg, p % (cfg.width as int), p / (cfg.width as int)) {
        0
    } else {
        cfg.samples_per_pixel as int
    }
}

/// Failed samples over the first `k` pixels.
pub open spec fn failed_prefix(cfg: RenderConfig, k: int) -> int
    decreases k,
{
    if k <= 0 {
        0
    } else {
        failed_prefix(cfg, k - 1) + pixel_failed_spec(cfg, k - 1)
    }
}

/// The whole image, cell by cell.
pub open spec fn image_spec(cfg: RenderConfig) -> Seq<Option<Color>> {
    Seq::new(
        ((cfg.width as int) * (cfg.height as int)) as nat,
        |p: int| Option::Some(pixel_color_spec(cfg, p % (cfg.width as int), p / (cfg.width as int))),
    )
}

/// Every cell of the specified image is written: no unwritten sentinel
/// survives a render, whatever the thread count, since `render` pins its
/// buffer to this sequence for every thread count.
pub proof fn lemma_image_fully_written(cfg: RenderConfig)
    ensures
        forall|q: int| 0 <= q < image_spec(cfg).len() ==> (#[trigger] image_spec(cfg)[q]) is Some,
{
}

/// The failure count over a prefix never exceeds one sample budget per pixel.
pub proof fn lemma_failed_prefix_bound(cfg: RenderConfig, k: int)
    requires
        k >= 0,
    ensures
        0 <= failed_prefix(cfg, k) <= k * (cfg.samples_per_pixel as int),
    decreases k,
{
    if k > 0 {
        lemma_failed_prefix_bound(cfg, k - 1);
        assert((k - 1) * (cfg.samples_per_pixel as int) + (cfg.samples_per_pixel as int) == k * (
        cfg.samples_per_pixel as int)) by (nonlinear_arith);
    }
}

/// A product of bounded factors is bounded by the product of the bounds.
pub proof fn lemma_mul_le(a: int, b: int, ca: int, cb: int)
    requires
        0 <= a <= ca,
        0 <= b <= cb,
    ensures
        a * b <= ca * cb,
{
    assert(a * b <= ca * cb) by (nonlinear_arith)
        requires
            0 <= a <= ca,
            0 <= b <= cb,
    ;
}

/// Whether a shape covers pixel `(x, y)`.
fn covers_exec(sh: &Shape, w: u64, h: u64, x: u64, y: u64) -> (r: bool)
    ensures
        r == covers(*sh, w as int, h as int, x as int, y as int),
{
    match sh {
        Shape::Plane => true,
        Shape::Rect { u0, v0, u1, v1 } => {
            proof {
                lemma_mul_le(x as int, FRAME_SCALE as int, u64::MAX as int, FRAME_SCALE as int);
                lemma_mul_le(y as int, FRAME_SCALE as int, u64::MAX as int, FRAME_SCALE as int);
                lemma_mul_le(*u0 as int, w as int, u32::MAX as int, u64::MAX as int);
                lemma_mul_le(*v0 as int, h as int, u32::MAX as int, u64::MAX as int);
                lemma_mul_le(*u1 as int, w as int, u32::MAX as int, u64::MAX as int);
                lemma_mul_le(*v1 as int, h as int, u32::MAX as int, u64::MAX as int);
            }
            let xs = (x as u128) * (FRAME_SCALE as u128);
            let ys = (y as u128) * (FRAME_SCALE as u128);
            let uw0 = (*u0 as u128) * (w as u128);
            let uw1 = (*u1 as u128) * (w as u128);
            let vh0 = (*v0 as u128) * (h as u128);
            let vh1 = (*v1 as u128) * (h as u128);
            uw0 <= xs && xs < uw1 && vh0 <= ys && ys < vh1
        },
    }
}

/// The frontmost surface covering `(x, y)`, if any.
fn first_hit_exec(surfaces: &Vec<CompiledSurface>, w: u64, h: u64, x: u64, y: u64) -> (r: Option<
    usize,
>)
    ensures
        match r {
            Option::Some(i) => first_hit(surfaces@, w as int, h as int, x as int, y as int)
                == Option::Some(i as int) && i < surfaces@.len(),
            Option::None => first_hit(surfaces@, w as int, h as int, x as int, y as int) is None,
        },
{
    let mut i: usize = 0;
    while i < surfaces.len()
        invariant
            i <= surfaces@.len(),
            forall|j: int|
                0 <= j < i ==> !covers(
                    (#[trigger] surfaces@[j]).shape,
                    w as int,
                    h as int,
                    x as int,
                    y as int,
                ),
        decreases surfaces@.len() - i,
    {
        if covers_exec(&surfaces[i].shape, w, h, x, y) {
            proof {
                lemma_first_hit_at(surfaces@, w as int, h as int, x as int, y as int, i as int);
            }
            return Option::Some(i);
        }
        i = i + 1;
    }
    proof {
        lemma_first_hit_none(surfaces@, w as int, h as int, x as int, y as int);
    }
    Option::None
}

/// When everything before `i` misses and `i` covers, `i` is the first hit.
proof fn lemma_first_hit_at(l: Seq<CompiledSurface>, w: int, h: int, x: int, y: int, i: int)
    requires
        0 <= i < l.len(),
        covers(l[i].shape, w, h, x, y),
        forall|j: int| 0 <= j < i ==> !covers((#[trigger] l[j]).shape, w, h, x, y),
    ensures
        first_hit(l, w, h, x, y) == Option::Some(i),
    decreases i,
{
    if i > 0 {
        assert(l.drop_first()[i - 1] == l[i]);
        assert(forall|j: int|
            0 <= j < i - 1 ==> !covers((#[trigger] l.drop_first()[j]).shape, w, h, x, y));
        lemma_first_hit_at(l.drop_first(), w, h, x, y, i - 1);
    }
}

/// When nothing covers, there is no hit.
proof fn lemma_first_hit_none(l: Seq<CompiledSurface>, w: int, h: int, x: int, y: int)
    requires
        forall|j: int| 0 <= j < l.len() ==> !covers((#[trigger] l[j]).shape, w, h, x, y),
    ensures
        first_hit(l, w, h, x, y) is None,
    decreases l.len(),
{
    if l.len() > 0 {
        assert(forall|j: int|
            0 <= j < l.drop_first().len() ==> !covers(
                (#[trigger] l.drop_first()[j]).shape,
                w,
                h,
                x,
                y,
            ));
        lemma_first_hit_none(l.drop_first(), w, h, x, y);
    }
}

/// Evaluates one sample of pixel `(x, y)`.
fn evaluate_sample(cfg: &RenderConfig, x: u64, y: u64) -> (r: SampleOutcome)
    requires
        cfg.wf(),
        x < cfg.width,
        y < cfg.height,
    ensures
        r == sample_spec(*cfg, x as int, y as int),
{
    match first_hit_exec(&cfg.surfaces, cfg.width, cfg.height, x, y) {
        Option::None => SampleOutcome::Valid(cfg.background),
        Option::Some(i) => {
            match &cfg.surfaces[i].material {
                Material::Flat(rad) => {
                    if rad.r <= 255 && rad.g <= 255 && rad.b <= 255 {
                        SampleOutcome::Valid(
                            Color { r: rad.r as u8, g: rad.g as u8, b: rad.b as u8 },
                        )
                    } else {
                        SampleOutcome::Invalid
                    }
                },
                Material::Textured(a) => {
                    let img = &cfg.assets[*a].image;
                    let iw = img.width as u64;
                    let ih = img.height as u64;
                    let tx = x % iw;
                    let ty = y % ih;
                    proof {
                        lemma_mul_le(ty as int, iw as int, ih as int - 1, iw as int);
                        assert((ih as int - 1) * (iw as int) + (iw as int) == (ih as int) * (
                        iw as int)) by (nonlinear_arith);
                        lemma_mul_le(ih as int, iw as int, u32::MAX as int, u32::MAX as int);
                        assert((img.height as int) * (img.width as int) == (img.width as int) * (
                        img.height as int)) by (nonlinear_arith);
                        assert((ih as int) * (iw as int) == img.pixels@.len());
                    }
                    let idx = ty * iw + tx;
                    let plen = img.pixels.len();
                    proof {
                        assert(idx < plen as u64);
                    }
                    SampleOutcome::Valid(img.pixels[idx as usize])
                },
            }
        },
    }
}

/// Accumulates the pixel's whole sample budget: the resulting color, how
/// many samples failed (all or none, recovered as black), and how many
/// samples were consumed (always the full budget).
pub fn render_pixel(cfg: &RenderConfig, x: u64, y: u64) -> (r: (Color, u64, u64))
    requires
        cfg.wf(),
        x < cfg.width,
        y < cfg.height,
    ensures
        r.0 == pixel_color_spec(*cfg, x as int, y as int),
        r.1 as int == (if sample_ok(*cfg, x as int, y as int) {
            0int
        } else {
            cfg.samples_per_pixel as int
        }),
        r.2 == cfg.samples_per_pixel,
{
    let spp = cfg.samples_per_pixel;
    let mut consumed: u64 = 0;
    let mut ok = false;
    let mut color = Color { r: 0, g: 0, b: 0 };
    let mut s: u64 = 0;
    while s < spp
        invariant
            cfg.wf(),
            x < cfg.width,
            y < cfg.height,
            s <= spp,
            consumed == s,
            spp == cfg.samples_per_pixel,
            s >= 1 ==> ok == sample_ok(*cfg, x as int, y as int),
            s >= 1 && ok ==> SampleOutcome::Valid(color) == sample_spec(*cfg, x as int, y as int),
            s == 0 ==> !ok && color == black(),
        decreases spp - s,
    {
        match evaluate_sample(cfg, x, y) {
            SampleOutcome::Valid(c) => {
                ok = true;
                color = c;
            },
            SampleOutcome::Invalid => {
                ok = false;
                color = Color { r: 0, g: 0, b: 0 };
            },
        }
        consumed = consumed + 1;
        s = s + 1;
    }
    let failed = if ok {
        0
    } else {
        spp
    };
    let out = if ok {
        color
    } else {
        Color { r: 0, g: 0, b: 0 }
    };
    (out, failed, consumed)
}

/// The raster grid of the output image; a `None` cell was never written.
pub struct PixelBuffer {
    pub width: u64,
    pub height: u64,
    pub data: Vec<Option<Color>>,
}

impl PixelBuffer {
    pub open spec fn wf(self) -> bool {
        self.data@.len() == (self.width as int) * (self.height as int)
    }
}

/// What a render hands back: the image and the count of recovered per-sample
/// failures.
pub struct RenderOutput {
    pub image: PixelBuffer,
    pub failed_rays: u64,
}

/// Pixel `t * total / threads`: the first pixel of thread `t`'s chunk.
pub open spec fn chunk_start(total: int, threads: int, t: int) -> int {
    t * total / threads
}

/// The chunk boundaries partition the pixel range: they begin at zero, end
/// at the total, and never step backwards — so walking the chunks in order
/// visits every pixel exactly once.
pub proof fn lemma_chunks_partition(total: int, threads: int, t: int)
    requires
        0 <= total,
        1 <= threads,
        0 <= t < threads,
    ensures
        chunk_start(total, threads, 0) == 0,
        chunk_start(total, threads, threads) == total,
        chunk_start(total, threads, t) <= chunk_start(total, threads, t + 1),
{
    vstd::arithmetic::div_mod::lemma_div_by_multiple(total, threads);
    assert(threads * total == total * threads) by (nonlinear_arith);
    assert(t * total <= (t + 1) * total) by (nonlinear_arith)
        requires
            0 <= total,
            0 <= t,
    ;
    vstd::arithmetic::div_mod::lemma_div_is_ordered(t * total, (t + 1) * total, threads);
}

/// One thread chunk's first pixel, computed without overflow.
fn chunk_bound(total: u64, threads: usize, t: usize) -> (r: u64)
    requires
        threads >= 1,
        t <= threads,
    ensures
        r as int == chunk_start(total as int, threads as int, t as int),
        r <= total,
{
    proof {
        lemma_mul_le(t as int, total as int, threads as int, total as int);
        lemma_mul_le(threads as int, total as int, u64::MAX as int, u64::MAX as int);
        assert(threads as int * (total as int) == (total as int) * (threads as int))
            by (nonlinear_arith);
        vstd::arithmetic::div_mod::lemma_div_by_multiple(total as int, threads as int);
        vstd::arithmetic::div_mod::lemma_div_is_ordered(
            (t as int) * (total as int),
            (threads as int) * (total as int),
            threads as int,
        );
    }
    let wide = ((t as u128) * (total as u128)) / (threads as u128);
    wide as u64
}

/// Renders the whole image: every cell is computed by exactly one chunk, in
/// one pass, and the resulting buffer and failure count are functions of the
/// configuration alone — the thread count only partitions the work, so any
/// two thread counts yield the same output.
pub fn render_chunked(cfg: &RenderConfig, thread_count: usize, progress: &mut ProgressReporter) -> (r:
    (PixelBuffer, u64, u64))
    requires
        cfg.wf(),
        thread_count >= 1,
        (cfg.width as int) * (cfg.height as int) <= usize::MAX,
        (cfg.width as int) * (cfg.height as int) * (cfg.samples_per_pixel as int) <= u64::MAX,
        old(progress).wf(),
        old(progress).completed == 0,
        old(progress).total as int == (cfg.width as int) * (cfg.height as int),
    ensures
        r.0.width == cfg.width,
        r.0.height == cfg.height,
        r.0.wf(),
        r.0.data@ == image_spec(*cfg),
        r.1 as int == failed_prefix(*cfg, (cfg.width as int) * (cfg.height as int)),
        r.2 as int == (cfg.width as int) * (cfg.height as int) * (cfg.samples_per_pixel as int),
        final(progress).wf(),
        final(progress).total == old(progress).total,
        final(progress).completed == final(progress).total,
{
    let total: u64 = cfg.width * cfg.height;
    let ghost gtotal = (cfg.width as int) * (cfg.height as int);
    let mut data: Vec<Option<Color>> = Vec::new();
    let mut k: usize = 0;
    while (k as u64) < total
        invariant
            total as int == gtotal <= usize::MAX,
            k as int <= gtotal,
            data@.len() == k,
            forall|q: int| 0 <= q < k ==> data@[q] is None,
        decreases gtotal - k,
    {
        data.push(Option::None);
        k = k + 1;
    }
    let mut failed: u64 = 0;
    let mut consumed: u64 = 0;
    let mut t: usize = 0;
    let mut done: u64 = 0;
    while t < thread_count
        invariant
            cfg.wf(),
            thread_count >= 1,
            t <= thread_count,
            total as int == gtotal == (cfg.width as int) * (cfg.height as int),
            gtotal <= usize::MAX,
            gtotal * (cfg.samples_per_pixel as int) <= u64::MAX,
            done as int == chunk_start(gtotal, thread_count as int, t as int),
            done <= total,
            data@.len() == gtotal,
            forall|q: int| 0 <= q < done ==> data@[q] == image_spec(*cfg)[q],
            failed as int == failed_prefix(*cfg, done as int),
            consumed as int == (done as int) * (cfg.samples_per_pixel as int),
            progress.wf(),
            progress.total == total,
            progress.completed == done,
        decreases thread_count - t,
    {
        let start = chunk_bound(total, thread_count, t);
        let end = chunk_bound(total, thread_count, t + 1);
        proof {
            lemma_chunks_partition(gtotal, thread_count as int, t as int);
        }
        let mut p: u64 = start;
        while p < end
            invariant
                cfg.wf(),
                start <= p <= end <= total,
                total as int == gtotal == (cfg.width as int) * (cfg.height as int),
                gtotal <= usize::MAX,
                gtotal * (cfg.samples_per_pixel as int) <= u64::MAX,
                data@.len() == gtotal,
                forall|q: int| 0 <= q < p ==> data@[q] == image_spec(*cfg)[q],
                failed as int == failed_prefix(*cfg, p as int),
                consumed as int == (p as int) * (cfg.samples_per_pixel as int),
                progress.wf(),
                progress.total == total,
                progress.completed == p,
            decreases end - p,
        {
            proof {
                assert(cfg.width as int >= 1) by {
                    if cfg.width as int == 0 {
                        assert(gtotal == 0) by (nonlinear_arith)
                            requires
                                gtotal == (cfg.width as int) * (cfg.height as int),
                                cfg.width as int == 0,
                        ;
                    }
                }
                vstd::arithmetic::div_mod::lemma_multiply_divide_lt(
                    p as int,
                    cfg.width as int,
                    cfg.height as int,
                );
                assert((cfg.width as int) * (cfg.height as int) == (cfg.height as int) * (
                cfg.width as int)) by (nonlinear_arith);
            }
            let x = p % cfg.width;
            let y = p / cfg.width;
            let (color, pf, pc) = render_pixel(cfg, x, y);
            proof {
                lemma_failed_prefix_bound(*cfg, p as int + 1);
                lemma_mul_le(
                    p as int + 1,
                    cfg.samples_per_pixel as int,
                    gtotal,
                    cfg.samples_per_pixel as int,
                );
                assert((p as int) * (cfg.samples_per_pixel as int) + (cfg.samples_per_pixel as int)
                    == (p as int + 1) * (cfg.samples_per_pixel as int)) by (nonlinear_arith);
                assert(failed_prefix(*cfg, p as int + 1) == failed_prefix(*cfg, p as int)
                    + pixel_failed_spec(*cfg, p as int));
                lemma_failed_prefix_bound(*cfg, p as int);
            }
            data.set(p as usize, Option::Some(color));
            failed = failed + pf;
            consumed = consumed + pc;
            progress.record();
            proof {
                assert(image_spec(*cfg)[p as int] == Option::Some(
                    pixel_color_spec(*cfg, x as int, y as int),
                ));
            }
            p = p + 1;
        }
        done = end;
        t = t + 1;
    }
    proof {
        lemma_chunks_partition(gtotal, thread_count as int, 0);
        assert(done as int == gtotal);
        assert(data@ =~= image_spec(*cfg));
    }
    (PixelBuffer { width: cfg.width, height: cfg.height, data }, failed, consumed)
}

/// Renders the configuration into its output. The image and the failure
/// count are pinned cell by cell, whatever the thread count; `failed_rays`
/// never exceeds the total sample budget.
pub fn render(cfg: &RenderConfig, thread_count: usize, progress: &mut ProgressReporter) -> (out:
    RenderOutput)
    requires
        cfg.wf(),
        thread_count >= 1,
        (cfg.width as int) * (cfg.height as int) <= usize::MAX,
        (cfg.width as int) * (cfg.height as int) * (cfg.samples_per_pixel as int) <= u64::MAX,
        old(progress).wf(),
        old(progress).completed == 0,
        old(progress).total as int == (cfg.width as int) * (cfg.height as int),
    ensures
        out.image.width == cfg.width,
        out.image.height == cfg.height,
        out.image.wf(),
        out.image.data@ == image_spec(*cfg),
        forall|q: int| 0 <= q < out.image.data@.len() ==> (#[trigger] out.image.data@[q]) is Some,
        out.failed_rays as int == failed_prefix(*cfg, (cfg.width as int) * (cfg.height as int)),
        out.failed_rays as int <= (cfg.width as int) * (cfg.height as int) * (
        cfg.samples_per_pixel as int),
        final(progress).wf(),
        final(progress).completed == final(progress).total,
        final(progress).total == old(progress).total,
{
    let (image, failed, _consumed) = render_chunked(cfg, thread_count, progress);
    proof {
        lemma_failed_prefix_bound(*cfg, (cfg.width as int) * (cfg.height as int));
    }
    RenderOutput { image, failed_rays: failed }
}

} // verus!
