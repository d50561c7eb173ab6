use vstd::prelude::*;
use crate::config::RenderConfig;
use crate::escape::{escape_spec, escape_time};
use crate::glow::{intensity, intensity_spec};
use crate::partition::{assigned_row, assigned_rows, lemma_partition_complete, row_count};

verus! {

/// Gray level of pixel `(x, y)`: the point it maps to is run through the
/// escape-time iteration and its verdict through the brightness curve.
pub open spec fn pixel_value(cfg: RenderConfig, x: int, y: int) -> u8 {
    let e = escape_spec(cfg.point_re(x), cfg.point_im(y), cfg.iterations as nat);
    intensity_spec(e.0, e.1 as int, cfg.color_factor as int) as u8
}

/// The gray levels of image row `y`, left to right.
pub open spec fn row_pixels(cfg: RenderConfig, y: int) -> Seq<u8> {
    Seq::new(cfg.width as nat, |x: int| pixel_value(cfg, x, y))
}

/// What worker `k` hands back: its rows, in the order it computes them.
pub open spec fn worker_rows(cfg: RenderConfig, k: int) -> Seq<Seq<u8>> {
    Seq::new(
        row_count(cfg.height as int, cfg.threads as int, k) as nat,
        |j: int| row_pixels(cfg, assigned_row(cfg.threads as int, k, j)),
    )
}

/// The finished image: `width * height` gray levels, row-major.
pub open spec fn image(cfg: RenderConfig) -> Seq<u8> {
    Seq::new(
        (cfg.width * cfg.height) as nat,
        |p: int| pixel_value(cfg, p % (cfg.width as int), p / (cfg.width as int)),
    )
}

/// The buffer assembled from the workers' outputs `parts`: the pixel at
/// `(x, y)` is entry `x` of row `y / threads` of worker `y % threads`, or 0
/// where that entry is missing.
pub open spec fn assembled(cfg: RenderConfig, parts: Seq<Seq<Seq<u8>>>) -> Seq<u8> {
    Seq::new(
        (cfg.width * cfg.height) as nat,
        |p: int|
            {
                let y = p / (cfg.width as int);
                let x = p % (cfg.width as int);
                let k = y % (cfg.threads as int);
                let j = y / (cfg.threads as int);
                if k < parts.len() && j < parts[k].len() && x < parts[k][j].len() {
                    parts[k][j][x]
                } else {
                    0u8
                }
            },
    )
}

/// The outputs of all workers, each the rows that it owns.
pub open spec fn valid_parts(cfg: RenderConfig, parts: Seq<Seq<Seq<u8>>>) -> bool {
    &&& parts.len() == cfg.threads
    &&& forall|k: int| 0 <= k < cfg.threads ==> #[trigger] parts[k] == worker_rows(cfg, k)
}

/// Computes the gray level of pixel `(x, y)`.
pub fn compute_pixel(cfg: &RenderConfig, x: usize, y: usize) -> (r: u8)
    requires
        cfg.wf(),
        x < cfg.width,
        y < cfg.height,
    ensures
        r == pixel_value(*cfg, x as int, y as int),
{
    let c = cfg.pixel_point(x, y);
    let e = escape_time(c, cfg.iterations);
    intensity(e, cfg.color_factor)
}

/// Computes every row that worker `n` owns (rows `n`, `n + threads`, ...),
/// each as `width` gray levels.
pub fn mandelbrotrow(cfg: &RenderConfig, n: usize) -> (r: Vec<Vec<u8>>)
    requires
        cfg.wf(),
        n < cfg.threads,
    ensures
        r.deep_view() == worker_rows(*cfg, n as int),
{
    let rows = assigned_rows(cfg.height, cfg.threads, n);
    proof {
        lemma_partition_complete(cfg.height, cfg.threads);
    }
    let mut result: Vec<Vec<u8>> = Vec::new();
    let mut j: usize = 0;
    while j < rows.len()
        invariant
            cfg.wf(),
            n < cfg.threads,
            rows@.len() == row_count(cfg.height as int, cfg.threads as int, n as int),
            forall|i: int|
                0 <= i < rows@.len() ==> rows@[i] == assigned_row(cfg.threads as int, n as int, i),
            forall|k: int, i: int|
                0 <= k < cfg.threads && 0 <= i < row_count(cfg.height as int, cfg.threads as int, k)
                    ==> 0 <= #[trigger] assigned_row(cfg.threads as int, k, i) < cfg.height,
            j <= rows@.len(),
            result@.len() == j,
            forall|i: int| 0 <= i < j ==> #[trigger] result@[i]@ == row_pixels(*cfg, rows@[i] as int),
        decreases rows@.len() - j,
    {
        let y = rows[j];
        assert(y < cfg.height);
        let mut line: Vec<u8> = Vec::new();
        let mut x: usize = 0;
        while x < cfg.width
            invariant
                cfg.wf(),
                y < cfg.height,
                x <= cfg.width,
                line@.len() == x,
                forall|i: int| 0 <= i < x ==> line@[i] == pixel_value(*cfg, i, y as int),
            decreases cfg.width - x,
        {
            line.push(compute_pixel(cfg, x, y));
            x = x + 1;
        }
        assert(line@ == row_pixels(*cfg, y as int));
        result.push(line);
        j = j + 1;
    }
    assert forall|i: int| 0 <= i < result@.len() implies #[trigger] result@[i].deep_view()
        == result@[i]@ by {
        assert(result@[i].deep_view() =~= result@[i]@);
    }
    assert(result.deep_view() =~= worker_rows(*cfg, n as int));
    result
}

/// Writes the workers' rows into a `width * height` buffer: row `y` comes
/// from worker `y % threads`, as its `(y / threads)`-th row. A pixel whose
/// row or entry is missing stays 0 (black).
pub fn assemble(cfg: &RenderConfig, parts: &Vec<Vec<Vec<u8>>>) -> (r: Vec<u8>)
    requires
        cfg.wf(),
    ensures
        r@ == assembled(*cfg, parts.deep_view()),
{
    let total: usize = cfg.width * cfg.height;
    let mut buffer: Vec<u8> = Vec::new();
    let mut p: usize = 0;
    while p < total
        invariant
            cfg.wf(),
            total == cfg.width * cfg.height,
            p <= total,
            buffer@.len() == p,
            forall|i: int| 0 <= i < p ==> buffer@[i] == #[trigger] assembled(*cfg, parts.deep_view())[i],
        decreases total - p,
    {
        let y = p / cfg.width;
        let x = p % cfg.width;
        let k = y % cfg.threads;
        let j = y / cfg.threads;
        let mut v: u8 = 0;
        if k < parts.len() {
            let part = &parts[k];
            if j < part.len() {
                let row = &part[j];
                if x < row.len() {
                    v = row[x];
                }
            }
        }
        buffer.push(v);
        p = p + 1;
    }
    assert(buffer@ =~= assembled(*cfg, parts.deep_view()));
    buffer
}

/// Runs every worker in turn and assembles their rows into the image.
pub fn render(cfg: &RenderConfig) -> (r: Vec<u8>)
    requires
        cfg.wf(),
    ensures
        r@ == image(*cfg),
{
    let mut parts: Vec<Vec<Vec<u8>>> = Vec::new();
    let mut k: usize = 0;
    while k < cfg.threads
        invariant
            cfg.wf(),
            k <= cfg.threads,
            parts@.len() == k,
            forall|i: int| 0 <= i < k ==> #[trigger] parts@[i].deep_view() == worker_rows(*cfg, i),
        decreases cfg.threads - k,
    {
        parts.push(mandelbrotrow(cfg, k));
        k = k + 1;
    }
    proof {
        lemma_assembled_image(*cfg, parts.deep_view());
    }
    assemble(cfg, &parts)
}

/// Assembling the rows that the workers own yields the image.
proof fn lemma_assembled_image(cfg: RenderConfig, parts: Seq<Seq<Seq<u8>>>)
    requires
        cfg.wf(),
        valid_parts(cfg, parts),
    ensures
        assembled(cfg, parts) == image(cfg),
{
    let w = cfg.width as int;
    let h = cfg.height as int;
    let t = cfg.threads as int;
    lemma_partition_complete(cfg.height, cfg.threads);
    assert forall|p: int| 0 <= p < w * h implies #[trigger] assembled(cfg, parts)[p]
        == image(cfg)[p] by {
        let y = p / w;
        let x = p % w;
        vstd::arithmetic::div_mod::lemma_fundamental_div_mod(p, w);
        assert(0 <= y < h) by {
            vstd::arithmetic::div_mod::lemma_div_pos_is_pos(p, w);
            vstd::arithmetic::div_mod::lemma_div_is_ordered(p, w * h - 1, w);
            assert(w * h - 1 == w * (h - 1) + (w - 1)) by (nonlinear_arith);
            vstd::arithmetic::div_mod::lemma_fundamental_div_mod_converse(w * h - 1, w, h - 1, w - 1);
        }
        assert(0 <= y % t < t && 0 <= y / t < row_count(h, t, y % t)
            && assigned_row(t, y % t, y / t) == y);
        assert(parts[y % t] == worker_rows(cfg, y % t));
    }
    assert(assembled(cfg, parts) =~= image(cfg));
}

/// The assembled image does not depend on how the workers were scheduled:
/// any two collections of worker outputs, each worker having computed the
/// rows it owns, assemble into the same buffer, the image of the
/// configuration.
pub proof fn lemma_assembly_deterministic(
    cfg: RenderConfig,
    first: Seq<Seq<Seq<u8>>>,
    second: Seq<Seq<Seq<u8>>>,
)
    requires
        cfg.wf(),
        valid_parts(cfg, first),
        valid_parts(cfg, second),
    ensures
        assembled(cfg, first) == assembled(cfg, second),
        assembled(cfg, first) == image(cfg),
{
    lemma_assembled_image(cfg, first);
    lemma_assembled_image(cfg, second);
}

} // verus!
