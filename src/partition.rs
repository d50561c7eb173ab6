use vstd::prelude::*;
use vstd::arithmetic::div_mod::{lemma_fundamental_div_mod, lemma_fundamental_div_mod_converse};

verus! {

/// Number of rows `y < h` with `y % t == k` that worker `k` of `t` computes:
/// `ceil((h - k) / t)`, and none when `k >= h`.
pub open spec fn row_count(h: int, t: int, k: int) -> int {
    (h + t - 1 - k) / t
}

/// The `j`-th row of worker `k` of `t`.
pub open spec fn assigned_row(t: int, k: int, j: int) -> int {
    k + j * t
}

proof fn lemma_row_count_alt(h: int, t: int, k: int)
    requires
        t > 0,
        0 <= k < t,
        h >= 0,
    ensures
        k < h ==> row_count(h, t, k) == (h - 1 - k) / t + 1,
        k >= h ==> row_count(h, t, k) == 0,
        row_count(h, t, k) >= 0,
{
    if k < h {
        let x = h - 1 - k;
        lemma_fundamental_div_mod(x, t);
        assert((x / t + 1) * t == t * (x / t) + t) by (nonlinear_arith);
        lemma_fundamental_div_mod_converse(x + t, t, x / t + 1, x % t);
    } else {
        lemma_fundamental_div_mod_converse(h + t - 1 - k, t, 0, h + t - 1 - k);
    }
}

/// Row `j` of worker `k` lies in the image exactly when `j` is below the
/// worker's row count.
proof fn lemma_row_in_image(h: int, t: int, k: int, j: int)
    requires
        t > 0,
        0 <= k < t,
        h >= 0,
        j >= 0,
    ensures
        (assigned_row(t, k, j) < h) == (j < row_count(h, t, k)),
{
    lemma_row_count_alt(h, t, k);
    if k < h {
        let x = h - 1 - k;
        lemma_fundamental_div_mod(x, t);
        let q = x / t;
        let r = x % t;
        assert(x == t * q + r);
        assert(t * q == q * t) by (nonlinear_arith);
        if j <= q {
            assert(j * t <= q * t) by (nonlinear_arith)
                requires j <= q, t > 0;
        } else {
            assert(j * t >= q * t + t) by (nonlinear_arith)
                requires j >= q + 1, t > 0;
        }
    } else {
        assert(j * t >= 0) by (nonlinear_arith)
            requires j >= 0, t > 0;
    }
}

/// The rows of worker `worker` out of `threads`, in increasing order:
/// `worker, worker + threads, worker + 2 * threads, ...`, all below `height`.
pub fn assigned_rows(height: usize, threads: usize, worker: usize) -> (r: Vec<usize>)
    requires
        threads > 0,
        worker < threads,
    ensures
        r@.len() == row_count(height as int, threads as int, worker as int),
        forall|j: int|
            0 <= j < r@.len() ==> r@[j] == assigned_row(threads as int, worker as int, j),
{
    proof {
        lemma_row_count_alt(height as int, threads as int, worker as int);
    }
    let count: usize = if worker < height {
        (height - 1 - worker) / threads + 1
    } else {
        0
    };
    let mut rows: Vec<usize> = Vec::new();
    let mut j: usize = 0;
    while j < count
        invariant
            j <= count,
            count == row_count(height as int, threads as int, worker as int),
            threads > 0,
            worker < threads,
            rows@.len() == j,
            forall|i: int|
                0 <= i < j ==> rows@[i] == assigned_row(threads as int, worker as int, i),
        decreases count - j,
    {
        proof {
            lemma_row_in_image(height as int, threads as int, worker as int, j as int);
            assert(j * threads >= 0) by (nonlinear_arith)
                requires j >= 0, threads > 0;
        }
        rows.push(worker + j * threads);
        j = j + 1;
    }
    rows
}

/// The interleaved partition of `height` rows among `threads` workers is
/// complete and has no duplicates: row `y` belongs to worker `y % threads`
/// as its `(y / threads)`-th row, a row of a worker is below `height`, two
/// workers' rows never coincide, row counts differ by at most one, and all
/// are `height / threads` when `threads` divides `height`.
pub proof fn lemma_partition_complete(height: usize, threads: usize)
    requires
        threads > 0,
    ensures
        forall|y: int|
            #![trigger y % (threads as int)]
            0 <= y < height ==> 0 <= y % (threads as int) < threads && 0 <= y / (threads as int)
                < row_count(height as int, threads as int, y % (threads as int)) && assigned_row(
                threads as int,
                y % (threads as int),
                y / (threads as int),
            ) == y,
        forall|k: int, j: int|
            0 <= k < threads && 0 <= j < row_count(height as int, threads as int, k) ==>
                0 <= #[trigger] assigned_row(threads as int, k, j) < height,
        forall|k1: int, j1: int, k2: int, j2: int|
            0 <= k1 < threads && 0 <= k2 < threads && 0 <= j1 && 0 <= j2
                && #[trigger] assigned_row(threads as int, k1, j1)
                == #[trigger] assigned_row(threads as int, k2, j2) ==> k1 == k2 && j1 == j2,
        forall|k1: int, k2: int|
            0 <= k1 <= k2 < threads ==> {
                let a = #[trigger] row_count(height as int, threads as int, k1);
                let b = #[trigger] row_count(height as int, threads as int, k2);
                b <= a <= b + 1
            },
        height % threads == 0 ==> forall|k: int|
            0 <= k < threads ==> #[trigger] row_count(height as int, threads as int, k)
                == height / threads,
{
    let h = height as int;
    let t = threads as int;
    assert forall|y: int|
        #![trigger y % (threads as int)]
        0 <= y < height implies 0 <= y % (threads as int) < threads && 0 <= y / (threads as int)
            < row_count(height as int, threads as int, y % (threads as int)) && assigned_row(
            threads as int,
            y % (threads as int),
            y / (threads as int),
        ) == y by {
        lemma_fundamental_div_mod(y, t);
        assert(y / t >= 0) by {
            vstd::arithmetic::div_mod::lemma_div_pos_is_pos(y, t);
        }
        assert(t * (y / t) == (y / t) * t) by (nonlinear_arith);
        lemma_row_in_image(h, t, y % t, y / t);
    }
    assert forall|k: int, j: int|
        0 <= k < threads && 0 <= j < row_count(h, t, k) implies
            0 <= #[trigger] assigned_row(t, k, j) < height by {
        lemma_row_in_image(h, t, k, j);
        assert(j * t >= 0) by (nonlinear_arith)
            requires j >= 0, t > 0;
    }
    assert forall|k1: int, j1: int, k2: int, j2: int|
        0 <= k1 < threads && 0 <= k2 < threads && 0 <= j1 && 0 <= j2
            && #[trigger] assigned_row(t, k1, j1) == #[trigger] assigned_row(t, k2, j2)
        implies k1 == k2 && j1 == j2 by {
        let y = k1 + j1 * t;
        lemma_fundamental_div_mod_converse(y, t, j1, k1);
        lemma_fundamental_div_mod_converse(y, t, j2, k2);
    }
    assert forall|k1: int, k2: int| 0 <= k1 <= k2 < threads implies {
        let a = #[trigger] row_count(h, t, k1);
        let b = #[trigger] row_count(h, t, k2);
        b <= a <= b + 1
    } by {
        let x1 = h + t - 1 - k1;
        let x2 = h + t - 1 - k2;
        lemma_fundamental_div_mod(x1, t);
        lemma_fundamental_div_mod(x2, t);
        let q1 = x1 / t;
        let q2 = x2 / t;
        let r1 = x1 % t;
        let r2 = x2 % t;
        assert(x2 <= x1 < x2 + t);
        assert(q2 <= q1 <= q2 + 1) by (nonlinear_arith)
            requires
                x1 == t * q1 + r1,
                x2 == t * q2 + r2,
                0 <= r1 < t,
                0 <= r2 < t,
                x2 <= x1 < x2 + t,
                t > 0;
    }
    if height % threads == 0 {
        assert forall|k: int| 0 <= k < threads implies #[trigger] row_count(h, t, k) == height
            / threads by {
            lemma_fundamental_div_mod(h, t);
            lemma_fundamental_div_mod_converse(h + t - 1 - k, t, h / t, t - 1 - k);
        }
    }
}

} // verus!
