//! Layer arithmetic for forward and backward propagation, generic over the
//! value type: the caller supplies `times`, `plus`, `minus`, the activation
//! and its derivative, so the computation is stated as relations over what
//! those calls return.
use vstd::prelude::*;

use crate::matrix::{filled_with, seq_filled, Matrix};
use crate::neural_net::ActivationFunction;

verus! {

/// Products with `z` on the left are `z`, and `z + z` is `z`.
pub open spec fn absorbs<W, M: Fn(W, W) -> W, A: Fn(W, W) -> W>(z: W, times: M, plus: A) -> bool {
    &&& forall|w: W, r: W| call_ensures(times, (z, w), r) ==> r == z
    &&& forall|r: W| call_ensures(plus, (z, z), r) ==> r == z
}

/// `z` is absorbing, as above, and a fixed point of the activation `f`.
pub open spec fn keeps_zero<W, M: Fn(W, W) -> W, A: Fn(W, W) -> W, G: Fn(ActivationFunction, W) -> W>(
    z: W,
    times: M,
    plus: A,
    activate: G,
    f: ActivationFunction,
) -> bool {
    &&& absorbs(z, times, plus)
    &&& forall|r: W| call_ensures(activate, (f, z), r) ==> r == z
}

/// `result` is a value that `start + xs[0] * ws[0] + xs[1] * ws[1] + ...`,
/// summed left to right with `times` and `plus`, can take.
pub open spec fn dot_rel<W, M: Fn(W, W) -> W, A: Fn(W, W) -> W>(
    times: M,
    plus: A,
    xs: Seq<W>,
    ws: Seq<W>,
    start: W,
    result: W,
) -> bool
    decreases xs.len(),
{
    if xs.len() == 0 {
        result == start
    } else {
        exists|mid: W, p: W|
            dot_rel(times, plus, xs.drop_last(), ws.drop_last(), start, mid) && call_ensures(
                times,
                (xs.last(), ws.last()),
                p,
            ) && #[trigger] call_ensures(plus, (mid, p), result)
    }
}

/// Column `c` of `m`.
pub open spec fn column<W>(m: Matrix<W>, c: int) -> Seq<W> {
    Seq::new(m.rows.len() as nat, |k: int| m.rows[k][c])
}

/// `result` is a value that `start + xs[0] + xs[1] + ...`, summed left to
/// right with `plus`, can take.
pub open spec fn sum_rel<W, A: Fn(W, W) -> W>(plus: A, xs: Seq<W>, start: W, result: W) -> bool
    decreases xs.len(),
{
    if xs.len() == 0 {
        result == start
    } else {
        exists|mid: W|
            sum_rel(plus, xs.drop_last(), start, mid) && #[trigger] call_ensures(
                plus,
                (mid, xs.last()),
                result,
            )
    }
}

/// `d` is a value that the output error `(a - t) * f'(p)` can take.
pub open spec fn output_delta_rel<
    W,
    M: Fn(W, W) -> W,
    S: Fn(W, W) -> W,
    D: Fn(ActivationFunction, W) -> W,
>(times: M, minus: S, derivative: D, f: ActivationFunction, a: W, t: W, p: W, d: W) -> bool {
    exists|diff: W, der: W|
        call_ensures(minus, (a, t), diff) && call_ensures(derivative, (f, p), der)
            && #[trigger] call_ensures(times, (diff, der), d)
}

/// `d` is a value that the hidden error
/// `(next[0] * w_row[0] + next[1] * w_row[1] + ...) * f'(p)` can take.
pub open spec fn hidden_delta_rel<
    W,
    M: Fn(W, W) -> W,
    A: Fn(W, W) -> W,
    D: Fn(ActivationFunction, W) -> W,
>(
    times: M,
    plus: A,
    derivative: D,
    f: ActivationFunction,
    zero: W,
    next: Seq<W>,
    w_row: Seq<W>,
    p: W,
    d: W,
) -> bool {
    exists|sum: W, der: W|
        dot_rel(times, plus, next, w_row, zero, sum) && call_ensures(derivative, (f, p), der)
            && #[trigger] call_ensures(times, (sum, der), d)
}

/// `xs[0] * ws[0] + xs[1] * ws[1] + ...` from `zero`, with the caller's
/// arithmetic.
pub(crate) fn dot_vec<W: Copy, M: Fn(W, W) -> W, A: Fn(W, W) -> W>(
    xs: &Vec<W>,
    ws: &Vec<W>,
    zero: W,
    times: &M,
    plus: &A,
) -> (r: W)
    requires
        xs.len() == ws.len(),
        forall|a: W, b: W| times.requires((a, b)),
        forall|a: W, b: W| plus.requires((a, b)),
    ensures
        dot_rel(*times, *plus, xs@, ws@, zero, r),
{
    let mut acc = zero;
    let mut k: usize = 0;
    while k < xs.len()
        invariant
            xs.len() == ws.len(),
            forall|a: W, b: W| times.requires((a, b)),
            forall|a: W, b: W| plus.requires((a, b)),
            k <= xs.len(),
            dot_rel(*times, *plus, xs@.take(k as int), ws@.take(k as int), zero, acc),
        decreases xs.len() - k,
    {
        let p = times(xs[k], ws[k]);
        let next = plus(acc, p);
        proof {
            assert(xs@.take(k + 1).drop_last() =~= xs@.take(k as int));
            assert(ws@.take(k + 1).drop_last() =~= ws@.take(k as int));
            assert(xs@.take(k + 1).last() == xs[k as int]);
            assert(ws@.take(k + 1).last() == ws[k as int]);
            assert(call_ensures(*plus, (acc, p), next));
        }
        acc = next;
        k = k + 1;
    }
    assert(xs@.take(xs.len() as int) =~= xs@);
    assert(ws@.take(xs.len() as int) =~= ws@);
    acc
}

/// `xs[0] + xs[1] + ...` from `zero`, with the caller's arithmetic.
pub(crate) fn sum_vec<W: Copy, A: Fn(W, W) -> W>(xs: &Vec<W>, zero: W, plus: &A) -> (r: W)
    requires
        forall|a: W, b: W| plus.requires((a, b)),
    ensures
        sum_rel(*plus, xs@, zero, r),
{
    let mut acc = zero;
    let mut k: usize = 0;
    while k < xs.len()
        invariant
            forall|a: W, b: W| plus.requires((a, b)),
            k <= xs.len(),
            sum_rel(*plus, xs@.take(k as int), zero, acc),
        decreases xs.len() - k,
    {
        let next = plus(acc, xs[k]);
        proof {
            assert(xs@.take(k + 1).drop_last() =~= xs@.take(k as int));
            assert(xs@.take(k + 1).last() == xs[k as int]);
            assert(call_ensures(*plus, (acc, xs[k as int]), next));
        }
        acc = next;
        k = k + 1;
    }
    assert(xs@.take(xs.len() as int) =~= xs@);
    acc
}

/// Column `c` of `m`, as a vector.
pub(crate) fn column_of<W: Copy>(m: &Matrix<W>, c: usize) -> (r: Vec<W>)
    requires
        m.wf(),
        c < m.cols,
    ensures
        r@ == column(*m, c as int),
{
    let mut r: Vec<W> = Vec::new();
    let mut k: usize = 0;
    while k < m.rows.len()
        invariant
            m.wf(),
            c < m.cols,
            k <= m.rows.len(),
            r@ =~= column(*m, c as int).take(k as int),
        decreases m.rows.len() - k,
    {
        assert(m.rows[k as int].len() == m.cols);
        r.push(m.rows[k][c]);
        k = k + 1;
    }
    assert(column(*m, c as int).take(m.rows.len() as int) =~= column(*m, c as int));
    r
}

/// The output error of each entry: `(a - t) * f'(p)`.
pub(crate) fn output_delta<W: Copy, M: Fn(W, W) -> W, S: Fn(W, W) -> W, D: Fn(ActivationFunction, W) -> W>(
    a: &Matrix<W>,
    t: &Matrix<W>,
    p: &Matrix<W>,
    f: ActivationFunction,
    times: &M,
    minus: &S,
    derivative: &D,
) -> (d: Matrix<W>)
    requires
        a.wf(),
        t.wf(),
        p.wf(),
        t.rows.len() == a.rows.len(),
        p.rows.len() == a.rows.len(),
        t.cols == a.cols,
        p.cols == a.cols,
        forall|x: W, y: W| times.requires((x, y)),
        forall|x: W, y: W| minus.requires((x, y)),
        forall|g: ActivationFunction, x: W| derivative.requires((g, x)),
    ensures
        d.wf(),
        d.rows.len() == a.rows.len(),
        d.cols == a.cols,
        forall|r: int, c: int|
            0 <= r < a.rows.len() && 0 <= c < a.cols ==> output_delta_rel(
                *times,
                *minus,
                *derivative,
                f,
                a.rows[r][c],
                t.rows[r][c],
                p.rows[r][c],
                #[trigger] d.rows[r][c],
            ),
{
    let mut rows: Vec<Vec<W>> = Vec::new();
    let mut r: usize = 0;
    while r < a.rows.len()
        invariant
            a.wf(),
            t.wf(),
            p.wf(),
            t.rows.len() == a.rows.len(),
            p.rows.len() == a.rows.len(),
            t.cols == a.cols,
            p.cols == a.cols,
            forall|x: W, y: W| times.requires((x, y)),
            forall|x: W, y: W| minus.requires((x, y)),
            forall|g: ActivationFunction, x: W| derivative.requires((g, x)),
            r <= a.rows.len(),
            rows.len() == r,
            forall|k: int| 0 <= k < r ==> (#[trigger] rows[k]).len() == a.cols,
            forall|k: int, c: int|
                0 <= k < r && 0 <= c < a.cols ==> output_delta_rel(
                    *times,
                    *minus,
                    *derivative,
                    f,
                    a.rows[k][c],
                    t.rows[k][c],
                    p.rows[k][c],
                    #[trigger] rows[k][c],
                ),
        decreases a.rows.len() - r,
    {
        assert(a.rows[r as int].len() == a.cols);
        assert(t.rows[r as int].len() == a.cols);
        assert(p.rows[r as int].len() == a.cols);
        let mut row: Vec<W> = Vec::new();
        let mut c: usize = 0;
        while c < a.cols
            invariant
                a.rows[r as int].len() == a.cols,
                t.rows[r as int].len() == a.cols,
                p.rows[r as int].len() == a.cols,
                r < a.rows.len(),
                t.rows.len() == a.rows.len(),
                p.rows.len() == a.rows.len(),
                forall|x: W, y: W| times.requires((x, y)),
                forall|x: W, y: W| minus.requires((x, y)),
                forall|g: ActivationFunction, x: W| derivative.requires((g, x)),
                c <= a.cols,
                row.len() == c,
                forall|j: int|
                    0 <= j < c ==> output_delta_rel(
                        *times,
                        *minus,
                        *derivative,
                        f,
                        a.rows[r as int][j],
                        t.rows[r as int][j],
                        p.rows[r as int][j],
                        #[trigger] row[j],
                    ),
            decreases a.cols - c,
        {
            let diff = minus(a.rows[r][c], t.rows[r][c]);
            let der = derivative(f, p.rows[r][c]);
            let v = times(diff, der);
            assert(call_ensures(*times, (diff, der), v));
            row.push(v);
            c = c + 1;
        }
        rows.push(row);
        r = r + 1;
    }
    Matrix { cols: a.cols, rows }
}

/// The error of a hidden layer from the next layer's error `next` through the
/// weights `w` into that layer: `(next * w^T) * f'(p)`, entry by entry.
pub(crate) fn hidden_delta<W: Copy, M: Fn(W, W) -> W, A: Fn(W, W) -> W, D: Fn(ActivationFunction, W) -> W>(
    next: &Matrix<W>,
    w: &Matrix<W>,
    p: &Matrix<W>,
    f: ActivationFunction,
    zero: W,
    times: &M,
    plus: &A,
    derivative: &D,
) -> (d: Matrix<W>)
    requires
        next.wf(),
        w.wf(),
        p.wf(),
        next.cols == w.cols,
        w.rows.len() == p.cols,
        next.rows.len() == p.rows.len(),
        forall|x: W, y: W| times.requires((x, y)),
        forall|x: W, y: W| plus.requires((x, y)),
        forall|g: ActivationFunction, x: W| derivative.requires((g, x)),
    ensures
        d.wf(),
        d.rows.len() == p.rows.len(),
        d.cols == p.cols,
        forall|r: int, c: int|
            0 <= r < p.rows.len() && 0 <= c < p.cols ==> hidden_delta_rel(
                *times,
                *plus,
                *derivative,
                f,
                zero,
                next.rows[r]@,
                w.rows[c]@,
                p.rows[r][c],
                #[trigger] d.rows[r][c],
            ),
{
    let mut rows: Vec<Vec<W>> = Vec::new();
    let mut r: usize = 0;
    while r < p.rows.len()
        invariant
            next.wf(),
            w.wf(),
            p.wf(),
            next.cols == w.cols,
            w.rows.len() == p.cols,
            next.rows.len() == p.rows.len(),
            forall|x: W, y: W| times.requires((x, y)),
            forall|x: W, y: W| plus.requires((x, y)),
            forall|g: ActivationFunction, x: W| derivative.requires((g, x)),
            r <= p.rows.len(),
            rows.len() == r,
            forall|k: int| 0 <= k < r ==> (#[trigger] rows[k]).len() == p.cols,
            forall|k: int, c: int|
                0 <= k < r && 0 <= c < p.cols ==> hidden_delta_rel(
                    *times,
                    *plus,
                    *derivative,
                    f,
                    zero,
                    next.rows[k]@,
                    w.rows[c]@,
                    p.rows[k][c],
                    #[trigger] rows[k][c],
                ),
        decreases p.rows.len() - r,
    {
        assert(p.rows[r as int].len() == p.cols);
        assert(next.rows[r as int].len() == next.cols);
        let mut row: Vec<W> = Vec::new();
        let mut c: usize = 0;
        while c < p.cols
            invariant
                next.wf(),
                w.wf(),
                p.rows[r as int].len() == p.cols,
                next.rows[r as int].len() == w.cols,
                w.rows.len() == p.cols,
                r < p.rows.len(),
                next.rows.len() == p.rows.len(),
                forall|x: W, y: W| times.requires((x, y)),
                forall|x: W, y: W| plus.requires((x, y)),
                forall|g: ActivationFunction, x: W| derivative.requires((g, x)),
                c <= p.cols,
                row.len() == c,
                forall|j: int|
                    0 <= j < c ==> hidden_delta_rel(
                        *times,
                        *plus,
                        *derivative,
                        f,
                        zero,
                        next.rows[r as int]@,
                        w.rows[j]@,
                        p.rows[r as int][j],
                        #[trigger] row[j],
                    ),
            decreases p.cols - c,
        {
            assert(w.rows[c as int].len() == w.cols);
            let sum = dot_vec(&next.rows[r], &w.rows[c], zero, times, plus);
            let der = derivative(f, p.rows[r][c]);
            let v = times(sum, der);
            assert(call_ensures(*times, (sum, der), v));
            row.push(v);
            c = c + 1;
        }
        rows.push(row);
        r = r + 1;
    }
    Matrix { cols: p.cols, rows }
}

/// `w2` is a value that `descend(w, g, n)` can take for a gradient sum `g`
/// that `xs[0] * ds[0] + xs[1] * ds[1] + ...` can take over a batch of `n`
/// rows.
pub open spec fn weight_step_rel<W, M: Fn(W, W) -> W, A: Fn(W, W) -> W, U: Fn(W, W, usize) -> W>(
    times: M,
    plus: A,
    descend: U,
    zero: W,
    xs: Seq<W>,
    ds: Seq<W>,
    w: W,
    w2: W,
) -> bool {
    exists|g: W|
        dot_rel(times, plus, xs, ds, zero, g) && #[trigger] call_ensures(
            descend,
            (w, g, xs.len() as usize),
            w2,
        )
}

/// `b2` is a value that `descend(b, g, n)` can take for a gradient sum `g`
/// that `ds[0] + ds[1] + ...` can take over a batch of `n` rows.
pub open spec fn bias_step_rel<W, A: Fn(W, W) -> W, U: Fn(W, W, usize) -> W>(
    plus: A,
    descend: U,
    zero: W,
    ds: Seq<W>,
    b: W,
    b2: W,
) -> bool {
    exists|g: W|
        sum_rel(plus, ds, zero, g) && #[trigger] call_ensures(descend, (b, g, ds.len() as usize), b2)
}

/// The columns of `m`, each as a vector.
pub(crate) fn columns_of<W: Copy>(m: &Matrix<W>) -> (r: Vec<Vec<W>>)
    requires
        m.wf(),
    ensures
        r.len() == m.cols,
        forall|c: int| 0 <= c < m.cols ==> (#[trigger] r[c])@ == column(*m, c),
{
    let mut r: Vec<Vec<W>> = Vec::new();
    let mut c: usize = 0;
    while c < m.cols
        invariant
            m.wf(),
            c <= m.cols,
            r.len() == c,
            forall|k: int| 0 <= k < c ==> (#[trigger] r[k])@ == column(*m, k),
        decreases m.cols - c,
    {
        r.push(column_of(m, c));
        c = c + 1;
    }
    r
}

/// One descent step for a layer: each weight `w[a][c]` moves by the sum over
/// the batch of `act[r][a] * delta[r][c]`, each bias `b[c]` by the sum of
/// `delta[r][c]`, both through `descend`.
pub(crate) fn step_layer<W: Copy, M: Fn(W, W) -> W, A: Fn(W, W) -> W, U: Fn(W, W, usize) -> W>(
    w: &Matrix<W>,
    b: &Vec<W>,
    act: &Matrix<W>,
    delta: &Matrix<W>,
    zero: W,
    times: &M,
    plus: &A,
    descend: &U,
) -> (r: (Matrix<W>, Vec<W>))
    requires
        w.wf(),
        act.wf(),
        delta.wf(),
        act.rows.len() == delta.rows.len(),
        act.cols == w.rows.len(),
        delta.cols == w.cols,
        b.len() == w.cols,
        forall|x: W, y: W| times.requires((x, y)),
        forall|x: W, y: W| plus.requires((x, y)),
        forall|x: W, y: W, n: usize| descend.requires((x, y, n)),
    ensures
        r.0.wf(),
        r.0.rows.len() == w.rows.len(),
        r.0.cols == w.cols,
        r.1.len() == b.len(),
        forall|a: int, c: int|
            0 <= a < w.rows.len() && 0 <= c < w.cols ==> weight_step_rel(
                *times,
                *plus,
                *descend,
                zero,
                column(*act, a),
                column(*delta, c),
                w.rows[a][c],
                #[trigger] r.0.rows[a][c],
            ),
        forall|c: int|
            0 <= c < b.len() ==> bias_step_rel(
                *plus,
                *descend,
                zero,
                column(*delta, c),
                b[c],
                #[trigger] r.1[c],
            ),
{
    let dcols = columns_of(delta);
    let mut rows: Vec<Vec<W>> = Vec::new();
    let mut a: usize = 0;
    while a < w.rows.len()
        invariant
            w.wf(),
            act.wf(),
            delta.wf(),
            act.rows.len() == delta.rows.len(),
            act.cols == w.rows.len(),
            delta.cols == w.cols,
            dcols.len() == w.cols,
            forall|c: int| 0 <= c < w.cols ==> (#[trigger] dcols[c])@ == column(*delta, c),
            forall|x: W, y: W| times.requires((x, y)),
            forall|x: W, y: W| plus.requires((x, y)),
            forall|x: W, y: W, n: usize| descend.requires((x, y, n)),
            a <= w.rows.len(),
            rows.len() == a,
            forall|k: int| 0 <= k < a ==> (#[trigger] rows[k]).len() == w.cols,
            forall|k: int, c: int|
                0 <= k < a && 0 <= c < w.cols ==> weight_step_rel(
                    *times,
                    *plus,
                    *descend,
                    zero,
                    column(*act, k),
                    column(*delta, c),
                    w.rows[k][c],
                    #[trigger] rows[k][c],
                ),
        decreases w.rows.len() - a,
    {
        let xs = column_of(act, a);
        assert(w.rows[a as int].len() == w.cols);
        let mut row: Vec<W> = Vec::new();
        let mut c: usize = 0;
        while c < w.cols
            invariant
                w.wf(),
                a < w.rows.len(),
                w.rows[a as int].len() == w.cols,
                delta.wf(),
                xs@ == column(*act, a as int),
                xs.len() == act.rows.len(),
                act.rows.len() == delta.rows.len(),
                dcols.len() == w.cols,
                forall|k: int| 0 <= k < w.cols ==> (#[trigger] dcols[k])@ == column(*delta, k),
                forall|x: W, y: W| times.requires((x, y)),
                forall|x: W, y: W| plus.requires((x, y)),
                forall|x: W, y: W, n: usize| descend.requires((x, y, n)),
                c <= w.cols,
                row.len() == c,
                forall|j: int|
                    0 <= j < c ==> weight_step_rel(
                        *times,
                        *plus,
                        *descend,
                        zero,
                        column(*act, a as int),
                        column(*delta, j),
                        w.rows[a as int][j],
                        #[trigger] row[j],
                    ),
            decreases w.cols - c,
        {
            assert(dcols[c as int]@ == column(*delta, c as int));
            let g = dot_vec(&xs, &dcols[c], zero, times, plus);
            let v = descend(w.rows[a][c], g, xs.len());
            assert(call_ensures(*descend, (w.rows[a as int][c as int], g, xs.len()), v));
            row.push(v);
            c = c + 1;
        }
        rows.push(row);
        a = a + 1;
    }
    let mut bias: Vec<W> = Vec::new();
    let mut c: usize = 0;
    while c < b.len()
        invariant
            b.len() == w.cols,
            dcols.len() == w.cols,
            forall|k: int| 0 <= k < w.cols ==> (#[trigger] dcols[k])@ == column(*delta, k),
            forall|x: W, y: W| plus.requires((x, y)),
            forall|x: W, y: W, n: usize| descend.requires((x, y, n)),
            c <= b.len(),
            bias.len() == c,
            forall|j: int|
                0 <= j < c ==> bias_step_rel(
                    *plus,
                    *descend,
                    zero,
                    column(*delta, j),
                    b[j],
                    #[trigger] bias[j],
                ),
        decreases b.len() - c,
    {
        assert(dcols[c as int]@ == column(*delta, c as int));
        let g = sum_vec(&dcols[c], zero, plus);
        let v = descend(b[c], g, dcols[c].len());
        assert(call_ensures(*descend, (b[c as int], g, dcols[c as int].len()), v));
        bias.push(v);
        c = c + 1;
    }
    (Matrix { cols: w.cols, rows }, bias)
}

/// The values kept from one forward pass: for each layer after the input its
/// pre-activation, and for every layer its activation, the input first.
#[derive(Debug, Clone)]
pub struct ForwardPass<W> {
    pub pre: Vec<Matrix<W>>,
    pub activations: Vec<Matrix<W>>,
}

/// `bias + x[0] * w[0][c] + x[1] * w[1][c] + ...`, with the caller's
/// arithmetic.
pub(crate) fn affine_entry<W: Copy, M: Fn(W, W) -> W, A: Fn(W, W) -> W>(
    x: &Vec<W>,
    w: &Matrix<W>,
    c: usize,
    bias: W,
    times: &M,
    plus: &A,
) -> (r: W)
    requires
        w.wf(),
        w.rows.len() == x.len(),
        c < w.cols,
        forall|a: W, b: W| times.requires((a, b)),
        forall|a: W, b: W| plus.requires((a, b)),
    ensures
        dot_rel(*times, *plus, x@, column(*w, c as int), bias, r),
        forall|z: W|
            #[trigger] absorbs(z, *times, *plus) && seq_filled(x@, z) && bias == z ==> r == z,
{
    let mut acc = bias;
    let mut k: usize = 0;
    while k < x.len()
        invariant
            w.wf(),
            w.rows.len() == x.len(),
            c < w.cols,
            forall|a: W, b: W| times.requires((a, b)),
            forall|a: W, b: W| plus.requires((a, b)),
            k <= x.len(),
            dot_rel(*times, *plus, x@.take(k as int), column(*w, c as int).take(k as int), bias, acc),
            forall|z: W|
                #[trigger] absorbs(z, *times, *plus) && seq_filled(x@, z) && bias == z ==> acc == z,
        decreases x.len() - k,
    {
        assert(w.rows[k as int].len() == w.cols);
        let p = times(x[k], w.rows[k][c]);
        let next = plus(acc, p);
        assert forall|z: W|
            #[trigger] absorbs(z, *times, *plus) && seq_filled(x@, z) && bias == z implies next == z by {
            assert(x[k as int] == z);
            assert(p == z);
        }
        proof {
            let col = column(*w, c as int);
            assert(x@.take(k + 1).drop_last() =~= x@.take(k as int));
            assert(col.take(k + 1).drop_last() =~= col.take(k as int));
            assert(x@.take(k + 1).last() == x[k as int]);
            assert(col.take(k + 1).last() == w.rows[k as int][c as int]);
            assert(call_ensures(*plus, (acc, p), next));
        }
        acc = next;
        k = k + 1;
    }
    assert(x@.take(x.len() as int) =~= x@);
    assert(column(*w, c as int).take(x.len() as int) =~= column(*w, c as int));
    acc
}

/// One layer: `pre = x * w + b` row by row, and `act = f(pre)` entry by entry.
pub(crate) fn layer_forward<W: Copy, M: Fn(W, W) -> W, A: Fn(W, W) -> W, G: Fn(ActivationFunction, W) -> W>(
    x: &Matrix<W>,
    w: &Matrix<W>,
    b: &Vec<W>,
    f: ActivationFunction,
    times: &M,
    plus: &A,
    activate: &G,
) -> (r: (Matrix<W>, Matrix<W>))
    requires
        x.wf(),
        w.wf(),
        x.cols == w.rows.len(),
        b.len() == w.cols,
        forall|a: W, c: W| times.requires((a, c)),
        forall|a: W, c: W| plus.requires((a, c)),
        forall|g: ActivationFunction, a: W| activate.requires((g, a)),
    ensures
        r.0.wf(),
        r.1.wf(),
        r.0.rows.len() == x.rows.len(),
        r.1.rows.len() == x.rows.len(),
        r.0.cols == w.cols,
        r.1.cols == w.cols,
        forall|i: int, j: int|
            0 <= i < x.rows.len() && 0 <= j < w.cols ==> call_ensures(
                *activate,
                (f, r.0.rows[i][j]),
                #[trigger] r.1.rows[i][j],
            ),
        forall|i: int, j: int|
            0 <= i < x.rows.len() && 0 <= j < w.cols ==> dot_rel(
                *times,
                *plus,
                x.rows[i]@,
                column(*w, j),
                b[j],
                #[trigger] r.0.rows[i][j],
            ),
        forall|z: W|
            #[trigger] keeps_zero(z, *times, *plus, *activate, f) && filled_with(*x, z) && seq_filled(
                b@,
                z,
            ) ==> filled_with(r.0, z) && filled_with(r.1, z),
{
    let mut pre_rows: Vec<Vec<W>> = Vec::new();
    let mut act_rows: Vec<Vec<W>> = Vec::new();
    let mut i: usize = 0;
    while i < x.rows.len()
        invariant
            x.wf(),
            w.wf(),
            x.cols == w.rows.len(),
            b.len() == w.cols,
            forall|a: W, c: W| times.requires((a, c)),
            forall|a: W, c: W| plus.requires((a, c)),
            forall|g: ActivationFunction, a: W| activate.requires((g, a)),
            i <= x.rows.len(),
            pre_rows.len() == i,
            act_rows.len() == i,
            forall|k: int| 0 <= k < i ==> (#[trigger] pre_rows[k]).len() == w.cols,
            forall|k: int| 0 <= k < i ==> (#[trigger] act_rows[k]).len() == w.cols,
            forall|k: int, j: int|
                0 <= k < i && 0 <= j < w.cols ==> call_ensures(
                    *activate,
                    (f, pre_rows[k][j]),
                    #[trigger] act_rows[k][j],
                ),
            forall|k: int, j: int|
                0 <= k < i && 0 <= j < w.cols ==> dot_rel(
                    *times,
                    *plus,
                    x.rows[k]@,
                    column(*w, j),
                    b[j],
                    #[trigger] pre_rows[k][j],
                ),
            forall|z: W|
                #[trigger] keeps_zero(z, *times, *plus, *activate, f) && filled_with(*x, z)
                    && seq_filled(b@, z) ==> forall|k: int, j: int|
                    0 <= k < i && 0 <= j < w.cols ==> #[trigger] pre_rows[k][j] == z
                        && act_rows[k][j] == z,
        decreases x.rows.len() - i,
    {
        let row = &x.rows[i];
        assert(row.len() == x.cols);
        let mut pre_row: Vec<W> = Vec::new();
        let mut act_row: Vec<W> = Vec::new();
        let mut c: usize = 0;
        while c < w.cols
            invariant
                w.wf(),
                row.len() == w.rows.len(),
                b.len() == w.cols,
                forall|a: W, d: W| times.requires((a, d)),
                forall|a: W, d: W| plus.requires((a, d)),
                forall|g: ActivationFunction, a: W| activate.requires((g, a)),
                c <= w.cols,
                pre_row.len() == c,
                act_row.len() == c,
                forall|j: int|
                    0 <= j < c ==> call_ensures(*activate, (f, pre_row[j]), #[trigger] act_row[j]),
                forall|j: int|
                    0 <= j < c ==> dot_rel(*times, *plus, row@, column(*w, j), b[j], #[trigger] pre_row[j]),
                forall|z: W|
                    #[trigger] keeps_zero(z, *times, *plus, *activate, f) && seq_filled(row@, z)
                        && seq_filled(b@, z) ==> forall|j: int|
                        0 <= j < c ==> #[trigger] pre_row[j] == z && act_row[j] == z,
            decreases w.cols - c,
        {
            let p = affine_entry(row, w, c, b[c], times, plus);
            let a = activate(f, p);
            assert forall|z: W|
                #[trigger] keeps_zero(z, *times, *plus, *activate, f) && seq_filled(row@, z)
                    && seq_filled(b@, z) implies p == z && a == z by {
                assert(absorbs(z, *times, *plus));
                assert(b[c as int] == z);
            }
            pre_row.push(p);
            act_row.push(a);
            c = c + 1;
        }
        assert forall|z: W|
            #[trigger] keeps_zero(z, *times, *plus, *activate, f) && filled_with(*x, z)
                && seq_filled(b@, z) implies seq_filled(row@, z) by {
            assert forall|j: int| 0 <= j < row@.len() implies #[trigger] row@[j] == z by {
                assert(x.rows[i as int][j] == z);
            }
        }
        pre_rows.push(pre_row);
        act_rows.push(act_row);
        i = i + 1;
    }
    let pre = Matrix { cols: w.cols, rows: pre_rows };
    let act = Matrix { cols: w.cols, rows: act_rows };
    (pre, act)
}

} // verus!
