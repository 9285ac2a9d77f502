//! What holds of packed passes without a device: where arithmetic gives the same result for the
//! same numbers they repeat their results, and where the operands fit they answer.

use crate::arith;
use crate::arith::Arith;
use crate::forward;
use crate::forward::{BlockRun, ForwardError, Layers, Pass, Site};
use crate::grid;
use crate::kernel_dispatch;
use crate::kernel_dispatch::{
    Bank, DispatchError, MaybeTernaryLinear, MhaCall, NoBank, Norm, PackedLayerBufs, RopeCache,
    StackCall,
};
use crate::kernel_ref;
use crate::network::{
    Block, MultiHeadSelfAttention, SharedNetwork, SwiGluFfn, TransformerBlock,
};
use crate::quantize::{PackModel, TernaryPacked};
use crate::tensor;
use crate::tensor::{DenseModel, DenseTensor};
use vstd::prelude::*;

verus! {

proof fn same_run<A: Arith>(
    ar: &A,
    start: A::Num,
    terms: Seq<A::Num>,
    r: Seq<A::Num>,
    q: Seq<A::Num>,
    i: int,
)
    requires
        arith::is_repeatable(ar),
        arith::partial_sums(ar, start, terms, r),
        arith::partial_sums(ar, start, terms, q),
        0 <= i <= terms.len(),
    ensures
        r[i] == q[i],
    decreases i,
{
    if i > 0 {
        same_run(ar, start, terms, r, q, i - 1);
        let t = terms[i - 1];
        assert(arith::is_sum(ar, r[i - 1], t, r[i - 1 + 1]));
        assert(arith::is_sum(ar, q[i - 1], t, q[i - 1 + 1]));
    }
}

proof fn same_total<A: Arith>(
    ar: &A,
    start: A::Num,
    terms: Seq<A::Num>,
    r: A::Num,
    q: A::Num,
)
    requires
        arith::is_repeatable(ar),
        arith::is_total(ar, start, terms, r),
        arith::is_total(ar, start, terms, q),
    ensures
        r == q,
{
    let a = choose|run: Seq<A::Num>| #[trigger]
        arith::partial_sums(ar, start, terms, run) && r == run[terms.len() as int];
    let b = choose|run: Seq<A::Num>| #[trigger]
        arith::partial_sums(ar, start, terms, run) && q == run[terms.len() as int];
    same_run(ar, start, terms, a, b, terms.len() as int);
}

proof fn same_dot<A: Arith>(
    ar: &A,
    start: A::Num,
    x: Seq<A::Num>,
    y: Seq<A::Num>,
    r: A::Num,
    q: A::Num,
)
    requires
        arith::is_repeatable(ar),
        arith::is_dot(ar, start, x, y, r),
        arith::is_dot(ar, start, x, y, q),
    ensures
        r == q,
{
    let a = choose|p: Seq<A::Num>| #[trigger]
        arith::are_products(ar, x, y, p) && arith::is_total(ar, start, p, r);
    let b = choose|p: Seq<A::Num>| #[trigger]
        arith::are_products(ar, x, y, p) && arith::is_total(ar, start, p, q);
    assert forall|i: int| 0 <= i < x.len() implies #[trigger] a[i] == b[i] by {
        assert(arith::is_product(ar, x[i], y[i], a[i]));
        assert(arith::is_product(ar, x[i], y[i], b[i]));
    }
    assert(a =~= b);
    same_total(ar, start, a, r, q);
}

proof fn same_linear_cell<A: Arith>(
    ar: &A,
    x: Seq<A::Num>,
    pack: PackModel<A::Num>,
    o: int,
    r: A::Num,
    q: A::Num,
)
    requires
        arith::is_repeatable(ar),
        kernel_ref::is_linear_cell(ar, x, pack, o, r),
        kernel_ref::is_linear_cell(ar, x, pack, o, q),
    ensures
        r == q,
{
    let (w, z, a) = choose|w: Seq<A::Num>, zero: A::Num, acc: A::Num|
        {
            &&& #[trigger] kernel_ref::is_level_row(ar, pack, o, w)
            &&& arith::is_whole(ar, 0, zero)
            &&& #[trigger] arith::is_dot(ar, zero, w, x.take(w.len() as int), acc)
            &&& arith::is_product(ar, acc, pack.alphas[o], r)
        };
    let (v, y, b) = choose|w: Seq<A::Num>, zero: A::Num, acc: A::Num|
        {
            &&& #[trigger] kernel_ref::is_level_row(ar, pack, o, w)
            &&& arith::is_whole(ar, 0, zero)
            &&& #[trigger] arith::is_dot(ar, zero, w, x.take(w.len() as int), acc)
            &&& arith::is_product(ar, acc, pack.alphas[o], q)
        };
    assert forall|i: int| 0 <= i < w.len() implies #[trigger] w[i] == v[i] by {
        assert(arith::is_whole(ar, pack.level(o, i), w[i]));
        assert(arith::is_whole(ar, pack.level(o, i), v[i]));
    }
    assert(w =~= v);
    assert(z == y);
    same_dot(ar, z, w, x.take(w.len() as int), a, b);
}

proof fn same_matmul<A: Arith>(
    ar: &A,
    xs: Seq<A::Num>,
    pack: PackModel<A::Num>,
    tokens: int,
    r: Seq<A::Num>,
    q: Seq<A::Num>,
)
    requires
        arith::is_repeatable(ar),
        kernel_ref::is_matmul(ar, xs, pack, tokens, r),
        kernel_ref::is_matmul(ar, xs, pack, tokens, q),
    ensures
        r == q,
{
    let n = pack.out_dim as int;
    assert forall|i: int| 0 <= i < r.len() implies #[trigger] r[i] == q[i] by {
        if n == 0 {
            assert(tokens * n == 0) by (nonlinear_arith)
                requires
                    n == 0,
            ;
        }
        grid::place_cell(tokens, n, i);
        let t = i / n;
        let o = i % n;
        assert(r[i] == grid::cell(r, n, t, o));
        assert(q[i] == grid::cell(q, n, t, o));
        same_linear_cell(
            ar,
            kernel_ref::token(xs, pack.in_dim as int, t),
            pack,
            o,
            grid::cell(r, n, t, o),
            grid::cell(q, n, t, o),
        );
    }
    assert(r =~= q);
}

proof fn same_linear<A: Arith>(
    ar: &A,
    xs: Seq<A::Num>,
    pack: PackModel<A::Num>,
    bias: Option<Seq<A::Num>>,
    tokens: int,
    r: Seq<A::Num>,
    q: Seq<A::Num>,
)
    requires
        arith::is_repeatable(ar),
        kernel_ref::is_linear(ar, xs, pack, bias, tokens, r),
        kernel_ref::is_linear(ar, xs, pack, bias, tokens, q),
    ensures
        r == q,
{
    match bias {
        None => {
            same_matmul(ar, xs, pack, tokens, r, q);
        },
        Some(b) => {
            let x = choose|raw: Seq<A::Num>| #[trigger]
                kernel_ref::is_matmul(ar, xs, pack, tokens, raw) && kernel_ref::is_biased(
                    ar,
                    raw,
                    b,
                    r,
                );
            let y = choose|raw: Seq<A::Num>| #[trigger]
                kernel_ref::is_matmul(ar, xs, pack, tokens, raw) && kernel_ref::is_biased(
                    ar,
                    raw,
                    b,
                    q,
                );
            same_matmul(ar, xs, pack, tokens, x, y);
            assert forall|i: int| 0 <= i < r.len() implies #[trigger] r[i] == q[i] by {
                let c = b[i % b.len() as int];
                assert(arith::is_sum(ar, x[i], c, r[i]));
                assert(arith::is_sum(ar, x[i], c, q[i]));
            }
            assert(r =~= q);
        },
    }
}

proof fn same_swiglu<A: Arith>(ar: &A, g: A::Num, u: A::Num, r: A::Num, q: A::Num)
    requires
        arith::is_repeatable(ar),
        kernel_ref::is_swiglu(ar, g, u, r),
        kernel_ref::is_swiglu(ar, g, u, q),
    ensures
        r == q,
{
}

/// The gated feed-forward kernel gives the same result for the same operands.
pub proof fn same_swiglu_ffn<A: Arith>(
    ar: &A,
    xs: Seq<A::Num>,
    tokens: int,
    gate: PackModel<A::Num>,
    gate_bias: Option<Seq<A::Num>>,
    value: PackModel<A::Num>,
    value_bias: Option<Seq<A::Num>>,
    down: PackModel<A::Num>,
    down_bias: Option<Seq<A::Num>>,
    r: Seq<A::Num>,
    q: Seq<A::Num>,
)
    requires
        arith::is_repeatable(ar),
        kernel_ref::is_swiglu_ffn(
            ar,
            xs,
            tokens,
            gate,
            gate_bias,
            value,
            value_bias,
            down,
            down_bias,
            r,
        ),
        kernel_ref::is_swiglu_ffn(
            ar,
            xs,
            tokens,
            gate,
            gate_bias,
            value,
            value_bias,
            down,
            down_bias,
            q,
        ),
    ensures
        r == q,
{
    let (g, v, h) = choose|g: Seq<A::Num>, v: Seq<A::Num>, hidden: Seq<A::Num>|
        {
            &&& kernel_ref::is_linear(ar, xs, gate, gate_bias, tokens, g)
            &&& kernel_ref::is_linear(ar, xs, value, value_bias, tokens, v)
            &&& #[trigger] kernel_ref::is_swiglu_table(ar, g, v, hidden)
            &&& kernel_ref::is_linear(ar, hidden, down, down_bias, tokens, r)
        };
    let (g2, v2, h2) = choose|g: Seq<A::Num>, v: Seq<A::Num>, hidden: Seq<A::Num>|
        {
            &&& kernel_ref::is_linear(ar, xs, gate, gate_bias, tokens, g)
            &&& kernel_ref::is_linear(ar, xs, value, value_bias, tokens, v)
            &&& #[trigger] kernel_ref::is_swiglu_table(ar, g, v, hidden)
            &&& kernel_ref::is_linear(ar, hidden, down, down_bias, tokens, q)
        };
    same_linear(ar, xs, gate, gate_bias, tokens, g, g2);
    same_linear(ar, xs, value, value_bias, tokens, v, v2);
    assert forall|i: int| 0 <= i < h.len() implies #[trigger] h[i] == h2[i] by {
        assert(kernel_ref::is_swiglu(ar, g[i], v[i], h[i]));
        assert(kernel_ref::is_swiglu(ar, g[i], v[i], h2[i]));
        same_swiglu(ar, g[i], v[i], h[i], h2[i]);
    }
    assert(h =~= h2);
    same_linear(ar, h, down, down_bias, tokens, r, q);
}

proof fn same_score<A: Arith>(
    ar: &A,
    query: Seq<A::Num>,
    key: Seq<A::Num>,
    scale: A::Num,
    mask: Option<A::Num>,
    r: A::Num,
    q: A::Num,
)
    requires
        arith::is_repeatable(ar),
        kernel_ref::is_score(ar, query, key, scale, mask, r),
        kernel_ref::is_score(ar, query, key, scale, mask, q),
    ensures
        r == q,
{
    let (z, a, b) = choose|zero: A::Num, raw: A::Num, scaled: A::Num|
        {
            &&& arith::is_whole(ar, 0, zero)
            &&& #[trigger] arith::is_dot(ar, zero, query, key, raw)
            &&& #[trigger] arith::is_product(ar, raw, scale, scaled)
            &&& match mask {
                Some(m) => arith::is_sum(ar, scaled, m, r),
                None => r == scaled,
            }
        };
    let (y, c, d) = choose|zero: A::Num, raw: A::Num, scaled: A::Num|
        {
            &&& arith::is_whole(ar, 0, zero)
            &&& #[trigger] arith::is_dot(ar, zero, query, key, raw)
            &&& #[trigger] arith::is_product(ar, raw, scale, scaled)
            &&& match mask {
                Some(m) => arith::is_sum(ar, scaled, m, q),
                None => q == scaled,
            }
        };
    assert(z == y);
    same_dot(ar, z, query, key, a, c);
    assert(b == d);
}

proof fn same_peak_run<A: Arith>(
    ar: &A,
    scores: Seq<A::Num>,
    r: Seq<A::Num>,
    q: Seq<A::Num>,
    i: int,
)
    requires
        arith::is_repeatable(ar),
        kernel_ref::is_peak_run(ar, scores, r),
        kernel_ref::is_peak_run(ar, scores, q),
        0 <= i <= scores.len(),
    ensures
        r[i] == q[i],
    decreases i,
{
    if i > 0 {
        same_peak_run(ar, scores, r, q, i - 1);
        let x = scores[i - 1];
        assert(kernel_ref::is_larger(ar, x, r[i - 1], r[i - 1 + 1]));
        assert(kernel_ref::is_larger(ar, x, q[i - 1], q[i - 1 + 1]));
    }
}

proof fn same_peak<A: Arith>(ar: &A, scores: Seq<A::Num>, r: A::Num, q: A::Num)
    requires
        arith::is_repeatable(ar),
        kernel_ref::is_peak(ar, scores, r),
        kernel_ref::is_peak(ar, scores, q),
    ensures
        r == q,
{
    let a = choose|run: Seq<A::Num>| #[trigger]
        kernel_ref::is_peak_run(ar, scores, run) && r == run[scores.len() as int];
    let b = choose|run: Seq<A::Num>| #[trigger]
        kernel_ref::is_peak_run(ar, scores, run) && q == run[scores.len() as int];
    same_peak_run(ar, scores, a, b, scores.len() as int);
}

proof fn same_denominator<A: Arith>(ar: &A, weights: Seq<A::Num>, r: A::Num, q: A::Num)
    requires
        arith::is_repeatable(ar),
        kernel_ref::is_denominator(ar, weights, r),
        kernel_ref::is_denominator(ar, weights, q),
    ensures
        r == q,
{
    let (z, t, s) = choose|zero: A::Num, total: A::Num, speck: A::Num|
        {
            &&& arith::is_whole(ar, 0, zero)
            &&& #[trigger] arith::is_total(ar, zero, weights, total)
            &&& call_ensures(A::speck, (ar,), speck)
            &&& #[trigger] arith::is_sum(ar, total, speck, r)
        };
    let (y, u, v) = choose|zero: A::Num, total: A::Num, speck: A::Num|
        {
            &&& arith::is_whole(ar, 0, zero)
            &&& #[trigger] arith::is_total(ar, zero, weights, total)
            &&& call_ensures(A::speck, (ar,), speck)
            &&& #[trigger] arith::is_sum(ar, total, speck, q)
        };
    assert(z == y);
    same_total(ar, z, weights, t, u);
    assert(s == v);
}

proof fn same_attended<A: Arith>(
    ar: &A,
    weights: Seq<A::Num>,
    values: Seq<A::Num>,
    denom: A::Num,
    r: A::Num,
    q: A::Num,
)
    requires
        arith::is_repeatable(ar),
        kernel_ref::is_attended(ar, weights, values, denom, r),
        kernel_ref::is_attended(ar, weights, values, denom, q),
    ensures
        r == q,
{
    let (z, a) = choose|zero: A::Num, acc: A::Num|
        {
            &&& arith::is_whole(ar, 0, zero)
            &&& #[trigger] arith::is_dot(ar, zero, weights, values, acc)
            &&& arith::is_quotient(ar, acc, denom, r)
        };
    let (y, b) = choose|zero: A::Num, acc: A::Num|
        {
            &&& arith::is_whole(ar, 0, zero)
            &&& #[trigger] arith::is_dot(ar, zero, weights, values, acc)
            &&& arith::is_quotient(ar, acc, denom, q)
        };
    assert(z == y);
    same_dot(ar, z, weights, values, a, b);
}

proof fn same_attended_row<A: Arith>(
    ar: &A,
    query: Seq<A::Num>,
    k: Seq<A::Num>,
    v: Seq<A::Num>,
    base: int,
    s: int,
    d: int,
    scale: A::Num,
    mask: Option<Seq<A::Num>>,
    r: Seq<A::Num>,
    q: Seq<A::Num>,
)
    requires
        arith::is_repeatable(ar),
        kernel_ref::is_attended_row(ar, query, k, v, base, s, d, scale, mask, r),
        kernel_ref::is_attended_row(ar, query, k, v, base, s, d, scale, mask, q),
    ensures
        r == q,
{
    let (sc, pk, wt, dn) = choose|
        scores: Seq<A::Num>,
        peak: A::Num,
        weights: Seq<A::Num>,
        denom: A::Num,
    |
        {
            &&& scores.len() == s
            &&& kernel_ref::are_scores(ar, query, k, base, d, scale, mask, scores)
            &&& kernel_ref::is_peak(ar, scores, peak)
            &&& #[trigger] kernel_ref::are_softmax_weights(ar, scores, peak, weights)
            &&& #[trigger] kernel_ref::is_denominator(ar, weights, denom)
            &&& forall|i: int|
                0 <= i < d ==> kernel_ref::is_attended(
                    ar,
                    weights,
                    kernel_ref::value_column(v, base, s, d, i),
                    denom,
                    #[trigger] r[i],
                )
        };
    let (sc2, pk2, wt2, dn2) = choose|
        scores: Seq<A::Num>,
        peak: A::Num,
        weights: Seq<A::Num>,
        denom: A::Num,
    |
        {
            &&& scores.len() == s
            &&& kernel_ref::are_scores(ar, query, k, base, d, scale, mask, scores)
            &&& kernel_ref::is_peak(ar, scores, peak)
            &&& #[trigger] kernel_ref::are_softmax_weights(ar, scores, peak, weights)
            &&& #[trigger] kernel_ref::is_denominator(ar, weights, denom)
            &&& forall|i: int|
                0 <= i < d ==> kernel_ref::is_attended(
                    ar,
                    weights,
                    kernel_ref::value_column(v, base, s, d, i),
                    denom,
                    #[trigger] q[i],
                )
        };
    assert forall|i: int| 0 <= i < s implies #[trigger] sc[i] == sc2[i] by {
        let m = match mask {
            Some(m) => Some(m[i]),
            None => None,
        };
        let key = kernel_ref::token(k, d, base + i);
        assert(kernel_ref::is_score(ar, query, key, scale, m, sc[i]));
        assert(kernel_ref::is_score(ar, query, key, scale, m, sc2[i]));
        same_score(ar, query, key, scale, m, sc[i], sc2[i]);
    }
    assert(sc =~= sc2);
    same_peak(ar, sc, pk, pk2);
    assert forall|i: int| 0 <= i < s implies #[trigger] wt[i] == wt2[i] by {
        assert(kernel_ref::is_softmax_weight(ar, sc[i], pk, wt[i]));
        assert(kernel_ref::is_softmax_weight(ar, sc[i], pk, wt2[i]));
    }
    assert(wt =~= wt2);
    same_denominator(ar, wt, dn, dn2);
    assert forall|i: int| 0 <= i < d implies #[trigger] r[i] == q[i] by {
        same_attended(ar, wt, kernel_ref::value_column(v, base, s, d, i), dn, r[i], q[i]);
    }
    assert(r =~= q);
}

proof fn same_tokens<T>(rows: int, d: int, r: Seq<T>, q: Seq<T>)
    requires
        0 <= rows,
        0 <= d,
        r.len() == rows * d,
        q.len() == r.len(),
        d > 0 ==> forall|k: int|
            0 <= k < rows ==> #[trigger] kernel_ref::token(r, d, k) == kernel_ref::token(q, d, k),
    ensures
        r == q,
{
    if d == 0 {
        assert(rows * d == 0) by (nonlinear_arith)
            requires
                d == 0,
        ;
    }
    assert forall|i: int| 0 <= i < r.len() implies #[trigger] r[i] == q[i] by {
        grid::place_cell(rows, d, i);
        let k = i / d;
        kernel_ref::token_place(rows, d, k);
        assert(kernel_ref::token(r, d, k) == kernel_ref::token(q, d, k));
        assert(r[i] == kernel_ref::token(r, d, k)[i % d]);
        assert(q[i] == kernel_ref::token(q, d, k)[i % d]);
    }
    assert(r =~= q);
}

proof fn same_attention<A: Arith>(
    ar: &A,
    qs: Seq<A::Num>,
    k: Seq<A::Num>,
    v: Seq<A::Num>,
    mask: Option<Seq<A::Num>>,
    b: int,
    h: int,
    h_kv: int,
    s: int,
    d: int,
    scale: A::Num,
    r: Seq<A::Num>,
    q: Seq<A::Num>,
)
    requires
        arith::is_repeatable(ar),
        0 <= b,
        0 <= h,
        0 <= s,
        0 <= d,
        kernel_ref::is_attention(ar, qs, k, v, mask, b, h, h_kv, s, d, scale, r),
        kernel_ref::is_attention(ar, qs, k, v, mask, b, h, h_kv, s, d, scale, q),
    ensures
        r == q,
{
    let rows = b * h * s;
    assert(0 <= rows) by (nonlinear_arith)
        requires
            rows == b * h * s,
            0 <= b,
            0 <= h,
            0 <= s,
    ;
    if d > 0 {
        assert forall|p: int| 0 <= p < rows implies #[trigger] kernel_ref::token(r, d, p)
            == kernel_ref::token(q, d, p) by {
            kernel_ref::head_row_parts(b, h, s, p);
            let bi = (p / s) / h;
            let hi = (p / s) % h;
            let qp = p % s;
            assert(kernel_ref::head_row(h, s, bi, hi, qp) == p);
            same_attended_row(
                ar,
                kernel_ref::token(qs, d, p),
                k,
                v,
                (bi * h_kv + kernel_ref::kv_head(h, h_kv, hi)) * s,
                s,
                d,
                scale,
                kernel_ref::mask_row(mask, s, bi, qp),
                kernel_ref::token(r, d, p),
                kernel_ref::token(q, d, p),
            );
        }
    }
    same_tokens(rows, d, r, q);
}

proof fn same_transposed<T>(src: Seq<T>, r: Seq<T>, q: Seq<T>, b: int, n1: int, n2: int, d: int)
    requires
        0 <= b,
        0 <= n1,
        0 <= n2,
        0 <= d,
        kernel_ref::is_transposed(src, r, b, n1, n2, d),
        kernel_ref::is_transposed(src, q, b, n1, n2, d),
    ensures
        r == q,
{
    let rows = b * n1 * n2;
    assert(0 <= rows) by (nonlinear_arith)
        requires
            rows == b * n1 * n2,
            0 <= b,
            0 <= n1,
            0 <= n2,
    ;
    assert forall|p: int| 0 <= p < rows implies #[trigger] kernel_ref::token(r, d, p)
        == kernel_ref::token(q, d, p) by {
        kernel_ref::head_row_parts(b, n1, n2, p);
        assert(kernel_ref::head_row(n1, n2, (p / n2) / n1, (p / n2) % n1, p % n2) == p);
    }
    same_tokens(rows, d, r, q);
}

proof fn same_rotated<A: Arith>(
    ar: &A,
    x1: A::Num,
    x2: A::Num,
    c: A::Num,
    sn: A::Num,
    r1: A::Num,
    r2: A::Num,
    q1: A::Num,
    q2: A::Num,
)
    requires
        arith::is_repeatable(ar),
        kernel_ref::is_rotated(ar, x1, x2, c, sn, r1, r2),
        kernel_ref::is_rotated(ar, x1, x2, c, sn, q1, q2),
    ensures
        r1 == q1,
        r2 == q2,
{
}

proof fn same_roped<A: Arith>(
    ar: &A,
    xs: Seq<A::Num>,
    r: Seq<A::Num>,
    q: Seq<A::Num>,
    cos: Seq<A::Num>,
    sin: Seq<A::Num>,
    total: int,
    seq: int,
    head_dim: int,
)
    requires
        arith::is_repeatable(ar),
        0 <= total,
        0 <= head_dim,
        kernel_ref::is_roped(ar, xs, r, cos, sin, total, seq, head_dim),
        kernel_ref::is_roped(ar, xs, q, cos, sin, total, seq, head_dim),
    ensures
        r == q,
{
    let half = head_dim / 2;
    assert forall|j: int| 0 <= j < xs.len() implies #[trigger] r[j] == q[j] by {
        if j >= total * head_dim || head_dim == 0 || j % head_dim >= 2 * half {
            assert(r[j] == xs[j] && q[j] == xs[j]);
        } else {
            grid::place_cell(total, head_dim, j);
            let t = j / head_dim;
            let c = j % head_dim;
            let i = if c < half {
                c
            } else {
                c - half
            };
            assert(0 <= i < half);
            same_rotated(
                ar,
                grid::cell(xs, head_dim, t, i),
                grid::cell(xs, head_dim, t, half + i),
                cos[(t % seq) * half + i],
                sin[(t % seq) * half + i],
                grid::cell(r, head_dim, t, i),
                grid::cell(r, head_dim, t, half + i),
                grid::cell(q, head_dim, t, i),
                grid::cell(q, head_dim, t, half + i),
            );
        }
    }
    assert(r =~= q);
}

proof fn same_heads<A: Arith>(
    ar: &A,
    xs: Seq<A::Num>,
    pack: PackModel<A::Num>,
    bias: Option<Seq<A::Num>>,
    b: int,
    s: int,
    n: int,
    d: int,
    r: Seq<A::Num>,
    q: Seq<A::Num>,
)
    requires
        arith::is_repeatable(ar),
        0 <= b,
        0 <= s,
        0 <= n,
        0 <= d,
        kernel_ref::is_heads(ar, xs, pack, bias, b, s, n, d, r),
        kernel_ref::is_heads(ar, xs, pack, bias, b, s, n, d, q),
    ensures
        r == q,
{
    let x = choose|flat: Seq<A::Num>| #[trigger]
        kernel_ref::is_linear(ar, xs, pack, bias, b * s, flat) && kernel_ref::is_transposed(
            flat,
            r,
            b,
            n,
            s,
            d,
        );
    let y = choose|flat: Seq<A::Num>| #[trigger]
        kernel_ref::is_linear(ar, xs, pack, bias, b * s, flat) && kernel_ref::is_transposed(
            flat,
            q,
            b,
            n,
            s,
            d,
        );
    same_linear(ar, xs, pack, bias, b * s, x, y);
    same_transposed(x, r, q, b, n, s, d);
}

proof fn same_rotary_attention<A: Arith>(
    ar: &A,
    qh: Seq<A::Num>,
    kh: Seq<A::Num>,
    vh: Seq<A::Num>,
    b: int,
    s: int,
    n_heads: int,
    n_kv: int,
    head_dim: int,
    cos: Seq<A::Num>,
    sin: Seq<A::Num>,
    mask: Option<Seq<A::Num>>,
    r: Seq<A::Num>,
    q: Seq<A::Num>,
)
    requires
        arith::is_repeatable(ar),
        0 <= b,
        0 <= s,
        0 <= n_heads,
        0 <= n_kv,
        0 <= head_dim,
        kernel_ref::is_rotary_attention(
            ar,
            qh,
            kh,
            vh,
            b,
            s,
            n_heads,
            n_kv,
            head_dim,
            cos,
            sin,
            mask,
            r,
        ),
        kernel_ref::is_rotary_attention(
            ar,
            qh,
            kh,
            vh,
            b,
            s,
            n_heads,
            n_kv,
            head_dim,
            cos,
            sin,
            mask,
            q,
        ),
    ensures
        r == q,
{
    let (a, k, x) = choose|qr: Seq<A::Num>, kr: Seq<A::Num>, scale: A::Num|
        {
            &&& #[trigger] kernel_ref::is_roped(ar, qh, qr, cos, sin, b * n_heads * s, s, head_dim)
            &&& #[trigger] kernel_ref::is_roped(ar, kh, kr, cos, sin, b * n_kv * s, s, head_dim)
            &&& #[trigger] kernel_ref::is_head_scale(ar, head_dim, scale)
            &&& kernel_ref::is_attention(
                ar,
                qr,
                kr,
                vh,
                mask,
                b,
                n_heads,
                n_kv,
                s,
                head_dim,
                scale,
                r,
            )
        };
    let (a2, k2, x2) = choose|qr: Seq<A::Num>, kr: Seq<A::Num>, scale: A::Num|
        {
            &&& #[trigger] kernel_ref::is_roped(ar, qh, qr, cos, sin, b * n_heads * s, s, head_dim)
            &&& #[trigger] kernel_ref::is_roped(ar, kh, kr, cos, sin, b * n_kv * s, s, head_dim)
            &&& #[trigger] kernel_ref::is_head_scale(ar, head_dim, scale)
            &&& kernel_ref::is_attention(
                ar,
                qr,
                kr,
                vh,
                mask,
                b,
                n_heads,
                n_kv,
                s,
                head_dim,
                scale,
                q,
            )
        };
    assert(0 <= b * n_heads * s) by (nonlinear_arith)
        requires
            0 <= b,
            0 <= n_heads,
            0 <= s,
    ;
    assert(0 <= b * n_kv * s) by (nonlinear_arith)
        requires
            0 <= b,
            0 <= n_kv,
            0 <= s,
    ;
    same_roped(ar, qh, a, a2, cos, sin, b * n_heads * s, s, head_dim);
    same_roped(ar, kh, k, k2, cos, sin, b * n_kv * s, s, head_dim);
    assert(x == x2);
    same_attention(ar, a, k, vh, mask, b, n_heads, n_kv, s, head_dim, x, r, q);
}

/// The attention kernel gives the same result for the same operands.
pub proof fn same_mha<A: Arith>(
    ar: &A,
    xs: Seq<A::Num>,
    b: int,
    s: int,
    qp: PackModel<A::Num>,
    q_bias: Option<Seq<A::Num>>,
    kp: PackModel<A::Num>,
    k_bias: Option<Seq<A::Num>>,
    vp: PackModel<A::Num>,
    v_bias: Option<Seq<A::Num>>,
    op: PackModel<A::Num>,
    o_bias: Option<Seq<A::Num>>,
    n_heads: int,
    n_kv: int,
    head_dim: int,
    cos: Seq<A::Num>,
    sin: Seq<A::Num>,
    mask: Option<Seq<A::Num>>,
    r: Seq<A::Num>,
    q: Seq<A::Num>,
)
    requires
        arith::is_repeatable(ar),
        0 <= b,
        0 <= s,
        0 <= n_heads,
        0 <= n_kv,
        0 <= head_dim,
        kernel_ref::is_mha(
            ar,
            xs,
            b,
            s,
            qp,
            q_bias,
            kp,
            k_bias,
            vp,
            v_bias,
            op,
            o_bias,
            n_heads,
            n_kv,
            head_dim,
            cos,
            sin,
            mask,
            r,
        ),
        kernel_ref::is_mha(
            ar,
            xs,
            b,
            s,
            qp,
            q_bias,
            kp,
            k_bias,
            vp,
            v_bias,
            op,
            o_bias,
            n_heads,
            n_kv,
            head_dim,
            cos,
            sin,
            mask,
            q,
        ),
    ensures
        r == q,
{
    let (qh, kh, vh, ctx, joined) = choose|
        qh: Seq<A::Num>,
        kh: Seq<A::Num>,
        vh: Seq<A::Num>,
        ctx: Seq<A::Num>,
        joined: Seq<A::Num>,
    |
        {
            &&& #[trigger] kernel_ref::is_heads(ar, xs, qp, q_bias, b, s, n_heads, head_dim, qh)
            &&& #[trigger] kernel_ref::is_heads(ar, xs, kp, k_bias, b, s, n_kv, head_dim, kh)
            &&& #[trigger] kernel_ref::is_heads(ar, xs, vp, v_bias, b, s, n_kv, head_dim, vh)
            &&& kernel_ref::is_rotary_attention(
                ar,
                qh,
                kh,
                vh,
                b,
                s,
                n_heads,
                n_kv,
                head_dim,
                cos,
                sin,
                mask,
                ctx,
            )
            &&& #[trigger] kernel_ref::is_transposed(ctx, joined, b, s, n_heads, head_dim)
            &&& kernel_ref::is_linear(ar, joined, op, o_bias, b * s, r)
        };
    let (qh2, kh2, vh2, ctx2, joined2) = choose|
        qh: Seq<A::Num>,
        kh: Seq<A::Num>,
        vh: Seq<A::Num>,
        ctx: Seq<A::Num>,
        joined: Seq<A::Num>,
    |
        {
            &&& #[trigger] kernel_ref::is_heads(ar, xs, qp, q_bias, b, s, n_heads, head_dim, qh)
            &&& #[trigger] kernel_ref::is_heads(ar, xs, kp, k_bias, b, s, n_kv, head_dim, kh)
            &&& #[trigger] kernel_ref::is_heads(ar, xs, vp, v_bias, b, s, n_kv, head_dim, vh)
            &&& kernel_ref::is_rotary_attention(
                ar,
                qh,
                kh,
                vh,
                b,
                s,
                n_heads,
                n_kv,
                head_dim,
                cos,
                sin,
                mask,
                ctx,
            )
            &&& #[trigger] kernel_ref::is_transposed(ctx, joined, b, s, n_heads, head_dim)
            &&& kernel_ref::is_linear(ar, joined, op, o_bias, b * s, q)
        };
    same_heads(ar, xs, qp, q_bias, b, s, n_heads, head_dim, qh, qh2);
    same_heads(ar, xs, kp, k_bias, b, s, n_kv, head_dim, kh, kh2);
    same_heads(ar, xs, vp, v_bias, b, s, n_kv, head_dim, vh, vh2);
    same_rotary_attention(
        ar,
        qh,
        kh,
        vh,
        b,
        s,
        n_heads,
        n_kv,
        head_dim,
        cos,
        sin,
        mask,
        ctx,
        ctx2,
    );
    same_transposed(ctx, joined, joined2, b, s, n_heads, head_dim);
    same_linear(ar, joined, op, o_bias, b * s, r, q);
}

/// No device takes part: the bank leaves every call to the reference kernels.
pub open spec fn is_idle<N, B: Bank<N>>(bank: &B) -> bool {
    &&& forall|
        xs: &[N],
        tokens: usize,
        gate: &TernaryPacked<N>,
        gb: Option<&[N]>,
        value: &TernaryPacked<N>,
        vb: Option<&[N]>,
        down: &TernaryPacked<N>,
        db: Option<&[N]>,
        dev: Option<Vec<N>>,
    | #[trigger]
        call_ensures(B::swiglu_ffn, (bank, xs, tokens, gate, gb, value, vb, down, db), dev)
            ==> dev is None
    &&& forall|c: &MhaCall<N>, dev: Option<Vec<N>>| #[trigger]
        call_ensures(B::mha, (bank, c), dev) ==> dev is None
    &&& forall|c: &StackCall<N>, dev: Option<Vec<N>>| #[trigger]
        call_ensures(B::stack, (bank, c), dev) ==> dev is None
    &&& forall|gamma: &[N], given: bool| #[trigger]
        call_ensures(B::has_layer_norm, (bank, gamma), given) ==> !given
}

/// Without a device, no device takes part.
pub proof fn no_bank_is_idle<N>(bank: &NoBank)
    ensures
        is_idle::<N, NoBank>(bank),
{
}

proof fn linear_len<A: Arith>(
    ar: &A,
    xs: Seq<A::Num>,
    pack: PackModel<A::Num>,
    bias: Option<Seq<A::Num>>,
    tokens: int,
    out: Seq<A::Num>,
)
    requires
        kernel_ref::is_linear(ar, xs, pack, bias, tokens, out),
    ensures
        out.len() == tokens * pack.out_dim,
{
}

proof fn three_dims(b: usize, s: usize, d: usize)
    ensures
        tensor::elem_count(seq![b, s, d]) == b * s * d,
{
    let all = seq![b, s, d];
    reveal_with_fuel(tensor::elem_count, 4);
    assert(all.drop_last() =~= seq![b, s]);
    assert(seq![b, s].drop_last() =~= seq![b]);
    assert(seq![b].drop_last() =~= Seq::<usize>::empty());
    assert(1 * b == b);
}

/// What packed attention comes to without a device, on operands that are not refused: a tensor
/// of batch, sequence and output width.
pub proof fn attention_answers<A: Arith, B: Bank<A::Num>>(
    ar: &A,
    bank: &B,
    xs: DenseTensor<A::Num>,
    q: MaybeTernaryLinear<A::Num>,
    k: MaybeTernaryLinear<A::Num>,
    v: MaybeTernaryLinear<A::Num>,
    o: MaybeTernaryLinear<A::Num>,
    n_heads: usize,
    n_kv: usize,
    head_dim: usize,
    rope: RopeCache<A::Num>,
    mask: Option<Seq<A::Num>>,
    r: Result<DenseModel<A::Num>, DispatchError>,
)
    requires
        is_idle(bank),
        kernel_dispatch::mha_refusal(
            xs.dims@,
            q.pack(),
            k.pack(),
            v.pack(),
            o.pack(),
            head_dim,
            rope,
            mask,
        ) is None,
        kernel_dispatch::is_packed_mha(
            ar,
            bank,
            xs,
            q,
            k,
            v,
            o,
            n_heads,
            n_kv,
            head_dim,
            rope,
            mask,
            r,
        ),
    ensures
        r matches Ok(t) && t.wf() && t.dims == seq![
            xs.dims@[0],
            xs.dims@[1],
            o.pack()->Some_0.out_dim,
        ],
{
    let b = xs.dims@[0];
    let s = xs.dims@[1];
    let d = o.pack()->Some_0.out_dim;
    let (c, out) = choose|c: MhaCall<A::Num>, out: Seq<A::Num>|
        {
            &&& kernel_dispatch::is_mha_call(
                c,
                xs,
                q,
                k,
                v,
                o,
                n_heads,
                n_kv,
                head_dim,
                rope,
                mask,
            )
            &&& #[trigger] kernel_dispatch::is_mha_f32(ar, bank, &c, out)
            &&& r == kernel_dispatch::shaped(seq![b, s, d], out)
        };
    let joined = choose|joined: Seq<A::Num>| #[trigger]
        kernel_ref::is_linear(
            ar,
            joined,
            c.o@,
            kernel_ref::held(c.o_bias),
            c.b * c.s,
            out,
        );
    linear_len(ar, joined, c.o@, kernel_ref::held(c.o_bias), c.b * c.s, out);
    three_dims(b, s, d);
}

/// Packed attention gives the same answer where the masks of the batch are the same.
pub proof fn same_packed_mha<A: Arith, B: Bank<A::Num>>(
    ar: &A,
    bank: &B,
    xs: DenseTensor<A::Num>,
    q: MaybeTernaryLinear<A::Num>,
    k: MaybeTernaryLinear<A::Num>,
    v: MaybeTernaryLinear<A::Num>,
    o: MaybeTernaryLinear<A::Num>,
    n_heads: usize,
    n_kv: usize,
    head_dim: usize,
    rope: RopeCache<A::Num>,
    mask: Option<Seq<A::Num>>,
    other: Option<Seq<A::Num>>,
    r: Result<DenseModel<A::Num>, DispatchError>,
    p: Result<DenseModel<A::Num>, DispatchError>,
)
    requires
        arith::is_repeatable(ar),
        is_idle(bank),
        xs.dims@.len() == 3 ==> kernel_dispatch::mask_for(
            mask,
            xs.dims@[0] as int,
            xs.dims@[1] as int,
        ) == kernel_dispatch::mask_for(other, xs.dims@[0] as int, xs.dims@[1] as int),
        kernel_dispatch::is_packed_mha(
            ar,
            bank,
            xs,
            q,
            k,
            v,
            o,
            n_heads,
            n_kv,
            head_dim,
            rope,
            mask,
            r,
        ),
        kernel_dispatch::is_packed_mha(
            ar,
            bank,
            xs,
            q,
            k,
            v,
            o,
            n_heads,
            n_kv,
            head_dim,
            rope,
            other,
            p,
        ),
    ensures
        r == p,
{
    let refusal = kernel_dispatch::mha_refusal(
        xs.dims@,
        q.pack(),
        k.pack(),
        v.pack(),
        o.pack(),
        head_dim,
        rope,
        mask,
    );
    assert(refusal == kernel_dispatch::mha_refusal(
        xs.dims@,
        q.pack(),
        k.pack(),
        v.pack(),
        o.pack(),
        head_dim,
        rope,
        other,
    ));
    if refusal is None {
        let dims = seq![xs.dims@[0], xs.dims@[1], o.pack()->Some_0.out_dim];
        let (c, x) = choose|c: MhaCall<A::Num>, out: Seq<A::Num>|
            {
                &&& kernel_dispatch::is_mha_call(
                    c,
                    xs,
                    q,
                    k,
                    v,
                    o,
                    n_heads,
                    n_kv,
                    head_dim,
                    rope,
                    mask,
                )
                &&& #[trigger] kernel_dispatch::is_mha_f32(ar, bank, &c, out)
                &&& r == kernel_dispatch::shaped(dims, out)
            };
        let (e, y) = choose|c: MhaCall<A::Num>, out: Seq<A::Num>|
            {
                &&& kernel_dispatch::is_mha_call(
                    c,
                    xs,
                    q,
                    k,
                    v,
                    o,
                    n_heads,
                    n_kv,
                    head_dim,
                    rope,
                    other,
                )
                &&& #[trigger] kernel_dispatch::is_mha_f32(ar, bank, &c, out)
                &&& p == kernel_dispatch::shaped(dims, out)
            };
        same_mha(
            ar,
            c.xs@,
            c.b as int,
            c.s as int,
            c.q@,
            kernel_ref::held(c.q_bias),
            c.k@,
            kernel_ref::held(c.k_bias),
            c.v@,
            kernel_ref::held(c.v_bias),
            c.o@,
            kernel_ref::held(c.o_bias),
            c.n_heads as int,
            c.n_kv as int,
            c.head_dim as int,
            c.rope_cos@,
            c.rope_sin@,
            kernel_ref::held(c.mask),
            x,
            y,
        );
    }
}

proof fn repeated_mask<N>(m: Seq<N>, b: int, s: int)
    requires
        0 <= b,
        0 <= s,
        m.len() == s * s,
    ensures
        kernel_dispatch::mask_for(Some(m), b, s) == kernel_dispatch::mask_for(
            Some(kernel_dispatch::repeated(m, b)),
            b,
            s,
        ),
{
    let all = kernel_dispatch::repeated(m, b);
    assert(b * s * s == b * (s * s) && b * (s * s) >= 0) by (nonlinear_arith)
        requires
            0 <= b,
    ;
    assert(all.len() == b * s * s);
    if m.len() == b * s * s {
        assert forall|i: int| 0 <= i < all.len() implies #[trigger] all[i] == m[i] by {
            vstd::arithmetic::div_mod::lemma_small_mod(i as nat, m.len());
        }
        assert(all =~= m);
    }
}

/// A mask for one sequence and that mask repeated for every sequence of the batch are the same
/// request, whatever the arithmetic and the device: packed attention may answer the one exactly
/// as it may answer the other, and an answer that is a tensor is of batch, sequence and output
/// width.
pub proof fn one_mask_is_the_repeated_one<A: Arith, B: Bank<A::Num>>(
    ar: &A,
    bank: &B,
    xs: DenseTensor<A::Num>,
    q: MaybeTernaryLinear<A::Num>,
    k: MaybeTernaryLinear<A::Num>,
    v: MaybeTernaryLinear<A::Num>,
    o: MaybeTernaryLinear<A::Num>,
    n_heads: usize,
    n_kv: usize,
    head_dim: usize,
    rope: RopeCache<A::Num>,
    m: Seq<A::Num>,
    r: Result<DenseModel<A::Num>, DispatchError>,
)
    requires
        xs.dims@.len() == 3,
        m.len() == xs.dims@[1] * xs.dims@[1],
    ensures
        kernel_dispatch::is_packed_mha(
            ar,
            bank,
            xs,
            q,
            k,
            v,
            o,
            n_heads,
            n_kv,
            head_dim,
            rope,
            Some(m),
            r,
        ) <==> kernel_dispatch::is_packed_mha(
            ar,
            bank,
            xs,
            q,
            k,
            v,
            o,
            n_heads,
            n_kv,
            head_dim,
            rope,
            Some(kernel_dispatch::repeated(m, xs.dims@[0] as int)),
            r,
        ),
        kernel_dispatch::is_packed_mha(
            ar,
            bank,
            xs,
            q,
            k,
            v,
            o,
            n_heads,
            n_kv,
            head_dim,
            rope,
            Some(m),
            r,
        ) ==> (r matches Ok(t) ==> t.wf() && t.dims == seq![
            xs.dims@[0],
            xs.dims@[1],
            o.pack()->Some_0.out_dim,
        ]),
{
    let b = xs.dims@[0] as int;
    let s = xs.dims@[1] as int;
    let all = kernel_dispatch::repeated(m, b);
    repeated_mask(m, b, s);
    assert forall|c: MhaCall<A::Num>| #[trigger]
        kernel_dispatch::is_mha_call(
            c,
            xs,
            q,
            k,
            v,
            o,
            n_heads,
            n_kv,
            head_dim,
            rope,
            Some(m),
        ) == kernel_dispatch::is_mha_call(
            c,
            xs,
            q,
            k,
            v,
            o,
            n_heads,
            n_kv,
            head_dim,
            rope,
            Some(all),
        ) by {}
}

/// A mask for one sequence acts as that mask repeated for every sequence of the batch: packed
/// attention gives the same tensor for both, of batch, sequence and output width where nothing
/// is refused.
pub proof fn one_mask_serves_the_batch<A: Arith, B: Bank<A::Num>>(
    ar: &A,
    bank: &B,
    xs: DenseTensor<A::Num>,
    q: MaybeTernaryLinear<A::Num>,
    k: MaybeTernaryLinear<A::Num>,
    v: MaybeTernaryLinear<A::Num>,
    o: MaybeTernaryLinear<A::Num>,
    n_heads: usize,
    n_kv: usize,
    head_dim: usize,
    rope: RopeCache<A::Num>,
    m: Seq<A::Num>,
    r: Result<DenseModel<A::Num>, DispatchError>,
    p: Result<DenseModel<A::Num>, DispatchError>,
)
    requires
        arith::is_repeatable(ar),
        is_idle(bank),
        xs.dims@.len() == 3,
        m.len() == xs.dims@[1] * xs.dims@[1],
        kernel_dispatch::is_packed_mha(
            ar,
            bank,
            xs,
            q,
            k,
            v,
            o,
            n_heads,
            n_kv,
            head_dim,
            rope,
            Some(m),
            r,
        ),
        kernel_dispatch::is_packed_mha(
            ar,
            bank,
            xs,
            q,
            k,
            v,
            o,
            n_heads,
            n_kv,
            head_dim,
            rope,
            Some(kernel_dispatch::repeated(m, xs.dims@[0] as int)),
            p,
        ),
    ensures
        r == p,
        q.pack() is Some && k.pack() is Some && v.pack() is Some && o.pack() is Some
            && kernel_dispatch::rope_refusal(rope, xs.dims@[1], head_dim) is None ==> (r matches Ok(
            t,
        ) && t.dims == seq![xs.dims@[0], xs.dims@[1], o.pack()->Some_0.out_dim]),
{
    let b = xs.dims@[0] as int;
    let s = xs.dims@[1] as int;
    repeated_mask(m, b, s);
    same_packed_mha(
        ar,
        bank,
        xs,
        q,
        k,
        v,
        o,
        n_heads,
        n_kv,
        head_dim,
        rope,
        Some(m),
        Some(kernel_dispatch::repeated(m, b)),
        r,
        p,
    );
    if kernel_dispatch::mha_refusal(
        xs.dims@,
        q.pack(),
        k.pack(),
        v.pack(),
        o.pack(),
        head_dim,
        rope,
        Some(m),
    ) is None {
        attention_answers(
            ar,
            bank,
            xs,
            q,
            k,
            v,
            o,
            n_heads,
            n_kv,
            head_dim,
            rope,
            Some(m),
            r,
        );
    }
}

/// Packed attention refuses a mask that covers neither one sequence nor the batch, and a
/// projection that is not packed.
pub proof fn attention_refuses<A: Arith, B: Bank<A::Num>>(
    ar: &A,
    bank: &B,
    xs: DenseTensor<A::Num>,
    q: MaybeTernaryLinear<A::Num>,
    k: MaybeTernaryLinear<A::Num>,
    v: MaybeTernaryLinear<A::Num>,
    o: MaybeTernaryLinear<A::Num>,
    n_heads: usize,
    n_kv: usize,
    head_dim: usize,
    rope: RopeCache<A::Num>,
    mask: Option<Seq<A::Num>>,
    r: Result<DenseModel<A::Num>, DispatchError>,
)
    requires
        xs.dims@.len() == 3,
        ({
            let b = xs.dims@[0];
            let s = xs.dims@[1];
            ||| mask matches Some(m) && m.len() != s * s && m.len() != b * s * s
            ||| q.pack() is None
            ||| k.pack() is None
            ||| v.pack() is None
            ||| o.pack() is None
        }),
        kernel_dispatch::is_packed_mha(
            ar,
            bank,
            xs,
            q,
            k,
            v,
            o,
            n_heads,
            n_kv,
            head_dim,
            rope,
            mask,
            r,
        ),
    ensures
        r is Err,
{
}

/// The packed feed-forward layer gives the same answer for the same operands.
pub proof fn same_packed_ffn<A: Arith, B: Bank<A::Num>>(
    ar: &A,
    bank: &B,
    xs: DenseTensor<A::Num>,
    gate: MaybeTernaryLinear<A::Num>,
    value: MaybeTernaryLinear<A::Num>,
    down: MaybeTernaryLinear<A::Num>,
    r: Result<DenseModel<A::Num>, DispatchError>,
    q: Result<DenseModel<A::Num>, DispatchError>,
)
    requires
        arith::is_repeatable(ar),
        is_idle(bank),
        kernel_dispatch::is_packed_ffn(ar, bank, xs, gate, value, down, r),
        kernel_dispatch::is_packed_ffn(ar, bank, xs, gate, value, down, q),
    ensures
        r == q,
{
    if kernel_dispatch::ffn_refusal(xs.dims@, gate.pack(), value.pack(), down.pack()) is None {
        let tokens = kernel_dispatch::token_count(
            xs.data@.len(),
            kernel_dispatch::last_dim(xs.dims@),
        ) as usize;
        let gp = gate.pack()->Some_0;
        let vp = value.pack()->Some_0;
        let dp = down.pack()->Some_0;
        let gb = kernel_dispatch::owned(gate.lin().bias);
        let vb = kernel_dispatch::owned(value.lin().bias);
        let db = kernel_dispatch::owned(down.lin().bias);
        let dims = kernel_dispatch::with_last(xs.dims@, dp.out_dim);
        let x = choose|out: Seq<A::Num>| #[trigger]
            kernel_ref::is_swiglu_ffn(
                ar,
                xs.data@,
                tokens as int,
                gp@,
                gb,
                vp@,
                vb,
                dp@,
                db,
                out,
            )
                && r == kernel_dispatch::shaped(dims, out);
        let y = choose|out: Seq<A::Num>| #[trigger]
            kernel_ref::is_swiglu_ffn(
                ar,
                xs.data@,
                tokens as int,
                gp@,
                gb,
                vp@,
                vb,
                dp@,
                db,
                out,
            )
                && q == kernel_dispatch::shaped(dims, out);
        same_swiglu_ffn(
            ar,
            xs.data@,
            tokens as int,
            gp@,
            gb,
            vp@,
            vb,
            dp@,
            db,
            x,
            y,
        );
    }
}

/// What an operation came to: its value where a later one was reached, else the whole result.
spec fn reached<T, E>(i: int, k: int, value: T, r: Result<T, E>) -> Result<T, E> {
    if i < k {
        Ok(value)
    } else {
        r
    }
}

/// The failure of an operation, where it is the one that failed.
spec fn failed<T, E>(i: int, k: int, r: Result<T, E>) -> Option<E> {
    if i < k {
        None
    } else {
        Some(r->Err_0)
    }
}

/// The operations of a pass give the same result for the same tensors, and no device takes part.
pub open spec fn is_repeatable_pass<P: Pass>(p: &P) -> bool {
    &&& forall|a: &P::A, b: &P::A| #[trigger]
        call_ensures(P::arith, (p,), a) && #[trigger] call_ensures(P::arith, (p,), b) ==> a == b
    &&& forall|a: &P::A| #[trigger]
        call_ensures(P::arith, (p,), a) ==> arith::is_repeatable(a)
    &&& forall|a: &P::B, b: &P::B| #[trigger]
        call_ensures(P::bank, (p,), a) && #[trigger] call_ensures(P::bank, (p,), b) ==> a == b
    &&& leaves_device(p)
    &&& forall|
        xs: &P::T,
        a: Result<DenseTensor<P::N>, P::E>,
        b: Result<DenseTensor<P::N>, P::E>,
    | #[trigger]
        call_ensures(P::plain, (p, xs), a) && #[trigger] call_ensures(P::plain, (p, xs), b) ==> a
            == b
    &&& forall|
        t: DenseTensor<P::N>,
        u: DenseTensor<P::N>,
        a: Result<P::T, P::E>,
        b: Result<P::T, P::E>,
    | #[trigger]
        call_ensures(P::tensor, (p, t), a) && #[trigger] call_ensures(P::tensor, (p, u), b) && t@
            == u@ ==> a == b
    &&& forall|e: DispatchError, a: P::E, b: P::E| #[trigger]
        call_ensures(P::refused, (p, e), a) && #[trigger] call_ensures(P::refused, (p, e), b) ==> a
            == b
    &&& forall|site: Site, xs: &P::T, a: Result<P::T, P::E>, b: Result<P::T, P::E>| #[trigger]
        call_ensures(P::layer_norm, (p, site, xs), a) && #[trigger] call_ensures(
            P::layer_norm,
            (p, site, xs),
            b,
        ) ==> a == b
    &&& forall|x: &P::T, y: &P::T, a: Result<P::T, P::E>, b: Result<P::T, P::E>| #[trigger]
        call_ensures(P::plus, (p, x, y), a) && #[trigger] call_ensures(P::plus, (p, x, y), b) ==> a
            == b
}

/// No device takes part in the pass.
pub open spec fn leaves_device<P: Pass>(p: &P) -> bool {
    forall|b: &P::B| #[trigger]
        call_ensures(P::bank, (p,), b) ==> is_idle::<P::N, P::B>(b)
}

proof fn same_carried<P: Pass>(
    p: &P,
    x: Result<DenseTensor<P::N>, DispatchError>,
    y: Result<DenseTensor<P::N>, DispatchError>,
    r: Result<P::T, P::E>,
    q: Result<P::T, P::E>,
)
    requires
        is_repeatable_pass(p),
        kernel_dispatch::result_model(x) == kernel_dispatch::result_model(y),
        forward::is_carried(p, x, r),
        forward::is_carried(p, y, q),
    ensures
        r == q,
{
}

proof fn same_norm_out<P: Pass>(
    p: &P,
    ln: Norm<P::N>,
    packed: bool,
    site: Site,
    xs: &P::T,
    r: Result<P::T, P::E>,
    q: Result<P::T, P::E>,
)
    requires
        is_repeatable_pass(p),
        forward::is_norm_out(p, ln, packed, site, xs, r),
        forward::is_norm_out(p, ln, packed, site, xs, q),
    ensures
        r == q,
{
    norm_by_host(p, ln, packed, site, xs, r);
    norm_by_host(p, ln, packed, site, xs, q);
}

proof fn norm_by_host<P: Pass>(
    p: &P,
    ln: Norm<P::N>,
    packed: bool,
    site: Site,
    xs: &P::T,
    r: Result<P::T, P::E>,
)
    requires
        leaves_device(p),
        forward::is_norm_out(p, ln, packed, site, xs, r),
    ensures
        call_ensures(P::layer_norm, (p, site, xs), r),
{
    if packed {
        let (bank, gamma, given) = choose|bank: &P::B, gamma: &[P::N], given: bool|
            {
                &&& call_ensures(P::bank, (p,), bank)
                &&& gamma@ == ln.weight@
                &&& #[trigger] call_ensures(P::B::has_layer_norm, (bank, gamma), given)
                &&& if given {
                    forward::is_device_norm_out(p, bank, ln, site, xs, r)
                } else {
                    call_ensures(P::layer_norm, (p, site, xs), r)
                }
            };
        assert(is_idle::<P::N, P::B>(bank));
        assert(!given);
    }
}

proof fn same_ffn_out<P: Pass>(
    p: &P,
    f: SwiGluFfn<P::N>,
    site: Site,
    xs: &P::T,
    r: Result<P::T, P::E>,
    q: Result<P::T, P::E>,
)
    requires
        is_repeatable_pass(p),
        f.all_packed(),
        forward::is_ffn_out(p, f, site, xs, r),
        forward::is_ffn_out(p, f, site, xs, q),
    ensures
        r == q,
{
    let x = choose|x: Result<DenseTensor<P::N>, P::E>| #[trigger]
        call_ensures(P::plain, (p, xs), x) && match x {
            Ok(x) => forward::is_packed_ffn_on(p, f, x, r),
            Err(e) => r == Err::<P::T, P::E>(e),
        };
    let y = choose|x: Result<DenseTensor<P::N>, P::E>| #[trigger]
        call_ensures(P::plain, (p, xs), x) && match x {
            Ok(x) => forward::is_packed_ffn_on(p, f, x, q),
            Err(e) => q == Err::<P::T, P::E>(e),
        };
    assert(x == y);
    if let Ok(t) = x {
        let (ar, bank, a) = choose|
            ar: &P::A,
            bank: &P::B,
            q: Result<DenseTensor<P::N>, DispatchError>,
        |
            {
                &&& forward::names_kernels(p, ar, bank)
                &&& #[trigger] kernel_dispatch::is_ffn_answer(
                    ar,
                    bank,
                    t,
                    f.gate,
                    f.value,
                    f.down,
                    kernel_dispatch::result_model(q),
                )
                &&& forward::is_carried(p, q, r)
            };
        let (ar2, bank2, c) = choose|
            ar: &P::A,
            bank: &P::B,
            w: Result<DenseTensor<P::N>, DispatchError>,
        |
            {
                &&& forward::names_kernels(p, ar, bank)
                &&& #[trigger] kernel_dispatch::is_ffn_answer(
                    ar,
                    bank,
                    t,
                    f.gate,
                    f.value,
                    f.down,
                    kernel_dispatch::result_model(w),
                )
                &&& forward::is_carried(p, w, q)
            };
        assert(ar == ar2 && bank == bank2);
        assert(is_idle::<P::N, P::B>(bank));
        assert(arith::is_repeatable(ar));
        if kernel_dispatch::ffn_fits(t, f.gate, f.value, f.down) {
            same_packed_ffn(
                ar,
                bank,
                t,
                f.gate,
                f.value,
                f.down,
                kernel_dispatch::result_model(a),
                kernel_dispatch::result_model(c),
            );
        }
        same_carried(p, a, c, r, q);
    }
}

proof fn same_attention_on<P: Pass>(
    p: &P,
    a: MultiHeadSelfAttention<P::N>,
    rope: RopeCache<P::N>,
    x: DenseTensor<P::N>,
    mask: Option<DenseTensor<P::N>>,
    r: Result<P::T, P::E>,
    q: Result<P::T, P::E>,
)
    requires
        is_repeatable_pass(p),
        forward::is_packed_attention_on(p, a, rope, x, mask, r),
        forward::is_packed_attention_on(p, a, rope, x, mask, q),
    ensures
        r == q,
{
    let m = forward::flat(mask);
    let (ar, bank, u) = choose|
        ar: &P::A,
        bank: &P::B,
        w: Result<DenseTensor<P::N>, DispatchError>,
    |
        {
            &&& forward::names_kernels(p, ar, bank)
            &&& #[trigger] kernel_dispatch::is_mha_answer(
                ar,
                bank,
                x,
                a.q_proj,
                a.k_proj,
                a.v_proj,
                a.o_proj,
                a.n_heads,
                a.n_kv_heads,
                a.head_dim,
                rope,
                m,
                kernel_dispatch::result_model(w),
            )
            &&& forward::is_carried(p, w, r)
        };
    let (ar2, bank2, v) = choose|
        ar: &P::A,
        bank: &P::B,
        w: Result<DenseTensor<P::N>, DispatchError>,
    |
        {
            &&& forward::names_kernels(p, ar, bank)
            &&& #[trigger] kernel_dispatch::is_mha_answer(
                ar,
                bank,
                x,
                a.q_proj,
                a.k_proj,
                a.v_proj,
                a.o_proj,
                a.n_heads,
                a.n_kv_heads,
                a.head_dim,
                rope,
                m,
                kernel_dispatch::result_model(w),
            )
            &&& forward::is_carried(p, w, q)
        };
    assert(ar == ar2 && bank == bank2);
    assert(is_idle::<P::N, P::B>(bank));
    assert(arith::is_repeatable(ar));
    if kernel_dispatch::mha_served(
        x,
        a.q_proj,
        a.k_proj,
        a.v_proj,
        a.o_proj,
        a.n_heads,
        a.n_kv_heads,
        a.head_dim,
        rope,
        m,
    ) {
        same_packed_mha(
            ar,
            bank,
            x,
            a.q_proj,
            a.k_proj,
            a.v_proj,
            a.o_proj,
            a.n_heads,
            a.n_kv_heads,
            a.head_dim,
            rope,
            m,
            m,
            kernel_dispatch::result_model(u),
            kernel_dispatch::result_model(v),
        );
    }
    same_carried(p, u, v, r, q);
}

proof fn same_attention_masked<P: Pass>(
    p: &P,
    a: MultiHeadSelfAttention<P::N>,
    rope: RopeCache<P::N>,
    x: DenseTensor<P::N>,
    mask: Option<&P::T>,
    r: Result<P::T, P::E>,
    q: Result<P::T, P::E>,
)
    requires
        is_repeatable_pass(p),
        forward::is_packed_attention_masked(p, a, rope, x, mask, r),
        forward::is_packed_attention_masked(p, a, rope, x, mask, q),
    ensures
        r == q,
{
    let u = choose|m: Result<Option<DenseTensor<P::N>>, P::E>| #[trigger]
        forward::is_plain_mask(p, mask, m) && match m {
            Ok(m) => forward::is_packed_attention_on(p, a, rope, x, m, r),
            Err(e) => r == Err::<P::T, P::E>(e),
        };
    let v = choose|m: Result<Option<DenseTensor<P::N>>, P::E>| #[trigger]
        forward::is_plain_mask(p, mask, m) && match m {
            Ok(m) => forward::is_packed_attention_on(p, a, rope, x, m, q),
            Err(e) => q == Err::<P::T, P::E>(e),
        };
    assert(u == v);
    if let Ok(m) = u {
        same_attention_on(p, a, rope, x, m, r, q);
    }
}

proof fn same_attention_out<P: Pass>(
    p: &P,
    a: MultiHeadSelfAttention<P::N>,
    rope: RopeCache<P::N>,
    xs: &P::T,
    mask: Option<&P::T>,
    r: Result<P::T, P::E>,
    q: Result<P::T, P::E>,
)
    requires
        is_repeatable_pass(p),
        a.all_packed(),
        forward::is_attention_out(p, a, rope, xs, mask, r),
        forward::is_attention_out(p, a, rope, xs, mask, q),
    ensures
        r == q,
{
    let x = choose|x: Result<DenseTensor<P::N>, P::E>| #[trigger]
        call_ensures(P::plain, (p, xs), x) && match x {
            Ok(x) => forward::is_packed_attention_masked(p, a, rope, x, mask, r),
            Err(e) => r == Err::<P::T, P::E>(e),
        };
    let y = choose|x: Result<DenseTensor<P::N>, P::E>| #[trigger]
        call_ensures(P::plain, (p, xs), x) && match x {
            Ok(x) => forward::is_packed_attention_masked(p, a, rope, x, mask, q),
            Err(e) => q == Err::<P::T, P::E>(e),
        };
    assert(x == y);
    if let Ok(t) = x {
        same_attention_masked(p, a, rope, t, mask, r, q);
    }
}

#[verifier::rlimit(60)]
proof fn same_block_run<P: Pass>(
    p: &P,
    b: TransformerBlock<P::N>,
    rope: RopeCache<P::N>,
    xs: &P::T,
    mask: Option<&P::T>,
    r: Result<P::T, P::E>,
    q: Result<P::T, P::E>,
)
    requires
        is_repeatable_pass(p),
        b.attn.all_packed(),
        b.ffn.all_packed(),
        forward::is_block_run(p, b, rope, xs, mask, r),
        forward::is_block_run(p, b, rope, xs, mask, q),
    ensures
        r == q,
{
    let (a, j) = choose|run: BlockRun<P::T>, k: int|
        {
            &&& #[trigger] forward::are_block_ops(p, b, rope, xs, mask, run, k)
            &&& match r {
                Ok(t) => k == 6 && t == run.out,
                Err(e) => 0 <= k < 6 && forward::is_block_op(
                    p,
                    b,
                    rope,
                    xs,
                    mask,
                    run,
                    k,
                    Some(e),
                ),
            }
        };
    let (c, k) = choose|run: BlockRun<P::T>, k: int|
        {
            &&& #[trigger] forward::are_block_ops(p, b, rope, xs, mask, run, k)
            &&& match q {
                Ok(t) => k == 6 && t == run.out,
                Err(e) => 0 <= k < 6 && forward::is_block_op(
                    p,
                    b,
                    rope,
                    xs,
                    mask,
                    run,
                    k,
                    Some(e),
                ),
            }
        };
    let x0 = reached(0, j, a.attn_in, r);
    let y0 = reached(0, k, c.attn_in, q);
    assert(forward::is_block_op(p, b, rope, xs, mask, a, 0, failed(0, j, r)));
    assert(forward::is_block_op(p, b, rope, xs, mask, c, 0, failed(0, k, q)));
    same_norm_out(p, b.ln_attn, true, Site::Attention, xs, x0, y0);
    assert(x0 == y0);
    if 0 < j {
        let x1 = reached(1, j, a.attn_out, r);
        let y1 = reached(1, k, c.attn_out, q);
        assert(forward::is_block_op(p, b, rope, xs, mask, a, 1, failed(1, j, r)));
        assert(forward::is_block_op(p, b, rope, xs, mask, c, 1, failed(1, k, q)));
        same_attention_out(p, b.attn, rope, &a.attn_in, mask, x1, y1);
        assert(x1 == y1);
        if 1 < j {
            let x2 = reached(2, j, a.x, r);
            let y2 = reached(2, k, c.x, q);
            assert(forward::is_block_op(p, b, rope, xs, mask, a, 2, failed(2, j, r)));
            assert(forward::is_block_op(p, b, rope, xs, mask, c, 2, failed(2, k, q)));
            assert(call_ensures(P::plus, (p, xs, &a.attn_out), x2));
            assert(call_ensures(P::plus, (p, xs, &a.attn_out), y2));
            assert(x2 == y2);
            if 2 < j {
                let x3 = reached(3, j, a.ffn_in, r);
                let y3 = reached(3, k, c.ffn_in, q);
                assert(forward::is_block_op(p, b, rope, xs, mask, a, 3, failed(3, j, r)));
                assert(forward::is_block_op(p, b, rope, xs, mask, c, 3, failed(3, k, q)));
                same_norm_out(p, b.ln_ffn, true, Site::FeedForward, &a.x, x3, y3);
                assert(x3 == y3);
                if 3 < j {
                    let x4 = reached(4, j, a.ffn_out, r);
                    let y4 = reached(4, k, c.ffn_out, q);
                    assert(forward::is_block_op(p, b, rope, xs, mask, a, 4, failed(4, j, r)));
                    assert(forward::is_block_op(p, b, rope, xs, mask, c, 4, failed(4, k, q)));
                    same_ffn_out(p, b.ffn, Site::FeedForward, &a.ffn_in, x4, y4);
                    assert(x4 == y4);
                    if 4 < j {
                        let x5 = reached(5, j, a.out, r);
                        let y5 = reached(5, k, c.out, q);
                        assert(forward::is_block_op(p, b, rope, xs, mask, a, 5, failed(5, j, r)));
                        assert(forward::is_block_op(p, b, rope, xs, mask, c, 5, failed(5, k, q)));
                        assert(call_ensures(P::plus, (p, &a.x, &a.ffn_out), x5));
                        assert(call_ensures(P::plus, (p, &a.x, &a.ffn_out), y5));
                        assert(x5 == y5);
                    }
                }
            }
        }
    }
}

/// The operations of every block give the same result for the same tensors.
pub open spec fn are_repeatable_layers<N: Copy, L: Layers<N>>(l: &L) -> bool {
    &&& forall|i: usize, p: &L::P, q: &L::P| #[trigger]
        call_ensures(L::block, (l, i), p) && #[trigger] call_ensures(L::block, (l, i), q) ==> p == q
    &&& forall|i: usize, p: &L::P| #[trigger]
        call_ensures(L::block, (l, i), p) ==> is_repeatable_pass(p)
    &&& forall|xs: &<L::P as Pass>::T, a: <L::P as Pass>::T, b: <L::P as Pass>::T| #[trigger]
        call_ensures(L::copy, (l, xs), a) && #[trigger] call_ensures(L::copy, (l, xs), b) ==> a == b
}

proof fn same_step<N: Copy, L: Layers<N>>(
    l: &L,
    blocks: Seq<Block<N>>,
    rope: RopeCache<N>,
    i: int,
    mask: Option<&<L::P as Pass>::T>,
    h: <L::P as Pass>::T,
    r: Result<<L::P as Pass>::T, ForwardError<<L::P as Pass>::E>>,
    q: Result<<L::P as Pass>::T, ForwardError<<L::P as Pass>::E>>,
)
    requires
        are_repeatable_layers::<N, L>(l),
        crate::network::is_packed_transformer(blocks[i]),
        forward::is_step::<N, L>(l, blocks, rope, i, mask, h, r),
        forward::is_step::<N, L>(l, blocks, rope, i, mask, h, q),
    ensures
        r == q,
{
    let p = choose|p: &L::P| #[trigger]
        call_ensures(L::block, (l, i as usize), p) && forward::is_block_out(
            p,
            blocks[i],
            rope,
            &h,
            mask,
            r,
        );
    let p2 = choose|p: &L::P| #[trigger]
        call_ensures(L::block, (l, i as usize), p) && forward::is_block_out(
            p,
            blocks[i],
            rope,
            &h,
            mask,
            q,
        );
    assert(p == p2);
    if let Block::Transformer(t) = blocks[i] {
        let x = choose|x: Result<<L::P as Pass>::T, <L::P as Pass>::E>| #[trigger]
            forward::is_block_run(p, t, rope, &h, mask, x) && r == forward::lifted(x);
        let y = choose|y: Result<<L::P as Pass>::T, <L::P as Pass>::E>| #[trigger]
            forward::is_block_run(p, t, rope, &h, mask, y) && q == forward::lifted(y);
        same_block_run(p, t, rope, &h, mask, x, y);
    }
}

proof fn same_states<N: Copy, L: Layers<N>>(
    l: &L,
    blocks: Seq<Block<N>>,
    rope: RopeCache<N>,
    mask: Option<&<L::P as Pass>::T>,
    a: Seq<<L::P as Pass>::T>,
    b: Seq<<L::P as Pass>::T>,
    i: int,
)
    requires
        are_repeatable_layers::<N, L>(l),
        forall|k: int|
            0 <= k < blocks.len() ==> crate::network::is_packed_transformer(#[trigger] blocks[k]),
        forward::are_steps::<N, L>(l, blocks, rope, mask, a),
        forward::are_steps::<N, L>(l, blocks, rope, mask, b),
        0 <= i < a.len(),
        i < b.len(),
        a.len() <= blocks.len() + 1,
        b.len() <= blocks.len() + 1,
        a[0] == b[0],
    ensures
        a[i] == b[i],
    decreases i,
{
    if i > 0 {
        let k = i - 1;
        same_states::<N, L>(l, blocks, rope, mask, a, b, k);
        assert(crate::network::is_packed_transformer(blocks[k]));
        let ok = |h: <L::P as Pass>::T|
            Ok::<<L::P as Pass>::T, ForwardError<<L::P as Pass>::E>>(h);
        assert(forward::is_step::<N, L>(l, blocks, rope, k, mask, a[k], ok(a[k + 1])));
        assert(forward::is_step::<N, L>(l, blocks, rope, k, mask, b[k], ok(b[k + 1])));
        same_step::<N, L>(l, blocks, rope, k, mask, a[k], ok(a[i]), ok(b[i]));
        assert(ok(a[i]) == ok(b[i]));
    }
}

proof fn same_blocks_out<N: Copy, L: Layers<N>>(
    l: &L,
    blocks: Seq<Block<N>>,
    rope: RopeCache<N>,
    xs: &<L::P as Pass>::T,
    mask: Option<&<L::P as Pass>::T>,
    r: Result<<L::P as Pass>::T, ForwardError<<L::P as Pass>::E>>,
    q: Result<<L::P as Pass>::T, ForwardError<<L::P as Pass>::E>>,
)
    requires
        are_repeatable_layers::<N, L>(l),
        forall|k: int|
            0 <= k < blocks.len() ==> crate::network::is_packed_transformer(#[trigger] blocks[k]),
        forward::is_blocks_out::<N, L>(l, blocks, rope, xs, mask, r),
        forward::is_blocks_out::<N, L>(l, blocks, rope, xs, mask, q),
    ensures
        r == q,
{
    let a = states_of::<N, L>(l, blocks, rope, xs, mask, r);
    let b = states_of::<N, L>(l, blocks, rope, xs, mask, q);
    assert(a[0] == b[0]);
    if a.len() == b.len() {
        same_states::<N, L>(l, blocks, rope, mask, a, b, a.len() - 1);
        if r is Err {
            let k = a.len() - 1;
            assert(crate::network::is_packed_transformer(blocks[k]));
            same_step::<N, L>(l, blocks, rope, k, mask, a.last(), r, q);
        }
    } else if a.len() < b.len() {
        both_go_on::<N, L>(l, blocks, rope, mask, a, b, r);
    } else {
        both_go_on::<N, L>(l, blocks, rope, mask, b, a, q);
    }
}

proof fn both_go_on<N: Copy, L: Layers<N>>(
    l: &L,
    blocks: Seq<Block<N>>,
    rope: RopeCache<N>,
    mask: Option<&<L::P as Pass>::T>,
    a: Seq<<L::P as Pass>::T>,
    b: Seq<<L::P as Pass>::T>,
    r: Result<<L::P as Pass>::T, ForwardError<<L::P as Pass>::E>>,
)
    requires
        are_repeatable_layers::<N, L>(l),
        forall|k: int|
            0 <= k < blocks.len() ==> crate::network::is_packed_transformer(#[trigger] blocks[k]),
        forward::are_steps::<N, L>(l, blocks, rope, mask, a),
        forward::are_steps::<N, L>(l, blocks, rope, mask, b),
        0 < a.len() < b.len(),
        b.len() <= blocks.len() + 1,
        a[0] == b[0],
        forward::is_step::<N, L>(l, blocks, rope, a.len() - 1, mask, a.last(), r),
    ensures
        r is Ok,
{
    let k = a.len() - 1;
    same_states::<N, L>(l, blocks, rope, mask, a, b, k);
    assert(crate::network::is_packed_transformer(blocks[k]));
    let next = Ok::<<L::P as Pass>::T, ForwardError<<L::P as Pass>::E>>(b[k + 1]);
    assert(forward::is_step::<N, L>(l, blocks, rope, k, mask, b[k], next));
    same_step::<N, L>(l, blocks, rope, k, mask, b[k], r, next);
}

proof fn states_of<N: Copy, L: Layers<N>>(
    l: &L,
    blocks: Seq<Block<N>>,
    rope: RopeCache<N>,
    xs: &<L::P as Pass>::T,
    mask: Option<&<L::P as Pass>::T>,
    r: Result<<L::P as Pass>::T, ForwardError<<L::P as Pass>::E>>,
) -> (hs: Seq<<L::P as Pass>::T>)
    requires
        forward::is_blocks_out::<N, L>(l, blocks, rope, xs, mask, r),
    ensures
        forward::are_steps::<N, L>(l, blocks, rope, mask, hs),
        hs.len() > 0,
        call_ensures(L::copy, (l, xs), hs[0]),
        match r {
            Ok(h) => hs.len() == blocks.len() + 1 && h == hs.last(),
            Err(e) => hs.len() <= blocks.len() && forward::is_step::<N, L>(
                l,
                blocks,
                rope,
                hs.len() - 1,
                mask,
                hs.last(),
                r,
            ),
        },
{
    choose|hs: Seq<<L::P as Pass>::T>|
        {
            &&& #[trigger] forward::are_steps::<N, L>(l, blocks, rope, mask, hs)
            &&& hs.len() > 0
            &&& call_ensures(L::copy, (l, xs), hs[0])
            &&& match r {
                Ok(h) => hs.len() == blocks.len() + 1 && h == hs.last(),
                Err(e) => hs.len() <= blocks.len() && forward::is_step::<N, L>(
                    l,
                    blocks,
                    rope,
                    hs.len() - 1,
                    mask,
                    hs.last(),
                    Err::<<L::P as Pass>::T, ForwardError<<L::P as Pass>::E>>(e),
                ),
            }
        }
}

proof fn stack_unavailable<P: Pass>(
    p: &P,
    bufs: &Vec<PackedLayerBufs<P::N>>,
    rope: RopeCache<P::N>,
    xs: &P::T,
    mask: Option<&P::T>,
    s: Result<P::T, P::E>,
)
    requires
        leaves_device(p),
        forward::is_stack_out(p, bufs, rope, xs, mask, s),
    ensures
        s is Err,
{
    let x = choose|x: Result<DenseTensor<P::N>, P::E>| #[trigger]
        call_ensures(P::plain, (p, xs), x) && match x {
            Ok(x) => forward::is_stack_masked(p, bufs, rope, x, mask, s),
            Err(e) => s == Err::<P::T, P::E>(e),
        };
    if let Ok(t) = x {
        let m = choose|m: Result<Option<DenseTensor<P::N>>, P::E>| #[trigger]
            forward::is_plain_mask(p, mask, m) && match m {
                Ok(m) => forward::is_stack_on(p, bufs, rope, t, m, s),
                Err(e) => s == Err::<P::T, P::E>(e),
            };
        if let Ok(m) = m {
            let (bank, q) = choose|bank: &P::B, q: Result<DenseTensor<P::N>, DispatchError>|
                {
                    &&& call_ensures(P::bank, (p,), bank)
                    &&& #[trigger] kernel_dispatch::is_stack_answer(
                        bank,
                        t,
                        bufs,
                        rope,
                        forward::flat(m),
                        kernel_dispatch::result_model(q),
                    )
                    &&& forward::is_carried(p, q, s)
                };
            assert(is_idle::<P::N, P::B>(bank));
            assert(q is Err);
        }
    }
}

pub(crate) proof fn blocks_take_over<N: Copy, F: Copy, L: Layers<N>>(
    l: &L,
    net: SharedNetwork<N, F>,
    zero: N,
    xs: &<L::P as Pass>::T,
    mask: Option<&<L::P as Pass>::T>,
    r: Result<<L::P as Pass>::T, ForwardError<<L::P as Pass>::E>>,
)
    requires
        forall|i: usize, p: &L::P| #[trigger]
            call_ensures(L::block, (l, i), p) ==> leaves_device(p),
        net.stack_packed(),
        forward::is_network_out::<N, F, L>(l, net, zero, xs, mask, r),
    ensures
        forward::is_blocks_out::<N, L>(l, net.blocks@, net.rope->Some_0, xs, mask, r),
{
    let rope = net.rope->Some_0;
    let s = choose|s: Result<<L::P as Pass>::T, <L::P as Pass>::E>| #[trigger]
        forward::is_network_stack::<N, L>(l, net.blocks@, rope, zero, xs, mask, s) && match s {
            Ok(h) => r == Ok::<<L::P as Pass>::T, ForwardError<<L::P as Pass>::E>>(h),
            Err(_) => forward::is_blocks_out::<N, L>(l, net.blocks@, rope, xs, mask, r),
        };
    let (p, bufs) = choose|p: &L::P, bufs: Vec<PackedLayerBufs<N>>|
        {
            &&& call_ensures(L::block, (l, 0usize), p)
            &&& forward::are_layers(net.blocks@, zero, bufs@)
            &&& #[trigger] forward::is_stack_out(p, &bufs, rope, xs, mask, s)
        };
    stack_unavailable(p, &bufs, rope, xs, mask, s);
}

/// A packed network without a device gives the same output for the same input, twice, where the
/// arithmetic and the tensor operations do.
pub proof fn packed_network_repeats<N: Copy, F: Copy, L: Layers<N>>(
    l: &L,
    net: SharedNetwork<N, F>,
    zero: N,
    xs: &<L::P as Pass>::T,
    mask: Option<&<L::P as Pass>::T>,
    r: Result<<L::P as Pass>::T, ForwardError<<L::P as Pass>::E>>,
    q: Result<<L::P as Pass>::T, ForwardError<<L::P as Pass>::E>>,
)
    requires
        are_repeatable_layers::<N, L>(l),
        net.stack_packed(),
        forward::is_network_out::<N, F, L>(l, net, zero, xs, mask, r),
        forward::is_network_out::<N, F, L>(l, net, zero, xs, mask, q),
    ensures
        r == q,
{
    assert forall|i: usize, p: &L::P| #[trigger]
        call_ensures(L::block, (l, i), p) implies leaves_device(p) by {
        assert(is_repeatable_pass(p));
    }
    blocks_take_over::<N, F, L>(l, net, zero, xs, mask, r);
    blocks_take_over::<N, F, L>(l, net, zero, xs, mask, q);
    same_blocks_out::<N, L>(l, net.blocks@, net.rope->Some_0, xs, mask, r, q);
}

/// The operations of a pass succeed and shape their results as they should: a tensor is read
/// whole, whole elements make a tensor, a norm keeps the shape, and so does the sum of two tensors
/// of one shape. No device takes part.
pub open spec fn is_working_pass<P: Pass>(p: &P, shape: spec_fn(P::T) -> Seq<usize>) -> bool {
    &&& leaves_device(p)
    &&& forall|xs: &P::T, x: Result<DenseTensor<P::N>, P::E>| #[trigger]
        call_ensures(P::plain, (p, xs), x) ==> (x matches Ok(t) && t@.wf() && t.dims@ == shape(*xs))
    &&& forall|t: DenseTensor<P::N>, y: Result<P::T, P::E>| #[trigger]
        call_ensures(P::tensor, (p, t), y) && t@.wf() ==> (y matches Ok(y) && shape(y) == t.dims@)
    &&& forall|site: Site, xs: &P::T, y: Result<P::T, P::E>| #[trigger]
        call_ensures(P::layer_norm, (p, site, xs), y) ==> (y matches Ok(y) && shape(y) == shape(
            *xs,
        ))
    &&& forall|a: &P::T, b: &P::T, y: Result<P::T, P::E>| #[trigger]
        call_ensures(P::plus, (p, a, b), y) && shape(*a) == shape(*b) ==> (y matches Ok(y)
            && shape(y) == shape(*a))
}

/// A packed block takes every tensor of these dimensions without a mask, and its outputs are as
/// wide as its inputs.
pub open spec fn block_takes<N>(
    b: TransformerBlock<N>,
    rope: RopeCache<N>,
    dims: Seq<usize>,
) -> bool {
    &&& dims.len() == 3
    &&& dims[2] > 0
    &&& b.attn.all_packed() && b.ffn.all_packed()
    &&& b.attn.o_proj.pack()->Some_0.out_dim == dims[2]
    &&& b.ffn.down.pack()->Some_0.out_dim == dims[2]
    &&& forall|x: DenseTensor<N>| #[trigger]
        x@.wf() && x.dims@ == dims ==> {
            &&& attention_takes(b.attn, rope, x)
            &&& kernel_dispatch::ffn_fits(x, b.ffn.gate, b.ffn.value, b.ffn.down)
        }
    &&& kernel_dispatch::ffn_refusal(
        dims,
        b.ffn.gate.pack(),
        b.ffn.value.pack(),
        b.ffn.down.pack(),
    ) is None
}

/// Packed attention takes the tensor without a mask.
pub open spec fn attention_takes<N>(
    a: MultiHeadSelfAttention<N>,
    rope: RopeCache<N>,
    x: DenseTensor<N>,
) -> bool {
    &&& kernel_dispatch::mha_served(
        x,
        a.q_proj,
        a.k_proj,
        a.v_proj,
        a.o_proj,
        a.n_heads,
        a.n_kv_heads,
        a.head_dim,
        rope,
        None,
    )
    &&& kernel_dispatch::mha_refusal(
        x.dims@,
        a.q_proj.pack(),
        a.k_proj.pack(),
        a.v_proj.pack(),
        a.o_proj.pack(),
        a.head_dim,
        rope,
        None,
    ) is None
}

proof fn norm_succeeds<P: Pass>(
    p: &P,
    shape: spec_fn(P::T) -> Seq<usize>,
    ln: Norm<P::N>,
    packed: bool,
    site: Site,
    xs: &P::T,
    r: Result<P::T, P::E>,
)
    requires
        is_working_pass(p, shape),
        forward::is_norm_out(p, ln, packed, site, xs, r),
    ensures
        r matches Ok(y) && shape(y) == shape(*xs),
{
    norm_by_host(p, ln, packed, site, xs, r);
}

proof fn attention_succeeds<P: Pass>(
    p: &P,
    shape: spec_fn(P::T) -> Seq<usize>,
    a: MultiHeadSelfAttention<P::N>,
    rope: RopeCache<P::N>,
    xs: &P::T,
    mask: Option<&P::T>,
    r: Result<P::T, P::E>,
)
    requires
        is_working_pass(p, shape),
        mask is None,
        a.all_packed(),
        shape(*xs).len() == 3,
        a.o_proj.pack()->Some_0.out_dim == shape(*xs)[2],
        forall|x: DenseTensor<P::N>| #[trigger]
            x@.wf() && x.dims@ == shape(*xs) ==> attention_takes(a, rope, x),
        forward::is_attention_out(p, a, rope, xs, mask, r),
    ensures
        r matches Ok(y) && shape(y) == shape(*xs),
{
    let x = choose|x: Result<DenseTensor<P::N>, P::E>| #[trigger]
        call_ensures(P::plain, (p, xs), x) && match x {
            Ok(x) => forward::is_packed_attention_masked(p, a, rope, x, mask, r),
            Err(e) => r == Err::<P::T, P::E>(e),
        };
    let t = x->Ok_0;
    assert(t@.wf() && t.dims@ == shape(*xs));
    let m = choose|m: Result<Option<DenseTensor<P::N>>, P::E>| #[trigger]
        forward::is_plain_mask(p, mask, m) && match m {
            Ok(m) => forward::is_packed_attention_on(p, a, rope, t, m, r),
            Err(e) => r == Err::<P::T, P::E>(e),
        };
    assert(m == Ok::<Option<DenseTensor<P::N>>, P::E>(None));
    let none: Option<DenseTensor<P::N>> = None;
    let flat = forward::flat(none);
    let (ar, bank, w) = choose|
        ar: &P::A,
        bank: &P::B,
        w: Result<DenseTensor<P::N>, DispatchError>,
    |
        {
            &&& forward::names_kernels(p, ar, bank)
            &&& #[trigger] kernel_dispatch::is_mha_answer(
                ar,
                bank,
                t,
                a.q_proj,
                a.k_proj,
                a.v_proj,
                a.o_proj,
                a.n_heads,
                a.n_kv_heads,
                a.head_dim,
                rope,
                flat,
                kernel_dispatch::result_model(w),
            )
            &&& forward::is_carried(p, w, r)
        };
    assert(is_idle::<P::N, P::B>(bank));
    assert(attention_takes(a, rope, t));
    attention_answers(
        ar,
        bank,
        t,
        a.q_proj,
        a.k_proj,
        a.v_proj,
        a.o_proj,
        a.n_heads,
        a.n_kv_heads,
        a.head_dim,
        rope,
        flat,
        kernel_dispatch::result_model(w),
    );
    let dims = shape(*xs);
    assert(seq![t.dims@[0], t.dims@[1], a.o_proj.pack()->Some_0.out_dim] =~= dims);
    assert(w is Ok && w->Ok_0@.wf());
}

/// What a packed feed-forward layer comes to without a device, on operands that are not refused:
/// a tensor of the same leading dimensions and the output width.
pub proof fn ffn_answers<A: Arith, B: Bank<A::Num>>(
    ar: &A,
    bank: &B,
    xs: DenseTensor<A::Num>,
    gate: MaybeTernaryLinear<A::Num>,
    value: MaybeTernaryLinear<A::Num>,
    down: MaybeTernaryLinear<A::Num>,
    r: Result<DenseModel<A::Num>, DispatchError>,
)
    requires
        is_idle(bank),
        xs@.wf(),
        xs.dims@.len() > 0,
        kernel_dispatch::last_dim(xs.dims@) > 0,
        kernel_dispatch::ffn_refusal(
            xs.dims@,
            gate.pack(),
            value.pack(),
            down.pack(),
        ) is None,
        kernel_dispatch::is_packed_ffn(ar, bank, xs, gate, value, down, r),
    ensures
        r matches Ok(t) && t.wf() && t.dims == kernel_dispatch::with_last(
            xs.dims@,
            down.pack()->Some_0.out_dim,
        ),
{
    let width = kernel_dispatch::last_dim(xs.dims@);
    let count = kernel_dispatch::token_count(xs.data@.len(), width);
    let tokens = count as usize;
    let dp = down.pack()->Some_0;
    let db = kernel_dispatch::owned(down.lin().bias);
    let dims = kernel_dispatch::with_last(xs.dims@, dp.out_dim);
    let (hidden, out) = choose|hidden: Seq<A::Num>, out: Seq<A::Num>| #[trigger]
        kernel_ref::is_linear(ar, hidden, dp@, db, tokens as int, out) && r
            == kernel_dispatch::shaped(dims, out);
    linear_len(ar, hidden, dp@, db, tokens as int, out);
    assert(xs.data.len() == xs.data@.len());
    assert(0 <= count <= xs.data@.len()) by (nonlinear_arith)
        requires
            width > 0,
            count == xs.data@.len() as int / (if width > 1 {
                width as int
            } else {
                1
            }),
    ;
    kernel_dispatch::linear_keeps_leading_dims(xs.dims@, dp.out_dim, out);
}

proof fn ffn_succeeds<P: Pass>(
    p: &P,
    shape: spec_fn(P::T) -> Seq<usize>,
    f: SwiGluFfn<P::N>,
    site: Site,
    xs: &P::T,
    r: Result<P::T, P::E>,
)
    requires
        is_working_pass(p, shape),
        f.all_packed(),
        shape(*xs).len() == 3,
        shape(*xs)[2] > 0,
        f.down.pack()->Some_0.out_dim == shape(*xs)[2],
        forall|x: DenseTensor<P::N>| #[trigger]
            x@.wf() && x.dims@ == shape(*xs) ==> kernel_dispatch::ffn_fits(
                x,
                f.gate,
                f.value,
                f.down,
            ),
        kernel_dispatch::ffn_refusal(
            shape(*xs),
            f.gate.pack(),
            f.value.pack(),
            f.down.pack(),
        ) is None,
        forward::is_ffn_out(p, f, site, xs, r),
    ensures
        r matches Ok(y) && shape(y) == shape(*xs),
{
    let x = choose|x: Result<DenseTensor<P::N>, P::E>| #[trigger]
        call_ensures(P::plain, (p, xs), x) && match x {
            Ok(x) => forward::is_packed_ffn_on(p, f, x, r),
            Err(e) => r == Err::<P::T, P::E>(e),
        };
    let t = x->Ok_0;
    assert(t@.wf() && t.dims@ == shape(*xs));
    let (ar, bank, w) = choose|
        ar: &P::A,
        bank: &P::B,
        w: Result<DenseTensor<P::N>, DispatchError>,
    |
        {
            &&& forward::names_kernels(p, ar, bank)
            &&& #[trigger] kernel_dispatch::is_ffn_answer(
                ar,
                bank,
                t,
                f.gate,
                f.value,
                f.down,
                kernel_dispatch::result_model(w),
            )
            &&& forward::is_carried(p, w, r)
        };
    assert(is_idle::<P::N, P::B>(bank));
    ffn_answers(
        ar,
        bank,
        t,
        f.gate,
        f.value,
        f.down,
        kernel_dispatch::result_model(w),
    );
    let dims = shape(*xs);
    assert(kernel_dispatch::with_last(dims, dims[2]) =~= dims);
    assert(w is Ok && w->Ok_0@.wf());
}

#[verifier::rlimit(60)]
proof fn block_succeeds<P: Pass>(
    p: &P,
    shape: spec_fn(P::T) -> Seq<usize>,
    b: TransformerBlock<P::N>,
    rope: RopeCache<P::N>,
    xs: &P::T,
    r: Result<P::T, P::E>,
)
    requires
        is_working_pass(p, shape),
        block_takes(b, rope, shape(*xs)),
        forward::is_block_run(p, b, rope, xs, None, r),
    ensures
        r matches Ok(y) && shape(y) == shape(*xs),
{
    let (a, j) = choose|run: BlockRun<P::T>, k: int|
        {
            &&& #[trigger] forward::are_block_ops(p, b, rope, xs, None, run, k)
            &&& match r {
                Ok(t) => k == 6 && t == run.out,
                Err(e) => 0 <= k < 6 && forward::is_block_op(
                    p,
                    b,
                    rope,
                    xs,
                    None,
                    run,
                    k,
                    Some(e),
                ),
            }
        };
    let x0 = reached(0, j, a.attn_in, r);
    assert(forward::is_block_op(p, b, rope, xs, None, a, 0, failed(0, j, r)));
    norm_succeeds(p, shape, b.ln_attn, true, Site::Attention, xs, x0);
    assert(x0 is Ok);
    if 0 < j {
        let x1 = reached(1, j, a.attn_out, r);
        assert(forward::is_block_op(p, b, rope, xs, None, a, 1, failed(1, j, r)));
        attention_succeeds(p, shape, b.attn, rope, &a.attn_in, None, x1);
        assert(x1 is Ok);
        if 1 < j {
            let x2 = reached(2, j, a.x, r);
            assert(forward::is_block_op(p, b, rope, xs, None, a, 2, failed(2, j, r)));
            assert(call_ensures(P::plus, (p, xs, &a.attn_out), x2));
            assert(x2 is Ok);
            if 2 < j {
                let x3 = reached(3, j, a.ffn_in, r);
                assert(forward::is_block_op(p, b, rope, xs, None, a, 3, failed(3, j, r)));
                norm_succeeds(p, shape, b.ln_ffn, true, Site::FeedForward, &a.x, x3);
                assert(x3 is Ok);
                if 3 < j {
                    let x4 = reached(4, j, a.ffn_out, r);
                    assert(forward::is_block_op(p, b, rope, xs, None, a, 4, failed(4, j, r)));
                    ffn_succeeds(p, shape, b.ffn, Site::FeedForward, &a.ffn_in, x4);
                    assert(x4 is Ok);
                    if 4 < j {
                        let x5 = reached(5, j, a.out, r);
                        assert(forward::is_block_op(p, b, rope, xs, None, a, 5, failed(5, j, r)));
                        assert(call_ensures(P::plus, (p, &a.x, &a.ffn_out), x5));
                        assert(x5 is Ok);
                    }
                }
            }
        }
    }
}

proof fn blocks_succeed<N: Copy, L: Layers<N>>(
    l: &L,
    shape: spec_fn(<L::P as Pass>::T) -> Seq<usize>,
    blocks: Seq<Block<N>>,
    rope: RopeCache<N>,
    dims: Seq<usize>,
    i: int,
    h: <L::P as Pass>::T,
    r: Result<<L::P as Pass>::T, ForwardError<<L::P as Pass>::E>>,
)
    requires
        are_working_layers::<N, L>(l, shape),
        0 <= i < blocks.len(),
        blocks[i] matches Block::Transformer(t) && block_takes(t, rope, dims),
        shape(h) == dims,
        forward::is_step::<N, L>(l, blocks, rope, i, None, h, r),
    ensures
        r matches Ok(y) && shape(y) == dims,
{
    let p = choose|p: &L::P| #[trigger]
        call_ensures(L::block, (l, i as usize), p) && forward::is_block_out(
            p,
            blocks[i],
            rope,
            &h,
            None,
            r,
        );
    if let Block::Transformer(t) = blocks[i] {
        let x = choose|x: Result<<L::P as Pass>::T, <L::P as Pass>::E>| #[trigger]
            forward::is_block_run(p, t, rope, &h, None, x) && r == forward::lifted(x);
        block_succeeds(p, shape, t, rope, &h, x);
    }
}

/// The operations of every block work, and a copy has the shape of its tensor.
pub open spec fn are_working_layers<N: Copy, L: Layers<N>>(
    l: &L,
    shape: spec_fn(<L::P as Pass>::T) -> Seq<usize>,
) -> bool {
    &&& forall|i: usize, p: &L::P| #[trigger]
        call_ensures(L::block, (l, i), p) ==> is_working_pass(p, shape)
    &&& forall|xs: &<L::P as Pass>::T, y: <L::P as Pass>::T| #[trigger]
        call_ensures(L::copy, (l, xs), y) ==> shape(y) == shape(*xs)
}

proof fn states_keep_shape<N: Copy, L: Layers<N>>(
    l: &L,
    shape: spec_fn(<L::P as Pass>::T) -> Seq<usize>,
    blocks: Seq<Block<N>>,
    rope: RopeCache<N>,
    dims: Seq<usize>,
    hs: Seq<<L::P as Pass>::T>,
    i: int,
)
    requires
        are_working_layers::<N, L>(l, shape),
        forall|k: int|
            0 <= k < blocks.len() ==> (#[trigger] blocks[k] matches Block::Transformer(t)
                && block_takes(t, rope, dims)),
        forward::are_steps::<N, L>(l, blocks, rope, None, hs),
        0 <= i < hs.len() <= blocks.len() + 1,
        shape(hs[0]) == dims,
    ensures
        shape(hs[i]) == dims,
    decreases i,
{
    if i > 0 {
        let k = i - 1;
        states_keep_shape::<N, L>(l, shape, blocks, rope, dims, hs, k);
        let next = Ok::<<L::P as Pass>::T, ForwardError<<L::P as Pass>::E>>(hs[k + 1]);
        assert(forward::is_step::<N, L>(l, blocks, rope, k, None, hs[k], next));
        assert(blocks[k] matches Block::Transformer(t) && block_takes(t, rope, dims));
        blocks_succeed::<N, L>(l, shape, blocks, rope, dims, k, hs[k], next);
    }
}

/// A packed network without a device answers every input that its blocks take, in the shape of
/// the input: that no device takes the whole stack is no failure.
pub proof fn packed_network_answers<N: Copy, F: Copy, L: Layers<N>>(
    l: &L,
    shape: spec_fn(<L::P as Pass>::T) -> Seq<usize>,
    net: SharedNetwork<N, F>,
    zero: N,
    xs: &<L::P as Pass>::T,
    r: Result<<L::P as Pass>::T, ForwardError<<L::P as Pass>::E>>,
)
    requires
        are_working_layers::<N, L>(l, shape),
        net.stack_packed(),
        forall|k: int|
            0 <= k < net.blocks@.len() ==> (#[trigger] net.blocks@[k] matches Block::Transformer(t)
                && block_takes(t, net.rope->Some_0, shape(*xs))),
        forward::is_network_out::<N, F, L>(l, net, zero, xs, None, r),
    ensures
        r matches Ok(y) && shape(y) == shape(*xs),
{
    let blocks = net.blocks@;
    let rope = net.rope->Some_0;
    let dims = shape(*xs);
    assert forall|i: usize, p: &L::P| #[trigger]
        call_ensures(L::block, (l, i), p) implies leaves_device(p) by {
        assert(is_working_pass(p, shape));
    }
    blocks_take_over::<N, F, L>(l, net, zero, xs, None, r);
    let hs = states_of::<N, L>(l, blocks, rope, xs, None, r);
    states_keep_shape::<N, L>(l, shape, blocks, rope, dims, hs, hs.len() - 1);
    if r is Err {
        let k = hs.len() - 1;
        assert(blocks[k] matches Block::Transformer(t) && block_takes(t, rope, dims));
        blocks_succeed::<N, L>(l, shape, blocks, rope, dims, k, hs.last(), r);
    }
}

/// A packed layer of these widths: its rows are all there, and a bias has one entry for each
/// output.
pub open spec fn is_sized<N>(lin: MaybeTernaryLinear<N>, in_dim: int, out_dim: int) -> bool {
    &&& lin.pack() matches Some(p) && p.in_dim == in_dim && p.out_dim == out_dim && p@.complete()
    &&& kernel_dispatch::owned(lin.lin().bias) matches Some(b) ==> b.len() == out_dim
}

/// A packed block of width `d` and feed-forward width `hidden`: its heads make up the width, and
/// key-value heads are shared out evenly.
pub open spec fn is_sized_block<N>(b: TransformerBlock<N>, d: int, hidden: int) -> bool {
    let a = b.attn;
    &&& 0 < a.n_kv_heads <= a.n_heads
    &&& a.n_heads % a.n_kv_heads == 0
    &&& a.head_dim > 0
    &&& a.n_heads * a.head_dim == d
    &&& is_sized(a.q_proj, d, d)
    &&& is_sized(a.k_proj, d, a.n_kv_heads * a.head_dim)
    &&& is_sized(a.v_proj, d, a.n_kv_heads * a.head_dim)
    &&& is_sized(a.o_proj, d, d)
    &&& is_sized(b.ffn.gate, d, hidden)
    &&& is_sized(b.ffn.value, d, hidden)
    &&& is_sized(b.ffn.down, hidden, d)
}

/// The elements that a batch of sequences makes on its way through a block can be counted.
pub open spec fn is_countable(n: int, s: int, d: int, hidden: int) -> bool {
    &&& n * s * d <= usize::MAX
    &&& n * s * hidden <= usize::MAX
    &&& s * s <= usize::MAX
    &&& n * s * s <= usize::MAX
}

pub(crate) proof fn heads_are_there(h: int, kv: int, i: int)
    requires
        0 < kv <= h,
        h % kv == 0,
        h <= usize::MAX,
        0 <= i < h,
    ensures
        kernel_ref::kv_head(h, kv, i) < kv,
{
    if kv < h {
        forward::heads_agree(h, kv, i);
    }
}

proof fn counts_of(n: int, s: int, d: int, h: int, kv: int, hd: int)
    requires
        0 <= n,
        0 <= s,
        0 < kv <= h,
        0 < hd,
        h * hd == d,
        n * s * d <= usize::MAX,
    ensures
        0 < d,
        0 <= n * s <= usize::MAX,
        n * h * s <= usize::MAX,
        n * kv * s <= usize::MAX,
        0 <= kv * hd <= d,
        n * s * (kv * hd) <= usize::MAX,
        n * s * d == n * s * h * hd,
        n * s * (kv * hd) == n * s * kv * hd,
        s * (hd / 2) <= s * d,
{
    let t = n * s;
    assert(t >= 0) by (nonlinear_arith)
        requires
            t == n * s,
            0 <= n,
            0 <= s,
    ;
    assert(0 < d && h <= d && 0 <= kv * hd <= d) by (nonlinear_arith)
        requires
            h * hd == d,
            0 < kv <= h,
            0 < hd,
    ;
    assert(t <= t * d && t * h <= t * d && t * (kv * hd) <= t * d) by (nonlinear_arith)
        requires
            t >= 0,
            0 < d,
            h <= d,
            kv * hd <= d,
    ;
    assert(n * h * s == t * h && n * kv * s == t * kv && t * kv <= t * h) by (nonlinear_arith)
        requires
            t == n * s,
            t >= 0,
            kv <= h,
    ;
    assert(t * d == t * h * hd && t * (kv * hd) == t * kv * hd) by (nonlinear_arith)
        requires
            h * hd == d,
    ;
    assert(hd / 2 <= d) by (nonlinear_arith)
        requires
            h * hd == d,
            0 < h,
            0 < hd,
    ;
    assert(s * (hd / 2) <= s * d) by (nonlinear_arith)
        requires
            0 <= s,
            hd / 2 <= d,
    ;
}

/// A packed block takes every batch of its width that the rotary angles reach and that can be
/// counted.
#[verifier::rlimit(60)]
pub proof fn sized_block_takes<N>(
    b: TransformerBlock<N>,
    rope: RopeCache<N>,
    n: usize,
    s: usize,
    d: usize,
    hidden: int,
)
    requires
        is_sized_block(b, d as int, hidden),
        rope.wf(),
        s <= rope.max_seq,
        rope.half == b.attn.head_dim / 2,
        s * (b.attn.head_dim / 2) <= usize::MAX,
        0 <= hidden,
        is_countable(n as int, s as int, d as int, hidden),
    ensures
        block_takes(b, rope, seq![n, s, d]),
{
    let dims = seq![n, s, d];
    let a = b.attn;
    let h = a.n_heads as int;
    let kv = a.n_kv_heads as int;
    let hd = a.head_dim as int;
    let t = n * s;
    counts_of(n as int, s as int, d as int, h, kv, hd);
    three_dims(n, s, d);
    assert forall|i: int| 0 <= i < h implies #[trigger] kernel_ref::kv_head(h, kv, i) < kv by {
        heads_are_there(h, kv, i);
    }
    assert(t * (kv * hd) == t * kv * hd);
    assert forall|x: DenseTensor<N>| #[trigger] x@.wf() && x.dims@ == dims implies {
        &&& attention_takes(a, rope, x)
        &&& kernel_dispatch::ffn_fits(x, b.ffn.gate, b.ffn.value, b.ffn.down)
    } by {
        assert(x.data@.len() == t * d);
        let count = kernel_dispatch::token_count(x.data@.len(), d);
        assert(count == t) by (nonlinear_arith)
            requires
                count == x.data@.len() as int / (if d > 1 {
                    d as int
                } else {
                    1
                }),
                x.data@.len() == t * d,
                d > 0,
        ;
        assert(kernel_dispatch::mha_fits(
            x.data@.len() as int,
            n as int,
            s as int,
            a.q_proj.pack()->Some_0@,
            kernel_dispatch::owned(a.q_proj.lin().bias),
            a.k_proj.pack()->Some_0@,
            kernel_dispatch::owned(a.k_proj.lin().bias),
            a.v_proj.pack()->Some_0@,
            kernel_dispatch::owned(a.v_proj.lin().bias),
            a.o_proj.pack()->Some_0@,
            kernel_dispatch::owned(a.o_proj.lin().bias),
            h,
            kv,
            hd,
        ));
    }
}

/// A packed network without a device answers every batch of its width that its rotary angles
/// reach, in the shape of the batch.
pub proof fn sized_network_answers<N: Copy, F: Copy, L: Layers<N>>(
    l: &L,
    shape: spec_fn(<L::P as Pass>::T) -> Seq<usize>,
    net: SharedNetwork<N, F>,
    zero: N,
    xs: &<L::P as Pass>::T,
    n: usize,
    s: usize,
    d: usize,
    hidden: int,
    r: Result<<L::P as Pass>::T, ForwardError<<L::P as Pass>::E>>,
)
    requires
        are_working_layers::<N, L>(l, shape),
        net.stack_packed(),
        shape(*xs) == seq![n, s, d],
        net.rope matches Some(rope) && rope.wf() && s <= rope.max_seq,
        0 <= hidden,
        is_countable(n as int, s as int, d as int, hidden),
        forall|k: int|
            0 <= k < net.blocks@.len() ==> (#[trigger] net.blocks@[k] matches Block::Transformer(t)
                && is_sized_block(t, d as int, hidden) && t.attn.head_dim / 2
                == net.rope->Some_0.half),
        forward::is_network_out::<N, F, L>(l, net, zero, xs, None, r),
    ensures
        r matches Ok(y) && shape(y) == shape(*xs),
{
    let rope = net.rope->Some_0;
    assert(rope.cos.len() == rope.cos@.len());
    assert(s * rope.half <= rope.max_seq * rope.half) by (nonlinear_arith)
        requires
            s <= rope.max_seq,
    ;
    assert forall|k: int| 0 <= k < net.blocks@.len() implies (#[trigger] net.blocks@[k] matches
        Block::Transformer(t) && block_takes(t, rope, shape(*xs))) by {
        if let Block::Transformer(t) = net.blocks@[k] {
            sized_block_takes(t, rope, n, s, d, hidden);
        }
    }
    packed_network_answers::<N, F, L>(l, shape, net, zero, xs, r);
}

} // verus!
