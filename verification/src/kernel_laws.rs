//! What the kernels and the packing compute where the arithmetic does not round.

use crate::arith;
use crate::arith::Arith;
use crate::exact;
use crate::grid;
use crate::kernel_ref;
use crate::quantize;
use crate::quantize::PackModel;
use vstd::prelude::*;

verus! {

/// The magnitude of a number.
pub open spec fn size(x: real) -> real {
    if x < 0real {
        0real - x
    } else {
        x
    }
}

/// The two bits that hold weight `i` of row `o` of a packed matrix, the first weight of a byte in
/// its lowest bits.
pub open spec fn bits<N>(pack: PackModel<N>, o: int, i: int) -> int {
    let byte = pack.packed[o * (pack.in_dim as int / 4) + i / 4] as int;
    if i % 4 == 0 {
        byte % 4
    } else if i % 4 == 1 {
        byte / 4 % 4
    } else if i % 4 == 2 {
        byte / 16 % 4
    } else {
        byte / 64 % 4
    }
}

/// A number under two bits: itself under binary 10, its opposite under 00, nothing otherwise.
pub open spec fn under(code: int, x: real) -> real {
    if code == 0 {
        0real - x
    } else if code == 2 {
        x
    } else {
        0real
    }
}

/// A packed row is scaled by the mean magnitude of its weights. A weight above half the scale is
/// written as binary 10, one below minus half the scale as 00, and any other as a code that
/// stands for nothing.
pub proof fn packing_rounds_to_the_mean_magnitude<A: Arith>(
    ar: &A,
    of: spec_fn(A::Num) -> real,
    weights: Seq<A::Num>,
    out_dim: int,
    in_dim: int,
    pack: PackModel<A::Num>,
    o: int,
    i: int,
)
    requires
        exact::is_real(ar, of),
        weights.len() == out_dim * in_dim,
        in_dim % 4 == 0,
        in_dim <= usize::MAX,
        0 <= o < out_dim,
        0 <= i < in_dim,
        quantize::is_quantized(ar, weights, out_dim, in_dim, pack),
    ensures
        ({
            let scale = of(pack.alphas[o]);
            let w = of(weights[o * in_dim + i]);
            let code = bits(pack, o, i);
            &&& scale * (in_dim as real) == exact::sum(
                Seq::new(in_dim as nat, |j: int| size(of(weights[o * in_dim + j]))),
            )
            &&& w + w > scale ==> code == 2
            &&& w + w <= scale && w + w < 0real - scale ==> code == 0
            &&& w + w <= scale && w + w >= 0real - scale ==> code == 1 || code == 3
        }),
{
    let row = weights.subrange(o * in_dim, o * in_dim + in_dim);
    grid::cell_place(out_dim, in_dim, o, i);
    assert((o + 1) * in_dim == o * in_dim + in_dim) by (nonlinear_arith);
    let scale = pack.alphas[o];
    assert(quantize::is_row_scale(ar, row, scale));
    let (mags, zero, total, count) = choose|
        mags: Seq<A::Num>,
        zero: A::Num,
        total: A::Num,
        count: A::Num,
    |
        {
            &&& quantize::are_magnitudes(ar, row, mags)
            &&& arith::is_whole(ar, 0, zero)
            &&& #[trigger] arith::is_total(ar, zero, mags, total)
            &&& arith::is_whole(ar, row.len() as int, count)
            &&& #[trigger] arith::is_quotient(ar, total, count, scale)
        };
    exact::totals_stand(ar, of, zero, mags, total);
    let want = Seq::new(in_dim as nat, |j: int| size(of(weights[o * in_dim + j])));
    assert(Seq::new(mags.len(), |j: int| of(mags[j])) =~= want) by {
        assert forall|j: int| 0 <= j < in_dim implies of(#[trigger] mags[j]) == want[j] by {
            assert(arith::is_magnitude(ar, row[j], mags[j]));
        }
    }
    let (s, t, k) = (of(scale), of(total), in_dim as real);
    assert(of(count) == k);
    assert(s * k == t) by (nonlinear_arith)
        requires
            s == t / k,
            k >= 1real,
    ;
    let w = grid::cell(weights, in_dim, o, i);
    let level = pack.level(o, i);
    assert(quantize::is_nearest(ar, w, scale, level));
    let (two, half) = choose|two: A::Num, half: A::Num|
        {
            &&& arith::is_whole(ar, 2, two)
            &&& #[trigger] arith::is_quotient(ar, scale, two, half)
            &&& ((level == 1 && arith::is_exceeds(ar, w, half, true)) || (arith::is_exceeds(
                ar,
                w,
                half,
                false,
            ) && quantize::is_not_above(ar, w, half, level)))
        };
    let h = of(half);
    assert(h + h == s) by (nonlinear_arith)
        requires
            h == s / 2real,
    ;
}

/// A packed matrix stands for the scale of the row where the bits of a weight are binary 10, for
/// minus the scale where they are 00, and for zero otherwise.
pub proof fn unpacking_reads_the_codes<A: Arith>(
    ar: &A,
    of: spec_fn(A::Num) -> real,
    pack: PackModel<A::Num>,
    back: Seq<A::Num>,
    o: int,
    i: int,
)
    requires
        exact::is_real(ar, of),
        quantize::are_weights(ar, pack, back),
        0 <= o < pack.out_dim,
        0 <= i < pack.in_dim,
    ensures
        of(back[o * pack.in_dim + i]) == under(bits(pack, o, i), of(pack.alphas[o])),
{
    let x = grid::cell(back, pack.in_dim as int, o, i);
    assert(quantize::is_weight(ar, pack.alphas[o], pack.level(o, i), x));
    let v = choose|v: A::Num| #[trigger]
        arith::is_whole(ar, pack.level(o, i), v) && arith::is_product(ar, pack.alphas[o], v, x);
    let (a, l, r) = (of(pack.alphas[o]), of(v), of(x));
    assert(l == -1real ==> r == 0real - a) by (nonlinear_arith)
        requires
            r == a * l,
    ;
    assert(l == 1real ==> r == a) by (nonlinear_arith)
        requires
            r == a * l,
    ;
    assert(l == 0real ==> r == 0real) by (nonlinear_arith)
        requires
            r == a * l,
    ;
}

/// What a packed row gives for an input: the inputs under +1 less those under -1, scaled.
pub proof fn packed_row_is_the_scaled_sum<A: Arith>(
    ar: &A,
    of: spec_fn(A::Num) -> real,
    x: Seq<A::Num>,
    pack: PackModel<A::Num>,
    o: int,
    r: A::Num,
)
    requires
        exact::is_real(ar, of),
        0 <= o < pack.out_dim,
        x.len() == pack.in_dim,
        pack.in_dim % 4 == 0,
        kernel_ref::is_linear_cell(ar, x, pack, o, r),
    ensures
        of(r) == exact::sum(
            Seq::new(pack.in_dim as nat, |i: int| under(bits(pack, o, i), of(x[i]))),
        ) * of(pack.alphas[o]),
{
    let (w, zero, acc) = choose|w: Seq<A::Num>, zero: A::Num, acc: A::Num|
        {
            &&& #[trigger] kernel_ref::is_level_row(ar, pack, o, w)
            &&& arith::is_whole(ar, 0, zero)
            &&& #[trigger] arith::is_dot(ar, zero, w, x.take(w.len() as int), acc)
            &&& arith::is_product(ar, acc, pack.alphas[o], r)
        };
    exact::dots_stand(ar, of, zero, w, x.take(w.len() as int), acc);
    let got = Seq::new(w.len(), |i: int| of(w[i]) * of(x.take(w.len() as int)[i]));
    let want = Seq::new(pack.in_dim as nat, |i: int| under(bits(pack, o, i), of(x[i])));
    assert forall|i: int| 0 <= i < pack.in_dim implies #[trigger] got[i] == want[i] by {
        assert(arith::is_whole(ar, pack.level(o, i), w[i]));
        let (l, v) = (of(w[i]), of(x[i]));
        assert((l == -1real ==> l * v == 0real - v) && (l == 1real ==> l * v == v) && (l == 0real
            ==> l * v == 0real)) by (nonlinear_arith);
    }
    assert(got =~= want);
}

/// A packed layer gives, for every token and output, the scaled sum of its row plus the bias of
/// the output where there is one.
pub proof fn packed_layer_adds_its_bias<A: Arith>(
    ar: &A,
    of: spec_fn(A::Num) -> real,
    xs: Seq<A::Num>,
    pack: PackModel<A::Num>,
    bias: Option<Seq<A::Num>>,
    tokens: int,
    out: Seq<A::Num>,
    t: int,
    o: int,
)
    requires
        exact::is_real(ar, of),
        pack.in_dim % 4 == 0,
        xs.len() == tokens * pack.in_dim,
        bias matches Some(b) ==> b.len() == pack.out_dim,
        kernel_ref::is_linear(ar, xs, pack, bias, tokens, out),
        0 <= t < tokens,
        0 <= o < pack.out_dim,
    ensures
        out.len() == tokens * pack.out_dim,
        of(out[t * pack.out_dim + o]) == exact::sum(
            Seq::new(
                pack.in_dim as nat,
                |i: int| under(bits(pack, o, i), of(xs[t * pack.in_dim + i])),
            ),
        ) * of(pack.alphas[o]) + match bias {
            Some(b) => of(b[o]),
            None => 0real,
        },
{
    let (n, w) = (pack.out_dim as int, pack.in_dim as int);
    let raw = match bias {
        Some(b) => choose|raw: Seq<A::Num>| #[trigger]
            kernel_ref::is_matmul(ar, xs, pack, tokens, raw) && kernel_ref::is_biased(
                ar,
                raw,
                b,
                out,
            ),
        None => out,
    };
    grid::cell_place(tokens, n, t, o);
    let x = kernel_ref::token(xs, w, t);
    assert(0 <= t * w && t * w + w <= tokens * w) by (nonlinear_arith)
        requires
            0 <= t < tokens,
            0 <= w,
    ;
    let r = grid::cell(raw, n, t, o);
    assert(kernel_ref::is_linear_cell(ar, x, pack, o, r));
    packed_row_is_the_scaled_sum(ar, of, x, pack, o, r);
    assert(Seq::new(pack.in_dim as nat, |i: int| under(bits(pack, o, i), of(x[i])))
        =~= Seq::new(
        pack.in_dim as nat,
        |i: int| under(bits(pack, o, i), of(xs[t * pack.in_dim + i])),
    ));
    if let Some(b) = bias {
        let at = t * n + o;
        assert(at % (b.len() as int) == o);
        assert(arith::is_sum(ar, raw[at], b[at % b.len() as int], out[at]));
    }
}

/// A cut value is the value where that is not below zero, and zero where it is.
pub proof fn cut_is_never_below_zero<A: Arith>(
    ar: &A,
    of: spec_fn(A::Num) -> real,
    x: A::Num,
    r: A::Num,
)
    requires
        exact::is_real(ar, of),
        kernel_ref::is_relu(ar, x, r),
    ensures
        of(r) == if of(x) < 0real {
            0real
        } else {
            of(x)
        },
{
}

/// The gated product of `g` and `u` times `1 + e^-g` is `g * u`.
pub proof fn gate_weighs_by_the_logistic<A: Arith>(
    ar: &A,
    of: spec_fn(A::Num) -> real,
    e: spec_fn(real) -> real,
    gate: Seq<A::Num>,
    up: Seq<A::Num>,
    out: Seq<A::Num>,
    i: int,
)
    requires
        exact::is_real(ar, of),
        exact::has_powers(ar, of, e),
        kernel_ref::is_swiglu_table(ar, gate, up, out),
        0 <= i < gate.len(),
    ensures
        of(out[i]) * (1real + e(0real - of(gate[i]))) == of(gate[i]) * of(up[i]),
{
    let (g, u, r) = (gate[i], up[i], out[i]);
    assert(kernel_ref::is_swiglu(ar, g, u, r));
    let (neg, x, one, below, silu) = choose|
        neg: A::Num,
        x: A::Num,
        one: A::Num,
        below: A::Num,
        silu: A::Num,
    |
        {
            &&& arith::is_negated(ar, g, neg)
            &&& #[trigger] arith::is_exp(ar, neg, x)
            &&& arith::is_whole(ar, 1, one)
            &&& #[trigger] arith::is_sum(ar, one, x, below)
            &&& #[trigger] arith::is_quotient(ar, g, below, silu)
            &&& arith::is_product(ar, silu, u, r)
        };
    let (a, b, c, q, y) = (of(g), of(u), of(below), of(silu), of(r));
    assert(q * c == a) by (nonlinear_arith)
        requires
            c > 1real,
            q == a / c,
    ;
    assert(y * c == (q * c) * b) by (nonlinear_arith)
        requires
            y == q * b,
    ;
}

/// The mean of a row, times its length, is its sum.
proof fn mean_times_count<A: Arith>(
    ar: &A,
    of: spec_fn(A::Num) -> real,
    row: Seq<A::Num>,
    mean: A::Num,
)
    requires
        exact::is_real(ar, of),
        0 < row.len() <= usize::MAX,
        kernel_ref::is_mean(ar, row, mean),
    ensures
        of(mean) * (row.len() as int as real) == exact::sum(
            Seq::new(row.len(), |i: int| of(row[i])),
        ),
{
    let (zero, total, count) = choose|zero: A::Num, total: A::Num, count: A::Num|
        {
            &&& arith::is_whole(ar, 0, zero)
            &&& #[trigger] arith::is_total(ar, zero, row, total)
            &&& arith::is_whole(ar, row.len() as int, count)
            &&& #[trigger] arith::is_quotient(ar, total, count, mean)
        };
    exact::totals_stand(ar, of, zero, row, total);
    let (m, t, k) = (of(mean), of(total), row.len() as int as real);
    assert(of(count) == k);
    assert(m * k == t) by (nonlinear_arith)
        requires
            m == t / k,
            k >= 1real,
    ;
}

/// The sum of squares is not below zero.
proof fn squares_add_up(s: Seq<real>)
    requires
        forall|i: int| 0 <= i < s.len() ==> #[trigger] s[i] >= 0real,
    ensures
        exact::sum(s) >= 0real,
    decreases s.len(),
{
    if s.len() > 0 {
        assert forall|i: int| 0 <= i < s.drop_last().len() implies #[trigger] s.drop_last()[i]
            >= 0real by {
            assert(s.drop_last()[i] == s[i]);
        }
        squares_add_up(s.drop_last());
    }
}

/// A normalised row: there are a mean and a deviation, the mean of the entries of the row and the
/// root of the mean square distance from it plus `eps`, such that every entry of the result, less
/// its shift, is its weight times the distance of the entry from the mean, in deviations. Without
/// weights the weight is one, and without shifts the shift is zero.
pub proof fn norm_centres_and_scales<A: Arith>(
    ar: &A,
    of: spec_fn(A::Num) -> real,
    input: Seq<A::Num>,
    gamma: Option<Seq<A::Num>>,
    beta: Option<Seq<A::Num>>,
    rows: int,
    cols: int,
    eps: A::Num,
    out: Seq<A::Num>,
    r: int,
) -> (stats: (real, real))
    requires
        exact::is_real(ar, of),
        exact::has_roots(ar, of),
        of(eps) > 0real,
        0 < cols <= usize::MAX,
        0 <= r < rows,
        input.len() == rows * cols,
        kernel_ref::is_layer_norm(ar, input, gamma, beta, rows, cols, eps, out),
    ensures
        ({
            let (mean, dev) = stats;
            let n = cols as real;
            let at = |c: int| of(input[r * cols + c]);
            &&& mean * n == exact::sum(Seq::new(cols as nat, at))
            &&& dev > 0real
            &&& (dev * dev - of(eps)) * n == exact::sum(
                Seq::new(cols as nat, |c: int| (at(c) - mean) * (at(c) - mean)),
            )
            &&& forall|c: int|
                0 <= c < cols ==> {
                    let weight = match gamma {
                        Some(g) => of(g[c]),
                        None => 1real,
                    };
                    let shift = match beta {
                        Some(b) => of(b[c]),
                        None => 0real,
                    };
                    (of(#[trigger] out[r * cols + c]) - shift) * dev == (at(c) - mean) * weight
                }
        }),
{
    grid::cell_place(rows, cols, r, 0);
    grid::cell_place(rows, cols, r, cols - 1);
    let row = kernel_ref::token(input, cols, r);
    let done = kernel_ref::token(out, cols, r);
    assert(kernel_ref::is_normed_row(ar, row, gamma, beta, eps, done));
    let (mean, inv) = choose|mean: A::Num, inv: A::Num|
        {
            &&& #[trigger] kernel_ref::are_norm_stats(ar, row, eps, mean, inv)
            &&& forall|c: int|
                0 <= c < row.len() ==> kernel_ref::is_normed_cell(
                    ar,
                    row[c],
                    mean,
                    inv,
                    gamma,
                    beta,
                    c,
                    #[trigger] done[c],
                )
        };
    let var = choose|var: A::Num| #[trigger]
        kernel_ref::is_variance(ar, row, mean, var) && kernel_ref::is_inverse_deviation(
            ar,
            var,
            eps,
            inv,
        );
    let squares = choose|squares: Seq<A::Num>| #[trigger]
        kernel_ref::are_squares_off(ar, row, mean, squares) && kernel_ref::is_mean(
            ar,
            squares,
            var,
        );
    mean_times_count(ar, of, row, mean);
    mean_times_count(ar, of, squares, var);
    let (m, v, n) = (of(mean), of(var), cols as real);
    let at = |c: int| of(input[r * cols + c]);
    assert(Seq::new(row.len(), |i: int| of(row[i])) =~= Seq::new(cols as nat, at));
    let off = Seq::new(cols as nat, |c: int| (at(c) - m) * (at(c) - m));
    let got = Seq::new(squares.len(), |i: int| of(squares[i]));
    assert forall|c: int| 0 <= c < cols implies #[trigger] got[c] == off[c] && off[c]
        >= 0real by {
        assert(kernel_ref::is_square_off(ar, row[c], mean, squares[c]));
        let d = at(c) - m;
        assert(d * d >= 0real) by (nonlinear_arith);
    }
    assert(got =~= off);
    squares_add_up(off);
    assert(v >= 0real) by (nonlinear_arith)
        requires
            v * n >= 0real,
            n >= 1real,
    ;
    let (padded, root, one) = choose|padded: A::Num, root: A::Num, one: A::Num|
        {
            &&& #[trigger] arith::is_sum(ar, var, eps, padded)
            &&& #[trigger] arith::is_sqrt(ar, padded, root)
            &&& arith::is_whole(ar, 1, one)
            &&& #[trigger] arith::is_quotient(ar, one, root, inv)
        };
    let dev = of(root);
    assert(dev > 0real) by (nonlinear_arith)
        requires
            dev >= 0real,
            dev * dev > 0real,
    ;
    assert(dev * dev - of(eps) == v);
    assert forall|c: int| 0 <= c < cols implies {
        let weight = match gamma {
            Some(g) => of(g[c]),
            None => 1real,
        };
        let shift = match beta {
            Some(b) => of(b[c]),
            None => 0real,
        };
        (of(#[trigger] out[r * cols + c]) - shift) * dev == (at(c) - m) * weight
    } by {
        assert(done[c] == out[r * cols + c]);
        assert(kernel_ref::is_normed_cell(ar, row[c], mean, inv, gamma, beta, c, done[c]));
        let (g, b) = choose|g: A::Num, b: A::Num|
            {
                &&& kernel_ref::is_entry_or(ar, gamma, c, 1, g)
                &&& kernel_ref::is_entry_or(ar, beta, c, 0, b)
                &&& #[trigger] kernel_ref::is_normed(ar, row[c], mean, inv, g, b, done[c])
            };
        let (d, k, s) = choose|d: A::Num, k: A::Num, s: A::Num|
            {
                &&& #[trigger] arith::is_difference(ar, row[c], mean, d)
                &&& #[trigger] arith::is_product(ar, d, inv, k)
                &&& #[trigger] arith::is_product(ar, k, g, s)
                &&& arith::is_sum(ar, s, b, done[c])
            };
        let (x, i, w, y) = (at(c) - m, of(inv), of(g), of(s));
        assert(i * dev == 1real) by (nonlinear_arith)
            requires
                dev > 0real,
                i == 1real / dev,
        ;
        assert(y * dev == (x * w) * (i * dev)) by (nonlinear_arith)
            requires
                y == (x * i) * w,
        ;
        assert((x * w) * 1real == x * w) by (nonlinear_arith);
    }
    (m, dev)
}

/// A cell of a dense product is the bias of its column plus the products of row and column.
pub proof fn dense_cell_adds_products<A: Arith>(
    ar: &A,
    of: spec_fn(A::Num) -> real,
    row: Seq<A::Num>,
    col: Seq<A::Num>,
    bias: Option<Seq<A::Num>>,
    c: int,
    r: A::Num,
)
    requires
        exact::is_real(ar, of),
        row.len() == col.len(),
        kernel_ref::is_dense_cell(ar, row, col, bias, c, r),
    ensures
        of(r) == exact::sum(Seq::new(row.len(), |i: int| of(row[i]) * of(col[i]))) + match bias {
            Some(b) => of(b[c]),
            None => 0real,
        },
{
    let start = choose|start: A::Num|
        kernel_ref::is_entry_or(ar, bias, c, 0, start) && #[trigger] arith::is_dot(
            ar,
            start,
            row,
            col,
            r,
        );
    exact::dots_stand(ar, of, start, row, col, r);
}

/// Turning pairs the first half of a head with the second. Each pair is turned by the angle of its
/// position in the sequence, and so keeps its length where cosine and sine are those of an angle;
/// at a position whose angle is zero it stays.
pub proof fn turning_keeps_lengths<A: Arith>(
    ar: &A,
    of: spec_fn(A::Num) -> real,
    before: Seq<A::Num>,
    after: Seq<A::Num>,
    cos: Seq<A::Num>,
    sin: Seq<A::Num>,
    total: int,
    seq: int,
    head_dim: int,
    t: int,
    i: int,
)
    requires
        exact::is_real(ar, of),
        kernel_ref::is_roped(ar, before, after, cos, sin, total, seq, head_dim),
        0 <= t < total,
        0 <= i < head_dim / 2,
        0 < seq,
    ensures
        ({
            let half = head_dim / 2;
            let angle = (t % seq) * half + i;
            let (c, s) = (of(cos[angle]), of(sin[angle]));
            let (x1, x2) = (of(before[t * head_dim + i]), of(before[t * head_dim + half + i]));
            let (y1, y2) = (of(after[t * head_dim + i]), of(after[t * head_dim + half + i]));
            &&& y1 == x1 * c - x2 * s
            &&& y2 == x2 * c + x1 * s
            &&& c * c + s * s == 1real ==> y1 * y1 + y2 * y2 == x1 * x1 + x2 * x2
            &&& c == 1real && s == 0real ==> y1 == x1 && y2 == x2
        }),
{
    let half = head_dim / 2;
    let angle = (t % seq) * half + i;
    let (c, s) = (of(cos[angle]), of(sin[angle]));
    let (x1, x2) = (of(before[t * head_dim + i]), of(before[t * head_dim + half + i]));
    let (y1, y2) = (of(after[t * head_dim + i]), of(after[t * head_dim + half + i]));
    assert(t * head_dim + half + i == t * head_dim + (half + i));
    assert(kernel_ref::is_rotated(
        ar,
        grid::cell(before, head_dim, t, i),
        grid::cell(before, head_dim, t, half + i),
        cos[angle],
        sin[angle],
        grid::cell(after, head_dim, t, i),
        grid::cell(after, head_dim, t, half + i),
    ));
    assert(y1 == x1 * c - x2 * s);
    assert(y2 == x2 * c + x1 * s);
    assert(c == 1real && s == 0real ==> y1 == x1 && y2 == x2) by (nonlinear_arith)
        requires
            y1 == x1 * c - x2 * s,
            y2 == x2 * c + x1 * s,
    ;
    if c * c + s * s == 1real {
        turned_length(x1, x2, c, s);
    }
}

proof fn turned_length(x1: real, x2: real, c: real, s: real)
    requires
        c * c + s * s == 1real,
    ensures
        ({
            let (y1, y2) = (x1 * c - x2 * s, x2 * c + x1 * s);
            y1 * y1 + y2 * y2 == x1 * x1 + x2 * x2
        }),
{
    let (a, b, p, q) = (x1 * c, x2 * s, x2 * c, x1 * s);
    let (u, v, w) = (x1 * x1, x2 * x2, c * c + s * s);
    assert((a - b) * (a - b) == a * a - 2real * (a * b) + b * b) by (nonlinear_arith);
    assert((p + q) * (p + q) == p * p + 2real * (p * q) + q * q) by (nonlinear_arith);
    assert(a * b == p * q) by (nonlinear_arith)
        requires
            a == x1 * c,
            b == x2 * s,
            p == x2 * c,
            q == x1 * s,
    ;
    assert(a * a + q * q == u * w) by (nonlinear_arith)
        requires
            a == x1 * c,
            q == x1 * s,
            u == x1 * x1,
            w == c * c + s * s,
    ;
    assert(p * p + b * b == v * w) by (nonlinear_arith)
        requires
            p == x2 * c,
            b == x2 * s,
            v == x2 * x2,
            w == c * c + s * s,
    ;
    assert(u * 1real == u && v * 1real == v) by (nonlinear_arith);
}

/// Where the key and value heads divide the query heads, each of them serves a run of equally
/// many query heads, in order: query head `hi` reads head `hi * h_kv / h`.
pub proof fn heads_are_shared_in_runs(h: int, h_kv: int, hi: int)
    requires
        0 < h_kv <= h,
        h % h_kv == 0,
        0 <= hi < h,
    ensures
        ({
            let k = kernel_ref::kv_head(h, h_kv, hi);
            k * h <= hi * h_kv < (k + 1) * h
        }),
{
    let run = h / h_kv;
    vstd::arithmetic::div_mod::lemma_fundamental_div_mod(h, h_kv);
    assert(run >= 1) by (nonlinear_arith)
        requires
            h == h_kv * run,
            0 < h_kv <= h,
    ;
    let k = hi / run;
    vstd::arithmetic::div_mod::lemma_fundamental_div_mod(hi, run);
    vstd::arithmetic::div_mod::lemma_mod_bound(hi, run);
    let rest = hi % run;
    assert(k * h <= hi * h_kv < (k + 1) * h) by (nonlinear_arith)
        requires
            h == h_kv * run,
            hi == run * k + rest,
            0 <= rest < run,
            0 < h_kv,
    ;
    if h_kv == h {
        assert(hi * h < (hi + 1) * h) by (nonlinear_arith)
            requires
                h > 0,
        ;
    }
    if h_kv == 1 {
        assert(run == h) by (nonlinear_arith)
            requires
                h == h_kv * run,
                h_kv == 1,
        ;
    }
}

/// One over the root of a width, squared and times the width, is one; and it is not below zero.
pub proof fn head_scale_is_the_inverse_root<A: Arith>(
    ar: &A,
    of: spec_fn(A::Num) -> real,
    head_dim: int,
    scale: A::Num,
)
    requires
        exact::is_real(ar, of),
        exact::has_roots(ar, of),
        0 < head_dim <= usize::MAX,
        kernel_ref::is_head_scale(ar, head_dim, scale),
    ensures
        of(scale) > 0real,
        of(scale) * of(scale) * (head_dim as real) == 1real,
{
    let (width, root, one) = choose|width: A::Num, root: A::Num, one: A::Num|
        {
            &&& arith::is_whole(ar, head_dim, width)
            &&& #[trigger] arith::is_sqrt(ar, width, root)
            &&& arith::is_whole(ar, 1, one)
            &&& #[trigger] arith::is_quotient(ar, one, root, scale)
        };
    let (w, r, s) = (head_dim as real, of(root), of(scale));
    assert(of(width) == w);
    assert(r > 0real) by (nonlinear_arith)
        requires
            r >= 0real,
            r * r > 0real,
    ;
    assert(s > 0real && s * r == 1real) by (nonlinear_arith)
        requires
            r > 0real,
            s == 1real / r,
    ;
    assert(s * s * (r * r) == (s * r) * (s * r)) by (nonlinear_arith);
}

/// What one query attends to: there are weights, in proportion to the exponentials of the scores,
/// of which none is above the one of a largest score, and every entry of the result times the sum
/// of the weights, kept off zero, is the sum of the values under their weights. A score is the
/// product of query and key, scaled, plus its entry of the mask.
pub proof fn attention_weighs_by_the_scores<A: Arith>(
    ar: &A,
    of: spec_fn(A::Num) -> real,
    e: spec_fn(real) -> real,
    query: Seq<A::Num>,
    k: Seq<A::Num>,
    v: Seq<A::Num>,
    base: int,
    s: int,
    d: int,
    scale: A::Num,
    mask: Option<Seq<A::Num>>,
    out: Seq<A::Num>,
) -> (r: (Seq<real>, Seq<real>, real))
    requires
        exact::is_real(ar, of),
        exact::has_powers(ar, of, e),
        forall|x: A::Num| #[trigger] call_ensures(A::speck, (ar,), x) ==> of(x) > 0real,
        query.len() == d,
        0 <= base,
        0 <= s,
        0 <= d,
        (base + s) * d <= k.len(),
        kernel_ref::is_attended_row(ar, query, k, v, base, s, d, scale, mask, out),
    ensures
        ({
            let (scores, weights, pad) = r;
            &&& scores.len() == s && weights.len() == s
            &&& forall|j: int|
                0 <= j < s ==> #[trigger] scores[j] == exact::sum(
                    Seq::new(d as nat, |i: int| of(query[i]) * of(k[(base + j) * d + i])),
                ) * of(scale) + match mask {
                    Some(m) => of(m[j]),
                    None => 0real,
                }
            &&& forall|j: int| 0 <= j < s ==> #[trigger] weights[j] > 0real
            &&& forall|j: int, l: int|
                0 <= j < s && 0 <= l < s ==> #[trigger] weights[j] * e(#[trigger] scores[l])
                    == weights[l] * e(scores[j])
            &&& pad > 0real && exists|x: A::Num| #[trigger]
                call_ensures(A::speck, (ar,), x) && pad == of(x)
            &&& forall|i: int|
                0 <= i < d ==> of(#[trigger] out[i]) * (exact::sum(weights) + pad) == exact::sum(
                    Seq::new(s as nat, |j: int| weights[j] * of(v[(base + j) * d + i])),
                )
        }),
{
    let (scores, peak, weights, denom) = choose|
        scores: Seq<A::Num>,
        peak: A::Num,
        weights: Seq<A::Num>,
        denom: A::Num,
    |
        {
            &&& scores.len() == s
            &&& kernel_ref::are_scores(ar, query, k, base, d, scale, mask, scores)
            &&& kernel_ref::is_peak(ar, scores, peak)
            &&& #[trigger] kernel_ref::are_softmax_weights(ar, scores, peak, weights)
            &&& #[trigger] kernel_ref::is_denominator(ar, weights, denom)
            &&& forall|i: int|
                0 <= i < d ==> kernel_ref::is_attended(
                    ar,
                    weights,
                    kernel_ref::value_column(v, base, s, d, i),
                    denom,
                    #[trigger] out[i],
                )
        };
    let sc = Seq::new(s as nat, |j: int| of(scores[j]));
    let ws = Seq::new(s as nat, |j: int| of(weights[j]));
    let p = of(peak);
    assert forall|j: int| 0 <= j < s implies #[trigger] sc[j] == exact::sum(
        Seq::new(d as nat, |i: int| of(query[i]) * of(k[(base + j) * d + i])),
    ) * of(scale) + match mask {
        Some(m) => of(m[j]),
        None => 0real,
    } by {
        let key = kernel_ref::token(k, d, base + j);
        let entry = match mask {
            Some(m) => Some(m[j]),
            None => None,
        };
        assert(kernel_ref::is_score(ar, query, key, scale, entry, scores[j]));
        let (zero, raw, scaled) = choose|zero: A::Num, raw: A::Num, scaled: A::Num|
            {
                &&& arith::is_whole(ar, 0, zero)
                &&& #[trigger] arith::is_dot(ar, zero, query, key, raw)
                &&& #[trigger] arith::is_product(ar, raw, scale, scaled)
                &&& match entry {
                    Some(m) => arith::is_sum(ar, scaled, m, scores[j]),
                    None => scores[j] == scaled,
                }
            };
        exact::dots_stand(ar, of, zero, query, key, raw);
        assert((base + j) * d + d <= k.len() && 0 <= (base + j) * d) by (nonlinear_arith)
            requires
                (base + s) * d <= k.len(),
                0 <= base,
                0 <= j < s,
                0 <= d,
        ;
        assert(Seq::new(query.len(), |i: int| of(query[i]) * of(key[i])) =~= Seq::new(
            d as nat,
            |i: int| of(query[i]) * of(k[(base + j) * d + i]),
        ));
    }
    assert forall|j: int| 0 <= j < s implies #[trigger] ws[j] == e(sc[j] - p) && ws[j]
        > 0real by {
        assert(kernel_ref::is_softmax_weight(ar, scores[j], peak, weights[j]));
    }
    assert forall|j: int, l: int| 0 <= j < s && 0 <= l < s implies #[trigger] ws[j] * e(
        #[trigger] sc[l],
    ) == ws[l] * e(sc[j]) by {
        let (a, b, t) = (ws[j], ws[l], e(p));
        let (ej, el) = (e(sc[j]), e(sc[l]));
        assert(e(sc[j] - p) * e(p) == e(sc[j]));
        assert(e(sc[l] - p) * e(p) == e(sc[l]));
        assert(a * (b * t) == b * (a * t)) by (nonlinear_arith);
    }
    let (zero, total, speck) = choose|zero: A::Num, total: A::Num, speck: A::Num|
        {
            &&& arith::is_whole(ar, 0, zero)
            &&& #[trigger] arith::is_total(ar, zero, weights, total)
            &&& call_ensures(A::speck, (ar,), speck)
            &&& #[trigger] arith::is_sum(ar, total, speck, denom)
        };
    exact::totals_stand(ar, of, zero, weights, total);
    assert(Seq::new(weights.len(), |j: int| of(weights[j])) =~= ws);
    squares_add_up(ws);
    let pad = of(speck);
    assert forall|i: int| 0 <= i < d implies of(#[trigger] out[i]) * (exact::sum(ws) + pad)
        == exact::sum(Seq::new(s as nat, |j: int| ws[j] * of(v[(base + j) * d + i]))) by {
        let vals = kernel_ref::value_column(v, base, s, d, i);
        assert(kernel_ref::is_attended(ar, weights, vals, denom, out[i]));
        let (nil, acc) = choose|nil: A::Num, acc: A::Num|
            {
                &&& arith::is_whole(ar, 0, nil)
                &&& #[trigger] arith::is_dot(ar, nil, weights, vals, acc)
                &&& arith::is_quotient(ar, acc, denom, out[i])
            };
        exact::dots_stand(ar, of, nil, weights, vals, acc);
        assert(Seq::new(weights.len(), |j: int| of(weights[j]) * of(vals[j])) =~= Seq::new(
            s as nat,
            |j: int| ws[j] * of(v[(base + j) * d + i]),
        ));
        let (o, a, c) = (of(out[i]), of(acc), of(denom));
        assert(o * c == a) by (nonlinear_arith)
            requires
                o == a / c,
                c > 0real,
        ;
    }
    (sc, ws, pad)
}

/// Attention over whole tables: entry `i` of query `qp` of head `hi` in batch `bi` is made from
/// the keys and values of the head `kh` that serves that query head in the same batch, and from
/// the row of the mask for that query and batch.
pub proof fn attention_stays_in_its_head<A: Arith>(
    ar: &A,
    of: spec_fn(A::Num) -> real,
    e: spec_fn(real) -> real,
    q: Seq<A::Num>,
    k: Seq<A::Num>,
    v: Seq<A::Num>,
    mask: Option<Seq<A::Num>>,
    b: int,
    h: int,
    h_kv: int,
    s: int,
    d: int,
    scale: A::Num,
    out: Seq<A::Num>,
    bi: int,
    hi: int,
    qp: int,
) -> (r: (int, Seq<real>, Seq<real>, real))
    requires
        exact::is_real(ar, of),
        exact::has_powers(ar, of, e),
        forall|x: A::Num| #[trigger] call_ensures(A::speck, (ar,), x) ==> of(x) > 0real,
        0 < h_kv <= h,
        h % h_kv == 0,
        0 < d,
        0 <= bi < b,
        0 <= hi < h,
        0 <= qp < s,
        q.len() == b * h * s * d,
        k.len() == b * h_kv * s * d,
        v.len() == b * h_kv * s * d,
        mask matches Some(m) ==> m.len() == b * s * s,
        kernel_ref::is_attention(ar, q, k, v, mask, b, h, h_kv, s, d, scale, out),
    ensures
        ({
            let (kh, scores, weights, pad) = r;
            let at = ((bi * h + hi) * s + qp) * d;
            &&& kh * h <= hi * h_kv < (kh + 1) * h
            &&& scores.len() == s && weights.len() == s && pad > 0real
            &&& forall|j: int|
                0 <= j < s ==> #[trigger] scores[j] == exact::sum(
                    Seq::new(
                        d as nat,
                        |i: int| of(q[at + i]) * of(k[((bi * h_kv + kh) * s + j) * d + i]),
                    ),
                ) * of(scale) + match mask {
                    Some(m) => of(m[(bi * s + qp) * s + j]),
                    None => 0real,
                }
            &&& forall|j: int, l: int|
                0 <= j < s && 0 <= l < s ==> #[trigger] weights[j] * e(#[trigger] scores[l])
                    == weights[l] * e(scores[j])
            &&& forall|i: int|
                0 <= i < d ==> of(#[trigger] out[at + i]) * (exact::sum(weights) + pad)
                    == exact::sum(
                    Seq::new(
                        s as nat,
                        |j: int| weights[j] * of(v[((bi * h_kv + kh) * s + j) * d + i]),
                    ),
                )
        }),
{
    let kh = kernel_ref::kv_head(h, h_kv, hi);
    heads_are_shared_in_runs(h, h_kv, hi);
    let row = (bi * h + hi) * s + qp;
    let base = (bi * h_kv + kh) * s;
    assert(kernel_ref::head_row(h, s, bi, hi, qp) == row);
    let query = kernel_ref::token(q, d, row);
    let mrow = kernel_ref::mask_row(mask, s, bi, qp);
    let got = kernel_ref::token(out, d, row);
    assert(kernel_ref::is_attended_row(ar, query, k, v, base, s, d, scale, mrow, got));
    assert(0 <= kh < h_kv) by (nonlinear_arith)
        requires
            kh * h <= hi * h_kv < (kh + 1) * h,
            0 <= hi < h,
            0 < h_kv,
    ;
    row_fits(b, h, s, d, bi, hi, qp);
    row_fits(b, h_kv, s, d, bi, kh, s - 1);
    row_fits(b, h_kv, s, d, bi, kh, 0);
    assert((base + s) * d == (base + (s - 1)) * d + d) by (nonlinear_arith);
    let r = attention_weighs_by_the_scores(
        ar,
        of,
        e,
        query,
        k,
        v,
        base,
        s,
        d,
        scale,
        mrow,
        got,
    );
    let at = row * d;
    assert forall|j: int| 0 <= j < s implies #[trigger] r.0[j] == exact::sum(
        Seq::new(d as nat, |i: int| of(q[at + i]) * of(k[(base + j) * d + i])),
    ) * of(scale) + match mask {
        Some(m) => of(m[(bi * s + qp) * s + j]),
        None => 0real,
    } by {
        assert(Seq::new(d as nat, |i: int| of(query[i]) * of(k[(base + j) * d + i]))
            =~= Seq::new(d as nat, |i: int| of(q[at + i]) * of(k[(base + j) * d + i])));
        if let Some(m) = mask {
            mask_fits(b, s, bi, qp);
            assert(kernel_ref::token(m, s, bi * s + qp)[j] == m[(bi * s + qp) * s + j]);
        }
    }
    assert forall|i: int| 0 <= i < d implies of(#[trigger] out[at + i]) * (exact::sum(r.1) + r.2)
        == exact::sum(Seq::new(s as nat, |j: int| r.1[j] * of(v[(base + j) * d + i]))) by {
        assert(got[i] == out[at + i]);
    }
    (kh, r.0, r.1, r.2)
}

proof fn row_fits(b: int, n1: int, n2: int, d: int, i0: int, i1: int, i2: int)
    requires
        0 <= i0 < b,
        0 <= i1 < n1,
        0 <= i2 < n2,
        0 <= d,
    ensures
        0 <= i0 * n1 + i1 < b * n1,
        0 <= (i0 * n1 + i1) * n2 + i2 < b * n1 * n2,
        0 <= ((i0 * n1 + i1) * n2 + i2) * d,
        ((i0 * n1 + i1) * n2 + i2) * d + d <= b * n1 * n2 * d,
{
    grid::cell_place(b, n1, i0, i1);
    grid::cell_place(b * n1, n2, i0 * n1 + i1, i2);
    let (x, n) = ((i0 * n1 + i1) * n2 + i2, b * n1 * n2);
    assert(0 <= x * d && x * d + d <= n * d) by (nonlinear_arith)
        requires
            0 <= x < n,
            0 <= d,
    ;
}

proof fn mask_fits(b: int, s: int, bi: int, qp: int)
    requires
        0 <= bi < b,
        0 <= qp < s,
    ensures
        0 <= (bi * s + qp) * s,
        (bi * s + qp) * s + s <= b * s * s,
{
    grid::cell_place(b, s, bi, qp);
    let (x, n) = (bi * s + qp, b * s);
    assert(0 <= x * s && x * s + s <= n * s) by (nonlinear_arith)
        requires
            0 <= x < n,
            0 <= s,
    ;
}

/// Exchanging the middle axes moves entry `(i0, i2, i1, j)` to `(i0, i1, i2, j)`.
pub proof fn exchange_moves_every_entry<T>(
    src: Seq<T>,
    out: Seq<T>,
    b: int,
    n1: int,
    n2: int,
    d: int,
    i0: int,
    i1: int,
    i2: int,
    j: int,
)
    requires
        kernel_ref::is_transposed(src, out, b, n1, n2, d),
        src.len() == b * n2 * n1 * d,
        0 <= i0 < b,
        0 <= i1 < n1,
        0 <= i2 < n2,
        0 <= j < d,
    ensures
        out.len() == src.len(),
        out[((i0 * n1 + i1) * n2 + i2) * d + j] == src[((i0 * n2 + i2) * n1 + i1) * d + j],
{
    row_fits(b, n1, n2, d, i0, i1, i2);
    row_fits(b, n2, n1, d, i0, i2, i1);
    assert(b * n1 * n2 * d == b * n2 * n1 * d) by (nonlinear_arith);
    let (to, from) = (
        kernel_ref::head_row(n1, n2, i0, i1, i2),
        kernel_ref::head_row(n2, n1, i0, i2, i1),
    );
    assert(kernel_ref::token(out, d, to)[j] == kernel_ref::token(src, d, from)[j]);
}

} // verus!
