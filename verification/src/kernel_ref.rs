//! Reference kernels for packed inference, over any arithmetic.
//!
//! A row of packed weights covers `in_dim / 4` bytes; a remainder of the width that is not a
//! multiple of four takes no part.

use crate::arith;
use crate::arith::Arith;
use crate::grid;
use crate::quantize;
use crate::quantize::{PackModel, TernaryPacked};
use vstd::arithmetic::div_mod::*;
use vstd::prelude::*;

verus! {

/// What an optional slice holds.
pub open spec fn held<N>(o: Option<&[N]>) -> Option<Seq<N>> {
    match o {
        Some(s) => Some(s@),
        None => None,
    }
}

/// `w` lists the numbers for the levels of row `o`.
pub open spec fn is_level_row<A: Arith>(
    ar: &A,
    pack: PackModel<A::Num>,
    o: int,
    w: Seq<A::Num>,
) -> bool {
    &&& w.len() == 4 * pack.row_bytes()
    &&& forall|i: int| 0 <= i < w.len() ==> arith::is_whole(ar, pack.level(o, i), #[trigger] w[i])
}

/// `r` is the product of row `o` of the packed matrix with `x`: the levels times the inputs are
/// added up from zero, then scaled.
pub open spec fn is_linear_cell<A: Arith>(
    ar: &A,
    x: Seq<A::Num>,
    pack: PackModel<A::Num>,
    o: int,
    r: A::Num,
) -> bool {
    exists|w: Seq<A::Num>, zero: A::Num, acc: A::Num|
        {
            &&& #[trigger] is_level_row(ar, pack, o, w)
            &&& arith::is_whole(ar, 0, zero)
            &&& #[trigger] arith::is_dot(ar, zero, w, x.take(w.len() as int), acc)
            &&& arith::is_product(ar, acc, pack.alphas[o], r)
        }
}

/// Token `t` of a table of inputs that are `width` wide.
pub open spec fn token<N>(xs: Seq<N>, width: int, t: int) -> Seq<N> {
    xs.subrange(t * width, t * width + width)
}

/// `out` is the packed matrix applied to every token.
pub open spec fn is_matmul<A: Arith>(
    ar: &A,
    xs: Seq<A::Num>,
    pack: PackModel<A::Num>,
    tokens: int,
    out: Seq<A::Num>,
) -> bool {
    grid::is_grid(
        out,
        tokens,
        pack.out_dim as int,
        |t: int, o: int, r: A::Num|
            is_linear_cell(ar, token(xs, pack.in_dim as int, t), pack, o, r),
    )
}

/// The packed matrix can be applied to that many tokens: its rows are there and the output can
/// be addressed.
pub open spec fn applicable<N>(pack: PackModel<N>, tokens: int) -> bool {
    &&& tokens > 0 ==> pack.complete()
    &&& tokens * pack.out_dim <= usize::MAX
}

pub(crate) proof fn token_place(tokens: int, width: int, t: int)
    requires
        0 <= t < tokens,
        0 <= width,
    ensures
        0 <= t * width,
        t * width + width <= tokens * width,
{
    assert(0 <= t * width && t * width + width <= tokens * width) by (nonlinear_arith)
        requires
            0 <= t < tokens,
            0 <= width,
    ;
}

fn linear_cell<A: Arith>(
    ar: &A,
    xs: &[A::Num],
    from: usize,
    pack: &TernaryPacked<A::Num>,
    o: usize,
) -> (r: A::Num)
    requires
        from + pack.in_dim <= xs@.len(),
        pack@.complete(),
        o < pack.out_dim,
    ensures
        is_linear_cell(ar, xs@.subrange(from as int, from + pack.in_dim), pack@, o as int, r),
{
    let ghost x = xs@.subrange(from as int, from + pack.in_dim);
    let bytes: usize = pack.in_dim / 4;
    let len: usize = xs.len();
    let n_packed: usize = pack.packed.len();
    proof {
        token_place(pack.out_dim as int, bytes as int, o as int);
    }
    let zero = ar.whole(0);
    let mut acc = zero;
    let ghost mut w: Seq<A::Num> = Seq::empty();
    proof {
        arith::empty_dot(ar, zero);
        assert(x.take(0) =~= Seq::empty());
    }
    let mut i: usize = 0;
    while i < 4 * bytes
        invariant
            i <= 4 * bytes <= pack.in_dim,
            bytes == pack.in_dim / 4,
            x == xs@.subrange(from as int, from + pack.in_dim),
            from + pack.in_dim <= xs@.len() <= usize::MAX,
            0 <= o * bytes,
            o * bytes + bytes <= pack.packed@.len() <= usize::MAX,
            w.len() == i,
            forall|k: int|
                0 <= k < i ==> arith::is_whole(ar, pack@.level(o as int, k), #[trigger] w[k]),
            arith::is_dot(ar, zero, w, x.take(i as int), acc),
        decreases 4 * bytes - i,
    {
        let byte: u8 = pack.packed[o * bytes + i / 4];
        let v = ar.whole(quantize::unpack_w(byte, i % 4));
        let p = ar.times(v, xs[from + i]);
        let next = ar.plus(acc, p);
        proof {
            arith::dot_step(ar, zero, w, x.take(i as int), acc, v, x[i as int], p, next);
            assert(x.take(i as int).push(x[i as int]) =~= x.take(i + 1));
            assert(arith::is_whole(ar, pack@.level(o as int, i as int), v));
            w = w.push(v);
        }
        acc = next;
        i = i + 1;
    }
    let r = ar.times(acc, pack.alphas[o]);
    assert(is_level_row(ar, pack@, o as int, w));
    r
}

/// Applies a packed matrix to every token.
pub fn ternary_matmul_stack<A: Arith>(
    ar: &A,
    input: &[A::Num],
    pack: &TernaryPacked<A::Num>,
    tokens: usize,
) -> (r: Vec<A::Num>)
    requires
        input@.len() >= tokens * pack.in_dim,
        applicable(pack@, tokens as int),
    ensures
        is_matmul(ar, input@, pack@, tokens as int, r@),
{
    let ghost f = |t: int, o: int, r: A::Num|
        is_linear_cell(ar, token(input@, pack.in_dim as int, t), pack@, o, r);
    let len: usize = input.len();
    let mut out: Vec<A::Num> = Vec::new();
    proof {
        grid::empty_grid(pack.out_dim as int, f);
    }
    let mut t: usize = 0;
    while t < tokens
        invariant
            t <= tokens,
            tokens * pack.in_dim <= input@.len() <= usize::MAX,
            tokens > 0 ==> pack@.complete(),
            f == (|t: int, o: int, r: A::Num|
                is_linear_cell(ar, token(input@, pack.in_dim as int, t), pack@, o, r)),
            grid::is_grid(out@, t as int, pack.out_dim as int, f),
        decreases tokens - t,
    {
        proof {
            token_place(tokens as int, pack.in_dim as int, t as int);
        }
        let from: usize = t * pack.in_dim;
        let mut row: Vec<A::Num> = Vec::new();
        let mut o: usize = 0;
        while o < pack.out_dim
            invariant
                o <= pack.out_dim,
                from == t * pack.in_dim,
                from + pack.in_dim <= input@.len(),
                pack@.complete(),
                f == (|t: int, o: int, r: A::Num|
                    is_linear_cell(ar, token(input@, pack.in_dim as int, t), pack@, o, r)),
                row@.len() == o,
                forall|c: int| 0 <= c < o ==> f(t as int, c, #[trigger] row@[c]),
            decreases pack.out_dim - o,
        {
            let r = linear_cell(ar, input, from, pack, o);
            assert(f(t as int, o as int, r));
            row.push(r);
            o = o + 1;
        }
        proof {
            grid::grid_push_row(out@, t as int, pack.out_dim as int, f, row@);
        }
        out.append(&mut row);
        t = t + 1;
    }
    out
}

/// `r` is `x`, or zero where `x` is below zero.
pub open spec fn is_relu<A: Arith>(ar: &A, x: A::Num, r: A::Num) -> bool {
    exists|zero: A::Num|
        {
            &&& #[trigger] arith::is_whole(ar, 0, zero)
            &&& ((arith::is_exceeds(ar, zero, x, true) && arith::is_whole(ar, 0, r)) || (
            arith::is_exceeds(ar, zero, x, false) && r == x))
        }
}

/// Applies a packed matrix to every row of a batch, with negative results cut to zero where
/// asked.
pub fn ternary_matmul<A: Arith>(
    ar: &A,
    input: &[A::Num],
    pack: &TernaryPacked<A::Num>,
    batch: usize,
    apply_relu: bool,
) -> (r: Vec<A::Num>)
    requires
        input@.len() == batch * pack.in_dim,
        applicable(pack@, batch as int),
    ensures
        exists|raw: Seq<A::Num>|
            {
                &&& #[trigger] is_matmul(ar, input@, pack@, batch as int, raw)
                &&& r@.len() == raw.len()
                &&& if apply_relu {
                    forall|i: int|
                        0 <= i < raw.len() ==> is_relu(ar, raw[i], #[trigger] r@[i])
                } else {
                    r@ == raw
                }
            },
{
    let mut out = ternary_matmul_stack(ar, input, pack, batch);
    let ghost raw = out@;
    if apply_relu {
        let mut i: usize = 0;
        while i < out.len()
            invariant
                i <= raw.len(),
                out@.len() == raw.len(),
                forall|k: int| 0 <= k < i ==> is_relu(ar, raw[k], #[trigger] out@[k]),
                forall|k: int| i <= k < raw.len() ==> #[trigger] out@[k] == raw[k],
            decreases raw.len() - i,
        {
            let zero = ar.whole(0);
            assert(arith::is_whole(ar, 0, zero));
            if ar.exceeds(zero, out[i]) {
                let cut = ar.whole(0);
                out.set(i, cut);
            }
            i = i + 1;
        }
    }
    out
}

/// `r` is `silu(g) * u`, with `silu(g) = g / (1 + exp(-g))`.
pub open spec fn is_swiglu<A: Arith>(ar: &A, g: A::Num, u: A::Num, r: A::Num) -> bool {
    exists|neg: A::Num, e: A::Num, one: A::Num, below: A::Num, silu: A::Num|
        {
            &&& arith::is_negated(ar, g, neg)
            &&& #[trigger] arith::is_exp(ar, neg, e)
            &&& arith::is_whole(ar, 1, one)
            &&& #[trigger] arith::is_sum(ar, one, e, below)
            &&& #[trigger] arith::is_quotient(ar, g, below, silu)
            &&& arith::is_product(ar, silu, u, r)
        }
}

/// `out` is the gated product of `gate` and `up`, element by element.
pub open spec fn is_swiglu_table<A: Arith>(
    ar: &A,
    gate: Seq<A::Num>,
    up: Seq<A::Num>,
    out: Seq<A::Num>,
) -> bool {
    &&& out.len() == gate.len()
    &&& forall|i: int| 0 <= i < gate.len() ==> is_swiglu(ar, gate[i], up[i], #[trigger] out[i])
}

/// `silu(gate) * up`, element by element.
pub fn swiglu_fused<A: Arith>(ar: &A, gate: &[A::Num], up: &[A::Num]) -> (r: Vec<A::Num>)
    requires
        gate@.len() == up@.len(),
    ensures
        is_swiglu_table(ar, gate@, up@, r@),
{
    let mut out: Vec<A::Num> = Vec::new();
    let mut i: usize = 0;
    while i < gate.len()
        invariant
            i <= gate@.len(),
            gate@.len() == up@.len(),
            out@.len() == i,
            forall|k: int| 0 <= k < i ==> is_swiglu(ar, gate@[k], up@[k], #[trigger] out@[k]),
        decreases gate@.len() - i,
    {
        let g = gate[i];
        let neg = ar.negated(g);
        let e = ar.exp(neg);
        let one = ar.whole(1);
        let below = ar.plus(one, e);
        let silu = ar.over(g, below);
        let r = ar.times(silu, up[i]);
        assert(arith::is_exp(ar, neg, e));
        assert(arith::is_sum(ar, one, e, below));
        assert(arith::is_quotient(ar, g, below, silu));
        out.push(r);
        i = i + 1;
    }
    out
}

/// `mean` is the mean of the row.
pub open spec fn is_mean<A: Arith>(ar: &A, row: Seq<A::Num>, mean: A::Num) -> bool {
    exists|zero: A::Num, total: A::Num, count: A::Num|
        {
            &&& arith::is_whole(ar, 0, zero)
            &&& #[trigger] arith::is_total(ar, zero, row, total)
            &&& arith::is_whole(ar, row.len() as int, count)
            &&& #[trigger] arith::is_quotient(ar, total, count, mean)
        }
}

/// `r` is the square of `x - mean`.
pub open spec fn is_square_off<A: Arith>(ar: &A, x: A::Num, mean: A::Num, r: A::Num) -> bool {
    exists|d: A::Num| #[trigger]
        arith::is_difference(ar, x, mean, d) && arith::is_product(ar, d, d, r)
}

/// `squares` lists the squared distances of the row from `mean`.
pub open spec fn are_squares_off<A: Arith>(
    ar: &A,
    row: Seq<A::Num>,
    mean: A::Num,
    squares: Seq<A::Num>,
) -> bool {
    &&& squares.len() == row.len()
    &&& forall|i: int|
        0 <= i < row.len() ==> is_square_off(ar, row[i], mean, #[trigger] squares[i])
}

/// `var` is the population variance of the row about `mean`.
pub open spec fn is_variance<A: Arith>(
    ar: &A,
    row: Seq<A::Num>,
    mean: A::Num,
    var: A::Num,
) -> bool {
    exists|squares: Seq<A::Num>| #[trigger]
        are_squares_off(ar, row, mean, squares) && is_mean(ar, squares, var)
}

/// `inv` is `1 / sqrt(var + eps)`.
pub open spec fn is_inverse_deviation<A: Arith>(
    ar: &A,
    var: A::Num,
    eps: A::Num,
    inv: A::Num,
) -> bool {
    exists|padded: A::Num, root: A::Num, one: A::Num|
        {
            &&& #[trigger] arith::is_sum(ar, var, eps, padded)
            &&& #[trigger] arith::is_sqrt(ar, padded, root)
            &&& arith::is_whole(ar, 1, one)
            &&& #[trigger] arith::is_quotient(ar, one, root, inv)
        }
}

/// `mean` and `inv` are the mean of the row and the inverse of its padded deviation.
pub open spec fn are_norm_stats<A: Arith>(
    ar: &A,
    row: Seq<A::Num>,
    eps: A::Num,
    mean: A::Num,
    inv: A::Num,
) -> bool {
    &&& is_mean(ar, row, mean)
    &&& exists|var: A::Num| #[trigger]
        is_variance(ar, row, mean, var) && is_inverse_deviation(ar, var, eps, inv)
}

/// `v` is entry `c` of an optional vector, or the number `n` where there is none.
pub open spec fn is_entry_or<A: Arith>(
    ar: &A,
    vec: Option<Seq<A::Num>>,
    c: int,
    n: int,
    v: A::Num,
) -> bool {
    match vec {
        Some(s) => v == s[c],
        None => arith::is_whole(ar, n, v),
    }
}

/// `r` is `(x - mean) * inv * g + b`.
pub open spec fn is_normed<A: Arith>(
    ar: &A,
    x: A::Num,
    mean: A::Num,
    inv: A::Num,
    g: A::Num,
    b: A::Num,
    r: A::Num,
) -> bool {
    exists|d: A::Num, n: A::Num, s: A::Num|
        {
            &&& #[trigger] arith::is_difference(ar, x, mean, d)
            &&& #[trigger] arith::is_product(ar, d, inv, n)
            &&& #[trigger] arith::is_product(ar, n, g, s)
            &&& arith::is_sum(ar, s, b, r)
        }
}

/// `out` is the normalised row: each entry centred, scaled, weighted by `gamma` (or one) and
/// shifted by `beta` (or zero).
pub open spec fn is_normed_row<A: Arith>(
    ar: &A,
    row: Seq<A::Num>,
    gamma: Option<Seq<A::Num>>,
    beta: Option<Seq<A::Num>>,
    eps: A::Num,
    out: Seq<A::Num>,
) -> bool {
    &&& out.len() == row.len()
    &&& exists|mean: A::Num, inv: A::Num|
        {
            &&& #[trigger] are_norm_stats(ar, row, eps, mean, inv)
            &&& forall|c: int|
                0 <= c < row.len() ==> is_normed_cell(
                    ar,
                    row[c],
                    mean,
                    inv,
                    gamma,
                    beta,
                    c,
                    #[trigger] out[c],
                )
        }
}

/// `r` is the normalised entry in column `c`.
pub open spec fn is_normed_cell<A: Arith>(
    ar: &A,
    x: A::Num,
    mean: A::Num,
    inv: A::Num,
    gamma: Option<Seq<A::Num>>,
    beta: Option<Seq<A::Num>>,
    c: int,
    r: A::Num,
) -> bool {
    exists|g: A::Num, b: A::Num|
        {
            &&& is_entry_or(ar, gamma, c, 1, g)
            &&& is_entry_or(ar, beta, c, 0, b)
            &&& #[trigger] is_normed(ar, x, mean, inv, g, b, r)
        }
}

fn mean_of<A: Arith>(ar: &A, row: &Vec<A::Num>) -> (r: A::Num)
    ensures
        is_mean(ar, row@, r),
{
    let zero = ar.whole(0);
    let mut total = zero;
    proof {
        arith::empty_total(ar, zero);
        assert(row@.take(0) =~= Seq::empty());
    }
    let mut i: usize = 0;
    while i < row.len()
        invariant
            i <= row@.len(),
            arith::is_total(ar, zero, row@.take(i as int), total),
        decreases row@.len() - i,
    {
        let next = ar.plus(total, row[i]);
        proof {
            arith::total_step(ar, zero, row@.take(i as int), total, row@[i as int], next);
            assert(row@.take(i as int).push(row@[i as int]) =~= row@.take(i + 1));
        }
        total = next;
        i = i + 1;
    }
    assert(row@.take(row@.len() as int) =~= row@);
    let count = ar.whole(row.len() as i128);
    let mean = ar.over(total, count);
    assert(arith::is_quotient(ar, total, count, mean));
    mean
}

fn normed_row<A: Arith>(
    ar: &A,
    row: &Vec<A::Num>,
    gamma: Option<&[A::Num]>,
    beta: Option<&[A::Num]>,
    eps: A::Num,
) -> (r: Vec<A::Num>)
    requires
        gamma matches Some(g) ==> g@.len() >= row@.len(),
        beta matches Some(b) ==> b@.len() >= row@.len(),
    ensures
        is_normed_row(ar, row@, held(gamma), held(beta), eps, r@),
{
    let mean = mean_of(ar, row);
    let mut squares: Vec<A::Num> = Vec::new();
    let mut i: usize = 0;
    while i < row.len()
        invariant
            i <= row@.len(),
            squares@.len() == i,
            forall|k: int|
                0 <= k < i ==> is_square_off(ar, row@[k], mean, #[trigger] squares@[k]),
        decreases row@.len() - i,
    {
        let d = ar.minus(row[i], mean);
        let q = ar.times(d, d);
        assert(arith::is_difference(ar, row@[i as int], mean, d));
        squares.push(q);
        i = i + 1;
    }
    let var = mean_of(ar, &squares);
    assert(are_squares_off(ar, row@, mean, squares@));
    let padded = ar.plus(var, eps);
    let root = ar.sqrt(padded);
    let one = ar.whole(1);
    let inv = ar.over(one, root);
    proof {
        assert(arith::is_sum(ar, var, eps, padded));
        assert(arith::is_sqrt(ar, padded, root));
        assert(arith::is_quotient(ar, one, root, inv));
        assert(is_variance(ar, row@, mean, var));
        assert(are_norm_stats(ar, row@, eps, mean, inv));
    }
    let mut out: Vec<A::Num> = Vec::new();
    let mut c: usize = 0;
    while c < row.len()
        invariant
            c <= row@.len(),
            gamma matches Some(g) ==> g@.len() >= row@.len(),
            beta matches Some(b) ==> b@.len() >= row@.len(),
            out@.len() == c,
            forall|k: int|
                0 <= k < c ==> is_normed_cell(
                    ar,
                    row@[k],
                    mean,
                    inv,
                    held(gamma),
                    held(beta),
                    k,
                    #[trigger] out@[k],
                ),
        decreases row@.len() - c,
    {
        let g = match gamma {
            Some(s) => s[c],
            None => ar.whole(1),
        };
        let b = match beta {
            Some(s) => s[c],
            None => ar.whole(0),
        };
        let d = ar.minus(row[c], mean);
        let n = ar.times(d, inv);
        let s = ar.times(n, g);
        let r = ar.plus(s, b);
        proof {
            assert(arith::is_difference(ar, row@[c as int], mean, d));
            assert(arith::is_product(ar, d, inv, n));
            assert(arith::is_product(ar, n, g, s));
            assert(is_normed(ar, row@[c as int], mean, inv, g, b, r));
        }
        out.push(r);
        c = c + 1;
    }
    out
}

/// `out` is the row-wise layer norm of a table.
pub open spec fn is_layer_norm<A: Arith>(
    ar: &A,
    input: Seq<A::Num>,
    gamma: Option<Seq<A::Num>>,
    beta: Option<Seq<A::Num>>,
    rows: int,
    cols: int,
    eps: A::Num,
    out: Seq<A::Num>,
) -> bool {
    &&& out.len() == rows * cols
    &&& forall|r: int|
        0 <= r < rows ==> is_normed_row(
            ar,
            token(input, cols, r),
            gamma,
            beta,
            eps,
            #[trigger] token(out, cols, r),
        )
}

/// Row-wise layer norm: mean and population variance are taken over the columns.
pub fn layer_norm<A: Arith>(
    ar: &A,
    input: &[A::Num],
    gamma: Option<&[A::Num]>,
    beta: Option<&[A::Num]>,
    rows: usize,
    cols: usize,
    eps: A::Num,
) -> (r: Vec<A::Num>)
    requires
        input@.len() == rows * cols,
        rows > 0 ==> (gamma matches Some(g) ==> g@.len() >= cols),
        rows > 0 ==> (beta matches Some(b) ==> b@.len() >= cols),
    ensures
        is_layer_norm(
            ar,
            input@,
            held(gamma),
            held(beta),
            rows as int,
            cols as int,
            eps,
            r@,
        ),
{
    let len: usize = input.len();
    let mut out: Vec<A::Num> = Vec::new();
    let mut r: usize = 0;
    assert(0 * cols == 0) by (nonlinear_arith);
    while r < rows
        invariant
            r <= rows,
            input@.len() == rows * cols <= usize::MAX,
            rows > 0 ==> (gamma matches Some(g) ==> g@.len() >= cols),
            rows > 0 ==> (beta matches Some(b) ==> b@.len() >= cols),
            out@.len() == r * cols,
            forall|k: int|
                0 <= k < r ==> is_normed_row(
                    ar,
                    token(input@, cols as int, k),
                    held(gamma),
                    held(beta),
                    eps,
                    #[trigger] token(out@, cols as int, k),
                ),
        decreases rows - r,
    {
        proof {
            token_place(rows as int, cols as int, r as int);
        }
        let from: usize = r * cols;
        let mut row: Vec<A::Num> = Vec::new();
        let mut c: usize = 0;
        while c < cols
            invariant
                c <= cols,
                from == r * cols,
                from + cols <= input@.len() <= usize::MAX,
                row@ == input@.subrange(from as int, from + c),
            decreases cols - c,
        {
            row.push(input[from + c]);
            assert(row@ =~= input@.subrange(from as int, from + c + 1));
            c = c + 1;
        }
        let mut normed = normed_row(ar, &row, gamma, beta, eps);
        let ghost before = out@;
        let ghost new_row = normed@;
        out.append(&mut normed);
        proof {
            assert((r + 1) * cols == r * cols + cols) by (nonlinear_arith);
            assert forall|k: int| 0 <= k < r + 1 implies is_normed_row(
                ar,
                token(input@, cols as int, k),
                held(gamma),
                held(beta),
                eps,
                #[trigger] token(out@, cols as int, k),
            ) by {
                token_place(r + 1, cols as int, k);
                if k < r {
                    token_place(r as int, cols as int, k);
                    assert(token(out@, cols as int, k) =~= token(before, cols as int, k));
                } else {
                    assert(token(out@, cols as int, k) =~= new_row);
                }
            }
        }
        r = r + 1;
    }
    out
}

/// Column `c` of a table with `rows` rows and `cols` columns.
pub open spec fn column<N>(s: Seq<N>, rows: int, cols: int, c: int) -> Seq<N> {
    Seq::new(rows as nat, |r: int| grid::cell(s, cols, r, c))
}

/// `r` is the bias of the column, or zero where there is none, with the products of row and
/// column added to it.
pub open spec fn is_dense_cell<A: Arith>(
    ar: &A,
    row: Seq<A::Num>,
    col: Seq<A::Num>,
    bias: Option<Seq<A::Num>>,
    c: int,
    r: A::Num,
) -> bool {
    exists|start: A::Num|
        is_entry_or(ar, bias, c, 0, start) && #[trigger] arith::is_dot(ar, start, row, col, r)
}

/// The product of an `m` by `k` and a `k` by `n` matrix, with a bias for each column.
pub fn dense_matmul_bias<A: Arith>(
    ar: &A,
    a: &[A::Num],
    b: &[A::Num],
    bias: Option<&[A::Num]>,
    m: usize,
    k: usize,
    n: usize,
) -> (r: Vec<A::Num>)
    requires
        a@.len() == m * k,
        b@.len() == k * n,
        m > 0 ==> (bias matches Some(v) ==> v@.len() >= n),
        m * n <= usize::MAX,
    ensures
        grid::is_grid(
            r@,
            m as int,
            n as int,
            |row: int, col: int, x: A::Num|
                is_dense_cell(
                    ar,
                    token(a@, k as int, row),
                    column(b@, k as int, n as int, col),
                    held(bias),
                    col,
                    x,
                ),
        ),
{
    let ghost f = |row: int, col: int, x: A::Num|
        is_dense_cell(
            ar,
            token(a@, k as int, row),
            column(b@, k as int, n as int, col),
            held(bias),
            col,
            x,
        );
    let a_len: usize = a.len();
    let b_len: usize = b.len();
    let mut out: Vec<A::Num> = Vec::new();
    proof {
        grid::empty_grid(n as int, f);
    }
    let mut row: usize = 0;
    while row < m
        invariant
            row <= m,
            a@.len() == m * k <= usize::MAX,
            b@.len() == k * n <= usize::MAX,
            m > 0 ==> (bias matches Some(v) ==> v@.len() >= n),
            f == (|row: int, col: int, x: A::Num|
                is_dense_cell(
                    ar,
                    token(a@, k as int, row),
                    column(b@, k as int, n as int, col),
                    held(bias),
                    col,
                    x,
                )),
            grid::is_grid(out@, row as int, n as int, f),
        decreases m - row,
    {
        proof {
            token_place(m as int, k as int, row as int);
        }
        let from: usize = row * k;
        let ghost x = token(a@, k as int, row as int);
        let mut line: Vec<A::Num> = Vec::new();
        let mut col: usize = 0;
        while col < n
            invariant
                col <= n,
                row < m,
                from == row * k,
                from + k <= a@.len() <= usize::MAX,
                b@.len() == k * n <= usize::MAX,
                bias matches Some(v) ==> v@.len() >= n,
                x == token(a@, k as int, row as int),
                f == (|row: int, col: int, x: A::Num|
                    is_dense_cell(
                        ar,
                        token(a@, k as int, row),
                        column(b@, k as int, n as int, col),
                        held(bias),
                        col,
                        x,
                    )),
                line@.len() == col,
                forall|c: int| 0 <= c < col ==> f(row as int, c, #[trigger] line@[c]),
            decreases n - col,
        {
            let ghost y = column(b@, k as int, n as int, col as int);
            let start = match bias {
                Some(v) => v[col],
                None => ar.whole(0),
            };
            let mut sum = start;
            proof {
                arith::empty_dot(ar, start);
                assert(x.take(0) =~= Seq::empty());
                assert(y.take(0) =~= Seq::empty());
            }
            let mut kk: usize = 0;
            while kk < k
                invariant
                    kk <= k,
                    col < n,
                    from == row * k,
                    from + k <= a@.len() <= usize::MAX,
                    b@.len() == k * n <= usize::MAX,
                    x == token(a@, k as int, row as int),
                    y == column(b@, k as int, n as int, col as int),
                    arith::is_dot(ar, start, x.take(kk as int), y.take(kk as int), sum),
                decreases k - kk,
            {
                proof {
                    grid::cell_place(k as int, n as int, kk as int, col as int);
                }
                let p = ar.times(a[from + kk], b[kk * n + col]);
                let next = ar.plus(sum, p);
                proof {
                    arith::dot_step(
                        ar,
                        start,
                        x.take(kk as int),
                        y.take(kk as int),
                        sum,
                        x[kk as int],
                        y[kk as int],
                        p,
                        next,
                    );
                    assert(x.take(kk as int).push(x[kk as int]) =~= x.take(kk + 1));
                    assert(y.take(kk as int).push(y[kk as int]) =~= y.take(kk + 1));
                }
                sum = next;
                kk = kk + 1;
            }
            proof {
                assert(x.take(k as int) =~= x);
                assert(y.take(k as int) =~= y);
                assert(f(row as int, col as int, sum));
            }
            line.push(sum);
            col = col + 1;
        }
        proof {
            grid::grid_push_row(out@, row as int, n as int, f, line@);
        }
        out.append(&mut line);
        row = row + 1;
    }
    out
}

/// `out` is `raw` with the bias of its column added to every cell.
pub open spec fn is_biased<A: Arith>(
    ar: &A,
    raw: Seq<A::Num>,
    bias: Seq<A::Num>,
    out: Seq<A::Num>,
) -> bool {
    &&& out.len() == raw.len()
    &&& forall|i: int|
        0 <= i < raw.len() ==> arith::is_sum(
            ar,
            raw[i],
            bias[i % bias.len() as int],
            #[trigger] out[i],
        )
}

/// Adds a bias to every row, in place.
pub fn bias_add<A: Arith>(
    ar: &A,
    data: &mut [A::Num],
    bias: &[A::Num],
    rows: usize,
    cols: usize,
)
    requires
        old(data)@.len() == rows * cols,
        bias@.len() == cols,
    ensures
        is_biased(ar, old(data)@, bias@, final(data)@),
{
    let ghost raw = data@;
    let len: usize = data.len();
    let mut r: usize = 0;
    assert(0 * cols == 0) by (nonlinear_arith);
    while r < rows
        invariant
            r <= rows,
            raw.len() == rows * cols <= usize::MAX,
            data@.len() == raw.len(),
            bias@.len() == cols,
            forall|i: int|
                0 <= i < r * cols ==> arith::is_sum(
                    ar,
                    raw[i],
                    bias@[i % cols as int],
                    #[trigger] data@[i],
                ),
            forall|i: int| r * cols <= i < raw.len() ==> #[trigger] data@[i] == raw[i],
        decreases rows - r,
    {
        proof {
            token_place(rows as int, cols as int, r as int);
        }
        let from: usize = r * cols;
        let mut c: usize = 0;
        while c < cols
            invariant
                c <= cols,
                r < rows,
                from == r * cols,
                from + cols <= raw.len(),
                raw.len() == rows * cols <= usize::MAX,
                data@.len() == raw.len(),
                bias@.len() == cols,
                forall|i: int|
                    0 <= i < from + c ==> arith::is_sum(
                        ar,
                        raw[i],
                        bias@[i % cols as int],
                        #[trigger] data@[i],
                    ),
                forall|i: int| from + c <= i < raw.len() ==> #[trigger] data@[i] == raw[i],
            decreases cols - c,
        {
            let v = ar.plus(data[from + c], bias[c]);
            proof {
                grid::cell_place(rows as int, cols as int, r as int, c as int);
            }
            data[from + c] = v;
            c = c + 1;
        }
        assert((r + 1) * cols == r * cols + cols) by (nonlinear_arith);
        r = r + 1;
    }
}

/// `out` is the packed matrix applied to every token, with the bias added where there is one.
pub open spec fn is_linear<A: Arith>(
    ar: &A,
    xs: Seq<A::Num>,
    pack: PackModel<A::Num>,
    bias: Option<Seq<A::Num>>,
    tokens: int,
    out: Seq<A::Num>,
) -> bool {
    match bias {
        None => is_matmul(ar, xs, pack, tokens, out),
        Some(b) => exists|raw: Seq<A::Num>| #[trigger]
            is_matmul(ar, xs, pack, tokens, raw) && is_biased(ar, raw, b, out),
    }
}

/// The bias of a layer has one entry for each output.
pub open spec fn bias_fits<N>(bias: Option<Seq<N>>, pack: PackModel<N>) -> bool {
    bias matches Some(b) ==> b.len() == pack.out_dim
}

/// A packed linear layer: the matrix applied to every token, then the bias.
pub fn linear_with_bias<A: Arith>(
    ar: &A,
    input: &[A::Num],
    pack: &TernaryPacked<A::Num>,
    bias: Option<&[A::Num]>,
    tokens: usize,
) -> (r: Vec<A::Num>)
    requires
        input@.len() >= tokens * pack.in_dim,
        applicable(pack@, tokens as int),
        bias_fits(held(bias), pack@),
    ensures
        r@.len() == tokens * pack.out_dim,
        is_linear(ar, input@, pack@, held(bias), tokens as int, r@),
{
    let mut out = ternary_matmul_stack(ar, input, pack, tokens);
    if let Some(b) = bias {
        bias_add(ar, out.as_mut_slice(), b, tokens, pack.out_dim);
    }
    out
}

/// `out` is the gated feed-forward layer: gate and value projections, `silu(gate) * value`,
/// then the down projection.
pub open spec fn is_swiglu_ffn<A: Arith>(
    ar: &A,
    xs: Seq<A::Num>,
    tokens: int,
    gate: PackModel<A::Num>,
    gate_bias: Option<Seq<A::Num>>,
    value: PackModel<A::Num>,
    value_bias: Option<Seq<A::Num>>,
    down: PackModel<A::Num>,
    down_bias: Option<Seq<A::Num>>,
    out: Seq<A::Num>,
) -> bool {
    exists|g: Seq<A::Num>, v: Seq<A::Num>, hidden: Seq<A::Num>|
        {
            &&& is_linear(ar, xs, gate, gate_bias, tokens, g)
            &&& is_linear(ar, xs, value, value_bias, tokens, v)
            &&& #[trigger] is_swiglu_table(ar, g, v, hidden)
            &&& is_linear(ar, hidden, down, down_bias, tokens, out)
        }
}

/// The packed gated feed-forward layer.
pub fn packed_swiglu_ffn<A: Arith>(
    ar: &A,
    xs: &[A::Num],
    tokens: usize,
    gate: &TernaryPacked<A::Num>,
    gate_bias: Option<&[A::Num]>,
    value: &TernaryPacked<A::Num>,
    value_bias: Option<&[A::Num]>,
    down: &TernaryPacked<A::Num>,
    down_bias: Option<&[A::Num]>,
) -> (r: Vec<A::Num>)
    requires
        xs@.len() == tokens * gate.in_dim,
        xs@.len() == tokens * value.in_dim,
        tokens * gate.out_dim == tokens * value.out_dim,
        tokens * gate.out_dim == tokens * down.in_dim,
        applicable(gate@, tokens as int),
        applicable(value@, tokens as int),
        applicable(down@, tokens as int),
        bias_fits(held(gate_bias), gate@),
        bias_fits(held(value_bias), value@),
        bias_fits(held(down_bias), down@),
    ensures
        r@.len() == tokens * down.out_dim,
        is_swiglu_ffn(
            ar,
            xs@,
            tokens as int,
            gate@,
            held(gate_bias),
            value@,
            held(value_bias),
            down@,
            held(down_bias),
            r@,
        ),
{
    let g = linear_with_bias(ar, xs, gate, gate_bias, tokens);
    let v = linear_with_bias(ar, xs, value, value_bias, tokens);
    let hidden = swiglu_fused(ar, g.as_slice(), v.as_slice());
    linear_with_bias(ar, hidden.as_slice(), down, down_bias, tokens)
}

/// The row of entry `(i0, i1, i2)` in a table whose rows are counted over three axes, of which
/// the last two have lengths `n1` and `n2`.
pub open spec fn head_row(n1: int, n2: int, i0: int, i1: int, i2: int) -> int {
    (i0 * n1 + i1) * n2 + i2
}

/// `out`, of shape `[b, n1, n2, d]`, is `src`, of shape `[b, n2, n1, d]`, with its two middle
/// axes exchanged.
pub open spec fn is_transposed<T>(
    src: Seq<T>,
    out: Seq<T>,
    b: int,
    n1: int,
    n2: int,
    d: int,
) -> bool {
    &&& out.len() == b * n1 * n2 * d
    &&& forall|i0: int, i1: int, i2: int|
        0 <= i0 < b && 0 <= i1 < n1 && 0 <= i2 < n2 ==> token(
            out,
            d,
            #[trigger] head_row(n1, n2, i0, i1, i2),
        ) == token(src, d, head_row(n2, n1, i0, i2, i1))
}

pub(crate) proof fn head_row_place(b: int, n1: int, n2: int, i0: int, i1: int, i2: int)
    requires
        0 <= i0 < b,
        0 <= i1 < n1,
        0 <= i2 < n2,
    ensures
        ({
            let r = head_row(n1, n2, i0, i1, i2);
            &&& 0 <= r < b * n1 * n2
            &&& r % n2 == i2
            &&& (r / n2) % n1 == i1
            &&& (r / n2) / n1 == i0
        }),
{
    grid::cell_place(b, n1, i0, i1);
    grid::cell_place(b * n1, n2, i0 * n1 + i1, i2);
}

pub(crate) proof fn head_row_parts(b: int, n1: int, n2: int, r: int)
    requires
        0 <= b,
        0 <= n1,
        0 <= n2,
        0 <= r < b * n1 * n2,
    ensures
        0 < n1,
        0 < n2,
        0 <= (r / n2) / n1 < b,
        0 <= (r / n2) % n1 < n1,
        0 <= r % n2 < n2,
        head_row(n1, n2, (r / n2) / n1, (r / n2) % n1, r % n2) == r,
{
    if n2 == 0 {
        assert(b * n1 * 0 == 0) by (nonlinear_arith);
    } else if n1 == 0 {
        assert(b * 0 == 0) by (nonlinear_arith);
        assert(0 * n2 == 0) by (nonlinear_arith);
    } else {
        grid::place_cell(b * n1, n2, r);
        grid::place_cell(b, n1, r / n2);
    }
}

proof fn swapped_count(b: int, n1: int, n2: int)
    ensures
        b * n1 * n2 == b * n2 * n1,
{
    assert(b * n1 * n2 == b * n2 * n1) by (nonlinear_arith);
}

/// Exchanging the two middle axes twice gives the table back.
pub proof fn transpose_round_trip<T>(
    x: Seq<T>,
    y: Seq<T>,
    z: Seq<T>,
    b: int,
    n1: int,
    n2: int,
    d: int,
)
    requires
        0 <= b,
        0 <= n1,
        0 <= n2,
        0 <= d,
        x.len() == b * n2 * n1 * d,
        is_transposed(x, y, b, n1, n2, d),
        is_transposed(y, z, b, n2, n1, d),
    ensures
        z == x,
{
    let rows = b * n2 * n1;
    assert forall|i: int| 0 <= i < x.len() implies z[i] == x[i] by {
        if d == 0 {
            assert(rows * 0 == 0) by (nonlinear_arith);
        }
        grid::place_cell(rows, d, i);
        let r = i / d;
        head_row_parts(b, n2, n1, r);
        let i0 = (r / n1) / n2;
        let i2 = (r / n1) % n2;
        let i1 = r % n1;
        assert(head_row(n2, n1, i0, i2, i1) == r);
        let mid = head_row(n1, n2, i0, i1, i2);
        assert(token(z, d, r) == token(y, d, mid));
        assert(token(y, d, mid) == token(x, d, r));
        token_place(rows, d, r);
        assert(token(z, d, r)[i % d] == z[i]);
        assert(token(x, d, r)[i % d] == x[i]);
    }
    assert(z =~= x);
}

fn swap_axes<T: Copy>(src: &[T], b: usize, n1: usize, n2: usize, d: usize) -> (r: Vec<T>)
    requires
        src@.len() >= b * n2 * n1 * d,
    ensures
        is_transposed(src@, r@, b as int, n1 as int, n2 as int, d as int),
{
    let mut out: Vec<T> = Vec::new();
    if b == 0 || n1 == 0 || n2 == 0 || d == 0 {
        proof {
            assert(b * n1 * n2 * d == 0) by (nonlinear_arith)
                requires
                    b == 0 || n1 == 0 || n2 == 0 || d == 0,
            ;
            assert forall|i0: int, i1: int, i2: int|
                0 <= i0 < b && 0 <= i1 < n1 && 0 <= i2 < n2 implies token(
                out@,
                d as int,
                #[trigger] head_row(n1 as int, n2 as int, i0, i1, i2),
            ) == token(src@, d as int, head_row(n2 as int, n1 as int, i0, i2, i1)) by {
                assert(d == 0);
                let x = head_row(n1 as int, n2 as int, i0, i1, i2);
                let y = head_row(n2 as int, n1 as int, i0, i2, i1);
                assert(x * 0 == 0 && y * 0 == 0) by (nonlinear_arith);
                assert(token(out@, d as int, x) =~= token(src@, d as int, y));
            }
        }
        return out;
    }
    let len: usize = src.len();
    proof {
        swapped_count(b as int, n1 as int, n2 as int);
        assert(b * n1 <= b * n1 * n2 && b * n1 * n2 <= b * n1 * n2 * d) by (nonlinear_arith)
            requires
                b > 0,
                n1 > 0,
                n2 > 0,
                d > 0,
        ;
    }
    let rows: usize = b * n1 * n2;
    let mut r: usize = 0;
    assert(0 * d == 0) by (nonlinear_arith);
    while r < rows
        invariant
            r <= rows,
            rows == b * n1 * n2,
            b > 0,
            n1 > 0,
            n2 > 0,
            d > 0,
            b * n2 * n1 * d <= src@.len() <= usize::MAX,
            out@.len() == r * d,
            forall|i0: int, i1: int, i2: int|
                0 <= i0 < b && 0 <= i1 < n1 && 0 <= i2 < n2 && head_row(
                    n1 as int,
                    n2 as int,
                    i0,
                    i1,
                    i2,
                ) < r ==> token(
                    out@,
                    d as int,
                    #[trigger] head_row(n1 as int, n2 as int, i0, i1, i2),
                ) == token(src@, d as int, head_row(n2 as int, n1 as int, i0, i2, i1)),
        decreases rows - r,
    {
        let i2: usize = r % n2;
        let i1: usize = (r / n2) % n1;
        let i0: usize = (r / n2) / n1;
        proof {
            head_row_parts(b as int, n1 as int, n2 as int, r as int);
            head_row_place(b as int, n2 as int, n1 as int, i0 as int, i2 as int, i1 as int);
            swapped_count(b as int, n1 as int, n2 as int);
            let y = head_row(n2 as int, n1 as int, i0 as int, i2 as int, i1 as int);
            token_place(rows as int, d as int, y);
            grid::cell_place(b as int, n2 as int, i0 as int, i2 as int);
            assert(i0 * n2 + i2 <= (i0 * n2 + i2) * n1) by (nonlinear_arith)
                requires
                    n1 >= 1,
                    0 <= i0 * n2 + i2,
            ;
            assert(y <= y * d) by (nonlinear_arith)
                requires
                    d >= 1,
                    0 <= y,
            ;
        }
        let from: usize = ((i0 * n2 + i2) * n1 + i1) * d;
        let ghost before = out@;
        let mut c: usize = 0;
        while c < d
            invariant
                c <= d,
                from + d <= src@.len() <= usize::MAX,
                out@ == before + src@.subrange(from as int, from + c),
            decreases d - c,
        {
            out.push(src[from + c]);
            assert(src@.subrange(from as int, from + c + 1) =~= src@.subrange(
                from as int,
                from + c,
            ).push(src@[from + c]));
            c = c + 1;
        }
        proof {
            assert((r + 1) * d == r * d + d) by (nonlinear_arith);
            assert forall|j0: int, j1: int, j2: int|
                0 <= j0 < b && 0 <= j1 < n1 && 0 <= j2 < n2 && head_row(
                    n1 as int,
                    n2 as int,
                    j0,
                    j1,
                    j2,
                ) < r + 1 implies token(
                out@,
                d as int,
                #[trigger] head_row(n1 as int, n2 as int, j0, j1, j2),
            ) == token(src@, d as int, head_row(n2 as int, n1 as int, j0, j2, j1)) by {
                let x = head_row(n1 as int, n2 as int, j0, j1, j2);
                head_row_place(b as int, n1 as int, n2 as int, j0, j1, j2);
                if x < r {
                    token_place(r as int, d as int, x);
                    assert(token(out@, d as int, x) =~= token(before, d as int, x));
                } else {
                    assert(j0 == i0 && j1 == i1 && j2 == i2);
                    assert(token(out@, d as int, x) =~= src@.subrange(from as int, from + d));
                }
            }
        }
        r = r + 1;
    }
    proof {
        assert forall|i0: int, i1: int, i2: int|
            0 <= i0 < b && 0 <= i1 < n1 && 0 <= i2 < n2 implies token(
            out@,
            d as int,
            #[trigger] head_row(n1 as int, n2 as int, i0, i1, i2),
        ) == token(src@, d as int, head_row(n2 as int, n1 as int, i0, i2, i1)) by {
            head_row_place(b as int, n1 as int, n2 as int, i0, i1, i2);
        }
    }
    out
}

/// `[B, S, H, D]` to `[B, H, S, D]`.
pub fn transpose_bshd_to_bhsd<T: Copy>(src: &[T], b: usize, s: usize, h: usize, d: usize) -> (r:
    Vec<T>)
    requires
        src@.len() >= b * s * h * d,
    ensures
        is_transposed(src@, r@, b as int, h as int, s as int, d as int),
{
    swap_axes(src, b, h, s, d)
}

/// `[B, H, S, D]` to `[B, S, H * D]`.
pub fn transpose_bhsd_to_bsd<T: Copy>(src: &[T], b: usize, h: usize, s: usize, d: usize) -> (r:
    Vec<T>)
    requires
        src@.len() >= b * h * s * d,
    ensures
        is_transposed(src@, r@, b as int, s as int, h as int, d as int),
{
    swap_axes(src, b, s, h, d)
}

/// `(r1, r2)` is `(x1, x2)` turned: `x1 * c - x2 * sn` and `x1 * sn + x2 * c`.
pub open spec fn is_rotated<A: Arith>(
    ar: &A,
    x1: A::Num,
    x2: A::Num,
    c: A::Num,
    sn: A::Num,
    r1: A::Num,
    r2: A::Num,
) -> bool {
    &&& exists|a: A::Num, b: A::Num|
        {
            &&& #[trigger] arith::is_product(ar, x1, c, a)
            &&& #[trigger] arith::is_product(ar, x2, sn, b)
            &&& arith::is_difference(ar, a, b, r1)
        }
    &&& exists|a: A::Num, b: A::Num|
        {
            &&& #[trigger] arith::is_product(ar, x1, sn, a)
            &&& #[trigger] arith::is_product(ar, x2, c, b)
            &&& arith::is_sum(ar, a, b, r2)
        }
}

/// `new` is `old` with entry pair `i` of token `t` turned by the angle at position `t % seq`,
/// for the first `total` tokens; the halves of a token pair up. Nothing else changes.
pub open spec fn is_roped<A: Arith>(
    ar: &A,
    old_data: Seq<A::Num>,
    new_data: Seq<A::Num>,
    cos: Seq<A::Num>,
    sin: Seq<A::Num>,
    total: int,
    seq: int,
    head_dim: int,
) -> bool {
    let half = head_dim / 2;
    &&& new_data.len() == old_data.len()
    &&& forall|t: int, i: int|
        0 <= t < total && 0 <= i < half ==> is_rotated(
            ar,
            grid::cell(old_data, head_dim, t, i),
            grid::cell(old_data, head_dim, t, half + i),
            cos[(t % seq) * half + i],
            sin[(t % seq) * half + i],
            #[trigger] grid::cell(new_data, head_dim, t, i),
            grid::cell(new_data, head_dim, t, half + i),
        )
    &&& forall|j: int|
        0 <= j < old_data.len() && (j >= total * head_dim || head_dim == 0 || j % head_dim >= 2
            * half) ==> #[trigger] new_data[j] == old_data[j]
}

fn rotate_token<A: Arith>(
    ar: &A,
    data: &mut [A::Num],
    offset: usize,
    half: usize,
    cos: &[A::Num],
    sin: &[A::Num],
    base: usize,
)
    requires
        offset + 2 * half <= old(data)@.len(),
        base + half <= cos@.len(),
        base + half <= sin@.len(),
    ensures
        final(data)@.len() == old(data)@.len(),
        forall|i: int|
            0 <= i < half ==> is_rotated(
                ar,
                old(data)@[offset + i],
                old(data)@[offset + half + i],
                cos@[base + i],
                sin@[base + i],
                #[trigger] final(data)@[offset + i],
                final(data)@[offset + half + i],
            ),
        forall|j: int|
            0 <= j < old(data)@.len() && (j < offset || j >= offset + 2 * half)
                ==> #[trigger] final(data)@[j] == old(data)@[j],
{
    let ghost start = data@;
    let len: usize = data.len();
    let c_len: usize = cos.len();
    let s_len: usize = sin.len();
    let mut i: usize = 0;
    while i < half
        invariant
            i <= half,
            start.len() == data@.len(),
            offset + 2 * half <= data@.len() <= usize::MAX,
            base + half <= cos@.len() <= usize::MAX,
            base + half <= sin@.len() <= usize::MAX,
            forall|k: int|
                0 <= k < i ==> is_rotated(
                    ar,
                    start[offset + k],
                    start[offset + half + k],
                    cos@[base + k],
                    sin@[base + k],
                    #[trigger] data@[offset + k],
                    data@[offset + half + k],
                ),
            forall|j: int|
                0 <= j < start.len() && !(offset <= j < offset + i) && !(offset + half <= j
                    < offset + half + i) ==> #[trigger] data@[j] == start[j],
        decreases half - i,
    {
        let x1 = data[offset + i];
        let x2 = data[offset + half + i];
        let c = cos[base + i];
        let sn = sin[base + i];
        let a = ar.times(x1, c);
        let b = ar.times(x2, sn);
        let r1 = ar.minus(a, b);
        let p = ar.times(x1, sn);
        let q = ar.times(x2, c);
        let r2 = ar.plus(p, q);
        proof {
            assert(arith::is_product(ar, x1, c, a));
            assert(arith::is_product(ar, x2, sn, b));
            assert(arith::is_product(ar, x1, sn, p));
            assert(arith::is_product(ar, x2, c, q));
            assert(is_rotated(ar, x1, x2, c, sn, r1, r2));
        }
        let ghost before = data@;
        data[offset + i] = r1;
        data[offset + half + i] = r2;
        proof {
            assert forall|k: int| 0 <= k < i + 1 implies is_rotated(
                ar,
                start[offset + k],
                start[offset + half + k],
                cos@[base + k],
                sin@[base + k],
                #[trigger] data@[offset + k],
                data@[offset + half + k],
            ) by {
                if k < i {
                    assert(data@[offset + k] == before[offset + k]);
                    assert(data@[offset + half + k] == before[offset + half + k]);
                }
            }
        }
        i = i + 1;
    }
}

/// Turns queries or keys of shape `[B, H, S, D]` by their positions, in place.
pub fn apply_rope<A: Arith>(
    ar: &A,
    q_or_k: &mut [A::Num],
    cos: &[A::Num],
    sin: &[A::Num],
    batch: usize,
    heads: usize,
    seq: usize,
    head_dim: usize,
)
    requires
        batch * heads * seq <= usize::MAX,
        batch * heads * seq > 0 && head_dim / 2 > 0 ==> {
            &&& (batch * heads * seq - 1) * head_dim + 2 * (head_dim / 2) <= old(q_or_k)@.len()
            &&& seq * (head_dim / 2) <= cos@.len()
            &&& seq * (head_dim / 2) <= sin@.len()
        },
    ensures
        is_roped(
            ar,
            old(q_or_k)@,
            final(q_or_k)@,
            cos@,
            sin@,
            batch * heads * seq,
            seq as int,
            head_dim as int,
        ),
{
    let ghost start = q_or_k@;
    let half: usize = head_dim / 2;
    if half == 0 || batch == 0 || heads == 0 || seq == 0 {
        proof {
            if half > 0 {
                assert(batch * heads * seq == 0) by (nonlinear_arith)
                    requires
                        batch == 0 || heads == 0 || seq == 0,
                ;
            }
        }
        return ;
    }
    assert(batch * heads <= batch * heads * seq && 0 < batch * heads * seq) by (nonlinear_arith)
        requires
            batch >= 1,
            heads >= 1,
            seq >= 1,
    ;
    let total: usize = batch * heads * seq;
    let len: usize = q_or_k.len();
    let c_len: usize = cos.len();
    let s_len: usize = sin.len();
    let mut t: usize = 0;
    assert(0 * head_dim == 0) by (nonlinear_arith);
    while t < total
        invariant
            t <= total,
            half == head_dim / 2,
            half > 0,
            seq > 0,
            start.len() == q_or_k@.len() <= usize::MAX,
            (total - 1) * head_dim + 2 * half <= start.len(),
            seq * half <= cos@.len() <= usize::MAX,
            seq * half <= sin@.len() <= usize::MAX,
            forall|k: int, i: int|
                0 <= k < t && 0 <= i < half ==> is_rotated(
                    ar,
                    grid::cell(start, head_dim as int, k, i),
                    grid::cell(start, head_dim as int, k, half + i),
                    cos@[(k % seq as int) * half + i],
                    sin@[(k % seq as int) * half + i],
                    #[trigger] grid::cell(q_or_k@, head_dim as int, k, i),
                    grid::cell(q_or_k@, head_dim as int, k, half + i),
                ),
            forall|j: int|
                0 <= j < start.len() && (j >= t * head_dim || j % head_dim as int >= 2 * half)
                    ==> #[trigger] q_or_k@[j] == start[j],
        decreases total - t,
    {
        let at: usize = t % seq;
        proof {
            assert(t * head_dim <= (total - 1) * head_dim) by (nonlinear_arith)
                requires
                    t <= total - 1,
                    0 <= head_dim,
            ;
            assert(0 <= t * head_dim) by (nonlinear_arith);
            token_place(seq as int, half as int, at as int);
        }
        let offset: usize = t * head_dim;
        let ghost before = q_or_k@;
        rotate_token(ar, q_or_k, offset, half, cos, sin, at * half);
        proof {
            assert((t + 1) * head_dim == t * head_dim + head_dim) by (nonlinear_arith);
            assert forall|k: int, i: int| 0 <= k < t + 1 && 0 <= i < half implies is_rotated(
                ar,
                grid::cell(start, head_dim as int, k, i),
                grid::cell(start, head_dim as int, k, half + i),
                cos@[(k % seq as int) * half + i],
                sin@[(k % seq as int) * half + i],
                #[trigger] grid::cell(q_or_k@, head_dim as int, k, i),
                grid::cell(q_or_k@, head_dim as int, k, half + i),
            ) by {
                grid::cell_place(t + 1, head_dim as int, k, i);
                grid::cell_place(t + 1, head_dim as int, k, half + i);
                if k < t {
                    grid::cell_place(t as int, head_dim as int, k, i);
                    grid::cell_place(t as int, head_dim as int, k, half + i);
                    assert(grid::cell(q_or_k@, head_dim as int, k, i) == grid::cell(
                        before,
                        head_dim as int,
                        k,
                        i,
                    ));
                    assert(grid::cell(q_or_k@, head_dim as int, k, half + i) == grid::cell(
                        before,
                        head_dim as int,
                        k,
                        half + i,
                    ));
                } else {
                    assert(q_or_k@[offset + i] == grid::cell(q_or_k@, head_dim as int, k, i));
                }
            }
            assert forall|j: int|
                0 <= j < start.len() && (j >= (t + 1) * head_dim || j % head_dim as int >= 2
                    * half) implies #[trigger] q_or_k@[j] == start[j] by {
                if offset <= j < offset + 2 * half {
                    grid::cell_place(t + 1, head_dim as int, t as int, j - offset);
                }
            }
        }
        t = t + 1;
    }
}

/// The key and value head that query head `hi` reads: heads are shared out in runs where there
/// are fewer of them than query heads.
pub open spec fn kv_head(h: int, h_kv: int, hi: int) -> int {
    if h_kv == h {
        hi
    } else {
        let shared = h / (if h_kv > 1 {
            h_kv
        } else {
            1
        });
        hi / (if shared > 1 {
            shared
        } else {
            1
        })
    }
}

/// The key and value head that query head `hi` reads.
pub(crate) fn kv_head_of(h: usize, h_kv: usize, hi: usize) -> (r: usize)
    ensures
        r == kv_head(h as int, h_kv as int, hi as int),
{
    if h_kv == h {
        hi
    } else {
        let parts: usize = if h_kv > 1 {
            h_kv
        } else {
            1
        };
        let shared: usize = h / parts;
        let run: usize = if shared > 1 {
            shared
        } else {
            1
        };
        hi / run
    }
}

/// `score` is the scaled product of a query with a key, plus its mask entry where there is one.
pub open spec fn is_score<A: Arith>(
    ar: &A,
    query: Seq<A::Num>,
    key: Seq<A::Num>,
    scale: A::Num,
    mask: Option<A::Num>,
    score: A::Num,
) -> bool {
    exists|zero: A::Num, raw: A::Num, scaled: A::Num|
        {
            &&& arith::is_whole(ar, 0, zero)
            &&& #[trigger] arith::is_dot(ar, zero, query, key, raw)
            &&& #[trigger] arith::is_product(ar, raw, scale, scaled)
            &&& match mask {
                Some(m) => arith::is_sum(ar, scaled, m, score),
                None => score == scaled,
            }
        }
}

/// `run` lists the largest number seen so far, starting from the lowest one.
pub open spec fn is_peak_run<A: Arith>(ar: &A, scores: Seq<A::Num>, run: Seq<A::Num>) -> bool {
    &&& run.len() == scores.len() + 1
    &&& call_ensures(A::lowest, (ar,), run[0])
    &&& forall|i: int|
        0 <= i < scores.len() ==> is_larger(ar, #[trigger] scores[i], run[i], run[i + 1])
}

/// `r` is `x` where it exceeds `y`, and `y` where it does not.
pub open spec fn is_larger<A: Arith>(ar: &A, x: A::Num, y: A::Num, r: A::Num) -> bool {
    (arith::is_exceeds(ar, x, y, true) && r == x) || (arith::is_exceeds(ar, x, y, false) && r == y)
}

/// `peak` is the largest of the scores.
pub open spec fn is_peak<A: Arith>(ar: &A, scores: Seq<A::Num>, peak: A::Num) -> bool {
    exists|run: Seq<A::Num>| #[trigger]
        is_peak_run(ar, scores, run) && peak == run[scores.len() as int]
}

/// `w` is the exponential of how far the score is below the peak.
pub open spec fn is_softmax_weight<A: Arith>(
    ar: &A,
    score: A::Num,
    peak: A::Num,
    w: A::Num,
) -> bool {
    exists|d: A::Num| #[trigger] arith::is_difference(ar, score, peak, d) && arith::is_exp(ar, d, w)
}

/// `weights` are the weights of the scores.
pub open spec fn are_softmax_weights<A: Arith>(
    ar: &A,
    scores: Seq<A::Num>,
    peak: A::Num,
    weights: Seq<A::Num>,
) -> bool {
    &&& weights.len() == scores.len()
    &&& forall|i: int|
        0 <= i < scores.len() ==> is_softmax_weight(ar, scores[i], peak, #[trigger] weights[i])
}

/// `denom` is the sum of the weights, kept off zero.
pub open spec fn is_denominator<A: Arith>(
    ar: &A,
    weights: Seq<A::Num>,
    denom: A::Num,
) -> bool {
    exists|zero: A::Num, total: A::Num, speck: A::Num|
        {
            &&& arith::is_whole(ar, 0, zero)
            &&& #[trigger] arith::is_total(ar, zero, weights, total)
            &&& call_ensures(A::speck, (ar,), speck)
            &&& #[trigger] arith::is_sum(ar, total, speck, denom)
        }
}

/// `r` is the weighted sum of the values over the denominator.
pub open spec fn is_attended<A: Arith>(
    ar: &A,
    weights: Seq<A::Num>,
    values: Seq<A::Num>,
    denom: A::Num,
    r: A::Num,
) -> bool {
    exists|zero: A::Num, acc: A::Num|
        {
            &&& arith::is_whole(ar, 0, zero)
            &&& #[trigger] arith::is_dot(ar, zero, weights, values, acc)
            &&& arith::is_quotient(ar, acc, denom, r)
        }
}

/// `scores` are the scores of a query against the `s` keys from row `base` on.
pub open spec fn are_scores<A: Arith>(
    ar: &A,
    query: Seq<A::Num>,
    k: Seq<A::Num>,
    base: int,
    d: int,
    scale: A::Num,
    mask: Option<Seq<A::Num>>,
    scores: Seq<A::Num>,
) -> bool {
    forall|kp: int|
        0 <= kp < scores.len() ==> is_score(
            ar,
            query,
            token(k, d, base + kp),
            scale,
            match mask {
                Some(m) => Some(m[kp]),
                None => None,
            },
            #[trigger] scores[kp],
        )
}

/// Entry `i` of the `s` values from row `base` on.
pub open spec fn value_column<N>(v: Seq<N>, base: int, s: int, d: int, i: int) -> Seq<N> {
    Seq::new(s as nat, |kp: int| grid::cell(v, d, base + kp, i))
}

/// `out` is the attention of one query over the `s` keys and values from row `base` on.
pub open spec fn is_attended_row<A: Arith>(
    ar: &A,
    query: Seq<A::Num>,
    k: Seq<A::Num>,
    v: Seq<A::Num>,
    base: int,
    s: int,
    d: int,
    scale: A::Num,
    mask: Option<Seq<A::Num>>,
    out: Seq<A::Num>,
) -> bool {
    &&& out.len() == d
    &&& exists|scores: Seq<A::Num>, peak: A::Num, weights: Seq<A::Num>, denom: A::Num|
        {
            &&& scores.len() == s
            &&& are_scores(ar, query, k, base, d, scale, mask, scores)
            &&& is_peak(ar, scores, peak)
            &&& #[trigger] are_softmax_weights(ar, scores, peak, weights)
            &&& #[trigger] is_denominator(ar, weights, denom)
            &&& forall|i: int|
                0 <= i < d ==> is_attended(
                    ar,
                    weights,
                    value_column(v, base, s, d, i),
                    denom,
                    #[trigger] out[i],
                )
        }
}

fn score_of<A: Arith>(
    ar: &A,
    q: &[A::Num],
    q_off: usize,
    k: &[A::Num],
    k_off: usize,
    d: usize,
    scale: A::Num,
    mask: Option<A::Num>,
) -> (r: A::Num)
    requires
        q_off + d <= q@.len(),
        k_off + d <= k@.len(),
    ensures
        is_score(
            ar,
            q@.subrange(q_off as int, q_off + d),
            k@.subrange(k_off as int, k_off + d),
            scale,
            mask,
            r,
        ),
{
    let ghost x = q@.subrange(q_off as int, q_off + d);
    let ghost y = k@.subrange(k_off as int, k_off + d);
    let q_len: usize = q.len();
    let k_len: usize = k.len();
    let zero = ar.whole(0);
    let mut raw = zero;
    proof {
        arith::empty_dot(ar, zero);
        assert(x.take(0) =~= Seq::empty());
        assert(y.take(0) =~= Seq::empty());
    }
    let mut i: usize = 0;
    while i < d
        invariant
            i <= d,
            q_off + d <= q@.len() <= usize::MAX,
            k_off + d <= k@.len() <= usize::MAX,
            x == q@.subrange(q_off as int, q_off + d),
            y == k@.subrange(k_off as int, k_off + d),
            arith::is_dot(ar, zero, x.take(i as int), y.take(i as int), raw),
        decreases d - i,
    {
        let p = ar.times(q[q_off + i], k[k_off + i]);
        let next = ar.plus(raw, p);
        proof {
            arith::dot_step(
                ar,
                zero,
                x.take(i as int),
                y.take(i as int),
                raw,
                x[i as int],
                y[i as int],
                p,
                next,
            );
            assert(x.take(i as int).push(x[i as int]) =~= x.take(i + 1));
            assert(y.take(i as int).push(y[i as int]) =~= y.take(i + 1));
        }
        raw = next;
        i = i + 1;
    }
    proof {
        assert(x.take(d as int) =~= x);
        assert(y.take(d as int) =~= y);
    }
    let scaled = ar.times(raw, scale);
    assert(arith::is_product(ar, raw, scale, scaled));
    match mask {
        Some(m) => ar.plus(scaled, m),
        None => scaled,
    }
}

fn peak_of<A: Arith>(ar: &A, scores: &Vec<A::Num>) -> (r: A::Num)
    ensures
        is_peak(ar, scores@, r),
{
    let mut peak = ar.lowest();
    let ghost mut run: Seq<A::Num> = seq![peak];
    let mut i: usize = 0;
    while i < scores.len()
        invariant
            i <= scores@.len(),
            run.len() == i + 1,
            call_ensures(A::lowest, (ar,), run[0]),
            run[i as int] == peak,
            forall|k: int|
                0 <= k < i ==> is_larger(ar, #[trigger] scores@[k], run[k], run[k + 1]),
        decreases scores@.len() - i,
    {
        let ghost before = run;
        if ar.exceeds(scores[i], peak) {
            peak = scores[i];
        }
        proof {
            run = run.push(peak);
            assert forall|k: int| 0 <= k < i + 1 implies is_larger(
                ar,
                #[trigger] scores@[k],
                run[k],
                run[k + 1],
            ) by {
                if k < i {
                    assert(run[k] == before[k] && run[k + 1] == before[k + 1]);
                }
            }
        }
        i = i + 1;
    }
    assert(is_peak_run(ar, scores@, run));
    peak
}

fn denominator_of<A: Arith>(ar: &A, weights: &Vec<A::Num>) -> (r: A::Num)
    ensures
        is_denominator(ar, weights@, r),
{
    let zero = ar.whole(0);
    let mut total = zero;
    proof {
        arith::empty_total(ar, zero);
        assert(weights@.take(0) =~= Seq::empty());
    }
    let mut i: usize = 0;
    while i < weights.len()
        invariant
            i <= weights@.len(),
            arith::is_total(ar, zero, weights@.take(i as int), total),
        decreases weights@.len() - i,
    {
        let next = ar.plus(total, weights[i]);
        proof {
            arith::total_step(ar, zero, weights@.take(i as int), total, weights@[i as int], next);
            assert(weights@.take(i as int).push(weights@[i as int]) =~= weights@.take(i + 1));
        }
        total = next;
        i = i + 1;
    }
    assert(weights@.take(weights@.len() as int) =~= weights@);
    let speck = ar.speck();
    let denom = ar.plus(total, speck);
    assert(arith::is_sum(ar, total, speck, denom));
    denom
}

fn attended_of<A: Arith>(
    ar: &A,
    weights: &Vec<A::Num>,
    v: &[A::Num],
    base: usize,
    d: usize,
    i: usize,
    denom: A::Num,
) -> (r: A::Num)
    requires
        i < d,
        (base + weights@.len()) * d <= v@.len(),
    ensures
        is_attended(
            ar,
            weights@,
            value_column(v@, base as int, weights@.len() as int, d as int, i as int),
            denom,
            r,
        ),
{
    let ghost s = weights@.len() as int;
    let ghost y = value_column(v@, base as int, s, d as int, i as int);
    let v_len: usize = v.len();
    let zero = ar.whole(0);
    let mut acc = zero;
    proof {
        arith::empty_dot(ar, zero);
        assert(weights@.take(0) =~= Seq::empty());
        assert(y.take(0) =~= Seq::empty());
    }
    let mut kp: usize = 0;
    while kp < weights.len()
        invariant
            kp <= weights@.len(),
            i < d,
            s == weights@.len(),
            (base + weights@.len()) * d <= v@.len() <= usize::MAX,
            y == value_column(v@, base as int, s, d as int, i as int),
            arith::is_dot(ar, zero, weights@.take(kp as int), y.take(kp as int), acc),
        decreases weights@.len() - kp,
    {
        proof {
            grid::cell_place(base + s, d as int, base + kp, i as int);
            assert(base + kp <= (base + kp) * d) by (nonlinear_arith)
                requires
                    d >= 1,
            ;
        }
        let p = ar.times(weights[kp], v[(base + kp) * d + i]);
        let next = ar.plus(acc, p);
        proof {
            arith::dot_step(
                ar,
                zero,
                weights@.take(kp as int),
                y.take(kp as int),
                acc,
                weights@[kp as int],
                y[kp as int],
                p,
                next,
            );
            assert(weights@.take(kp as int).push(weights@[kp as int]) =~= weights@.take(kp + 1));
            assert(y.take(kp as int).push(y[kp as int]) =~= y.take(kp + 1));
        }
        acc = next;
        kp = kp + 1;
    }
    proof {
        assert(weights@.take(s) =~= weights@);
        assert(y.take(s) =~= y);
    }
    ar.over(acc, denom)
}

fn attended_row<A: Arith>(
    ar: &A,
    q: &[A::Num],
    q_off: usize,
    k: &[A::Num],
    v: &[A::Num],
    base: usize,
    s: usize,
    d: usize,
    scale: A::Num,
    mask: Option<&[A::Num]>,
    m_off: usize,
) -> (r: Vec<A::Num>)
    requires
        d > 0,
        q_off + d <= q@.len(),
        (base + s) * d <= k@.len(),
        (base + s) * d <= v@.len(),
        mask matches Some(m) ==> m_off + s <= m@.len(),
    ensures
        is_attended_row(
            ar,
            q@.subrange(q_off as int, q_off + d),
            k@,
            v@,
            base as int,
            s as int,
            d as int,
            scale,
            match mask {
                Some(m) => Some(m@.subrange(m_off as int, m_off + s)),
                None => None,
            },
            r@,
        ),
{
    let ghost query = q@.subrange(q_off as int, q_off + d);
    let ghost mrow = match mask {
        Some(m) => Some(m@.subrange(m_off as int, m_off + s)),
        None => None,
    };
    let k_len: usize = k.len();
    let m_len: usize = match mask {
        Some(m) => m.len(),
        None => 0,
    };
    let mut scores: Vec<A::Num> = Vec::new();
    let mut kp: usize = 0;
    while kp < s
        invariant
            kp <= s,
            d > 0,
            q_off + d <= q@.len(),
            (base + s) * d <= k@.len() <= usize::MAX,
            mask matches Some(m) ==> m_off + s <= m@.len() <= usize::MAX,
            query == q@.subrange(q_off as int, q_off + d),
            mrow == match mask {
                Some(m) => Some(m@.subrange(m_off as int, m_off + s)),
                None => None::<Seq<A::Num>>,
            },
            scores@.len() == kp,
            are_scores(ar, query, k@, base as int, d as int, scale, mrow, scores@),
        decreases s - kp,
    {
        proof {
            token_place(base + s, d as int, base + kp);
            assert(base + kp <= (base + kp) * d) by (nonlinear_arith)
                requires
                    d >= 1,
            ;
        }
        let m = match mask {
            Some(m) => Some(m[m_off + kp]),
            None => None,
        };
        let score = score_of(ar, q, q_off, k, (base + kp) * d, d, scale, m);
        scores.push(score);
        kp = kp + 1;
    }
    let peak = peak_of(ar, &scores);
    let mut weights: Vec<A::Num> = Vec::new();
    let mut j: usize = 0;
    while j < scores.len()
        invariant
            j <= scores@.len(),
            weights@.len() == j,
            forall|x: int|
                0 <= x < j ==> is_softmax_weight(ar, scores@[x], peak, #[trigger] weights@[x]),
        decreases scores@.len() - j,
    {
        let diff = ar.minus(scores[j], peak);
        let w = ar.exp(diff);
        assert(arith::is_difference(ar, scores@[j as int], peak, diff));
        weights.push(w);
        j = j + 1;
    }
    let denom = denominator_of(ar, &weights);
    let mut out: Vec<A::Num> = Vec::new();
    let mut i: usize = 0;
    while i < d
        invariant
            i <= d,
            weights@.len() == s,
            (base + s) * d <= v@.len(),
            out@.len() == i,
            forall|x: int|
                0 <= x < i ==> is_attended(
                    ar,
                    weights@,
                    value_column(v@, base as int, s as int, d as int, x),
                    denom,
                    #[trigger] out@[x],
                ),
        decreases d - i,
    {
        let r = attended_of(ar, &weights, v, base, d, i, denom);
        out.push(r);
        i = i + 1;
    }
    proof {
        assert(are_softmax_weights(ar, scores@, peak, weights@));
        assert(is_denominator(ar, weights@, denom));
    }
    out
}

/// The mask entries of query position `qp` in batch `bi`.
pub open spec fn mask_row<N>(mask: Option<Seq<N>>, s: int, bi: int, qp: int) -> Option<Seq<N>> {
    match mask {
        Some(m) => Some(token(m, s, bi * s + qp)),
        None => None,
    }
}

/// `out`, of shape `[b, h, s, d]`, is softmax attention: every query of every head over the keys
/// and values of the head it reads.
pub open spec fn is_attention<A: Arith>(
    ar: &A,
    q: Seq<A::Num>,
    k: Seq<A::Num>,
    v: Seq<A::Num>,
    mask: Option<Seq<A::Num>>,
    b: int,
    h: int,
    h_kv: int,
    s: int,
    d: int,
    scale: A::Num,
    out: Seq<A::Num>,
) -> bool {
    &&& out.len() == b * h * s * d
    &&& d > 0 ==> forall|bi: int, hi: int, qp: int|
        0 <= bi < b && 0 <= hi < h && 0 <= qp < s ==> is_attended_row(
            ar,
            token(q, d, head_row(h, s, bi, hi, qp)),
            k,
            v,
            (bi * h_kv + kv_head(h, h_kv, hi)) * s,
            s,
            d,
            scale,
            mask_row(mask, s, bi, qp),
            token(out, d, #[trigger] head_row(h, s, bi, hi, qp)),
        )
}

/// Where the keys that query head `hi` of batch `bi` reads end.
pub open spec fn kv_end(h: int, h_kv: int, s: int, d: int, bi: int, hi: int) -> int {
    (bi * h_kv + kv_head(h, h_kv, hi) + 1) * s * d
}

/// The queries, keys, values and mask that attention reads are there.
pub open spec fn attention_ready(
    q_len: int,
    k_len: int,
    v_len: int,
    mask_len: Option<int>,
    b: int,
    h: int,
    h_kv: int,
    s: int,
    d: int,
) -> bool {
    &&& q_len >= b * h * s * d
    &&& forall|bi: int, hi: int|
        0 <= bi < b && 0 <= hi < h ==> #[trigger] kv_end(h, h_kv, s, d, bi, hi) <= k_len
            && kv_end(h, h_kv, s, d, bi, hi) <= v_len
    &&& match mask_len {
        Some(m) => h > 0 ==> m >= b * s * s,
        None => true,
    }
}

/// How long an optional slice is.
pub open spec fn held_len<N>(o: Option<&[N]>) -> Option<int> {
    match o {
        Some(s) => Some(s@.len() as int),
        None => None,
    }
}

pub(crate) proof fn kv_head_nonneg(h: int, h_kv: int, hi: int)
    requires
        0 <= h,
        0 <= h_kv,
        0 <= hi,
    ensures
        0 <= kv_head(h, h_kv, hi),
{
    if h_kv != h {
        let shared = h / (if h_kv > 1 {
            h_kv
        } else {
            1
        });
        let run = if shared > 1 {
            shared
        } else {
            1
        };
        lemma_div_pos_is_pos(hi, run);
    }
}

/// Softmax attention over `[B, H, S, D]` queries and `[B, H_kv, S, D]` keys and values.
pub fn fused_attention<A: Arith>(
    ar: &A,
    q: &[A::Num],
    k: &[A::Num],
    v: &[A::Num],
    mask: Option<&[A::Num]>,
    b: usize,
    h: usize,
    h_kv: usize,
    s: usize,
    d: usize,
    scale: A::Num,
) -> (r: Vec<A::Num>)
    requires
        attention_ready(
            q@.len() as int,
            k@.len() as int,
            v@.len() as int,
            held_len(mask),
            b as int,
            h as int,
            h_kv as int,
            s as int,
            d as int,
        ),
    ensures
        is_attention(
            ar,
            q@,
            k@,
            v@,
            held(mask),
            b as int,
            h as int,
            h_kv as int,
            s as int,
            d as int,
            scale,
            r@,
        ),
{
    let mut out: Vec<A::Num> = Vec::new();
    if b == 0 || h == 0 || s == 0 || d == 0 {
        assert(b * h * s * d == 0) by (nonlinear_arith)
            requires
                b == 0 || h == 0 || s == 0 || d == 0,
        ;
        return out;
    }
    let q_len: usize = q.len();
    let k_len: usize = k.len();
    let m_len: usize = match mask {
        Some(m) => m.len(),
        None => 0,
    };
    assert(b * h <= b * h * s && b * h * s <= b * h * s * d) by (nonlinear_arith)
        requires
            b >= 1,
            h >= 1,
            s >= 1,
            d >= 1,
    ;
    let rows: usize = b * h * s;
    let mut r: usize = 0;
    assert(0 * d == 0) by (nonlinear_arith);
    while r < rows
        invariant
            r <= rows,
            rows == b * h * s,
            b > 0,
            h > 0,
            s > 0,
            d > 0,
            q@.len() <= usize::MAX,
            k@.len() <= usize::MAX,
            mask matches Some(m) ==> m@.len() <= usize::MAX,
            attention_ready(
                q@.len() as int,
                k@.len() as int,
                v@.len() as int,
                held_len(mask),
                b as int,
                h as int,
                h_kv as int,
                s as int,
                d as int,
            ),
            out@.len() == r * d,
            forall|bi: int, hi: int, qp: int|
                0 <= bi < b && 0 <= hi < h && 0 <= qp < s && head_row(
                    h as int,
                    s as int,
                    bi,
                    hi,
                    qp,
                ) < r ==> is_attended_row(
                    ar,
                    token(q@, d as int, head_row(h as int, s as int, bi, hi, qp)),
                    k@,
                    v@,
                    (bi * h_kv + kv_head(h as int, h_kv as int, hi)) * s,
                    s as int,
                    d as int,
                    scale,
                    mask_row(held(mask), s as int, bi, qp),
                    token(
                        out@,
                        d as int,
                        #[trigger] head_row(h as int, s as int, bi, hi, qp),
                    ),
                ),
        decreases rows - r,
    {
        let qp: usize = r % s;
        let hi: usize = (r / s) % h;
        let bi: usize = (r / s) / h;
        let kv: usize = kv_head_of(h, h_kv, hi);
        proof {
            head_row_parts(b as int, h as int, s as int, r as int);
            token_place(rows as int, d as int, r as int);
            kv_head_nonneg(h as int, h_kv as int, hi as int);
            let g = bi * h_kv + kv;
            assert(kv_end(h as int, h_kv as int, s as int, d as int, bi as int, hi as int) == (g
                + 1) * s * d);
            assert(0 <= bi * h_kv && bi * h_kv <= g && g <= g * s && g * s <= g * s * d && (g * s
                + s) * d == (g + 1) * s * d && g * s * d <= (g + 1) * s * d) by (nonlinear_arith)
                requires
                    0 <= bi,
                    0 <= h_kv,
                    0 <= kv,
                    g == bi * h_kv + kv,
                    s >= 1,
                    d >= 1,
            ;
            grid::cell_place(b as int, s as int, bi as int, qp as int);
            token_place(b * s, s as int, bi * s + qp);
        }
        let base: usize = (bi * h_kv + kv) * s;
        proof {
            if mask is Some {
                assert(bi * s + qp <= (bi * s + qp) * s) by (nonlinear_arith)
                    requires
                        s >= 1,
                ;
            }
        }
        let m_off: usize = match mask {
            Some(_) => (bi * s + qp) * s,
            None => 0,
        };
        let ghost before = out@;
        let mut row = attended_row(ar, q, r * d, k, v, base, s, d, scale, mask, m_off);
        let ghost new_row = row@;
        out.append(&mut row);
        proof {
            assert((r + 1) * d == r * d + d) by (nonlinear_arith);
            assert forall|b2: int, h2: int, q2: int|
                0 <= b2 < b && 0 <= h2 < h && 0 <= q2 < s && head_row(
                    h as int,
                    s as int,
                    b2,
                    h2,
                    q2,
                ) < r + 1 implies is_attended_row(
                ar,
                token(q@, d as int, head_row(h as int, s as int, b2, h2, q2)),
                k@,
                v@,
                (b2 * h_kv + kv_head(h as int, h_kv as int, h2)) * s,
                s as int,
                d as int,
                scale,
                mask_row(held(mask), s as int, b2, q2),
                token(out@, d as int, #[trigger] head_row(h as int, s as int, b2, h2, q2)),
            ) by {
                let x = head_row(h as int, s as int, b2, h2, q2);
                head_row_place(b as int, h as int, s as int, b2, h2, q2);
                if x < r {
                    token_place(r as int, d as int, x);
                    assert(token(out@, d as int, x) =~= token(before, d as int, x));
                } else {
                    assert(b2 == bi && h2 == hi && q2 == qp);
                    assert(token(out@, d as int, x) =~= new_row);
                }
            }
        }
        r = r + 1;
    }
    proof {
        assert forall|bi: int, hi: int, qp: int|
            0 <= bi < b && 0 <= hi < h && 0 <= qp < s implies is_attended_row(
            ar,
            token(q@, d as int, head_row(h as int, s as int, bi, hi, qp)),
            k@,
            v@,
            (bi * h_kv + kv_head(h as int, h_kv as int, hi)) * s,
            s as int,
            d as int,
            scale,
            mask_row(held(mask), s as int, bi, qp),
            token(out@, d as int, #[trigger] head_row(h as int, s as int, bi, hi, qp)),
        ) by {
            head_row_place(b as int, h as int, s as int, bi, hi, qp);
        }
    }
    out
}

/// `heads`, of shape `[b, n, s, d]`, is the projection of the tokens split into `n` heads.
pub open spec fn is_heads<A: Arith>(
    ar: &A,
    xs: Seq<A::Num>,
    pack: PackModel<A::Num>,
    bias: Option<Seq<A::Num>>,
    b: int,
    s: int,
    n: int,
    d: int,
    heads: Seq<A::Num>,
) -> bool {
    exists|flat: Seq<A::Num>| #[trigger]
        is_linear(ar, xs, pack, bias, b * s, flat) && is_transposed(flat, heads, b, n, s, d)
}

/// `scale` is one over the square root of the head width.
pub open spec fn is_head_scale<A: Arith>(ar: &A, head_dim: int, scale: A::Num) -> bool {
    exists|width: A::Num, root: A::Num, one: A::Num|
        {
            &&& arith::is_whole(ar, head_dim, width)
            &&& #[trigger] arith::is_sqrt(ar, width, root)
            &&& arith::is_whole(ar, 1, one)
            &&& #[trigger] arith::is_quotient(ar, one, root, scale)
        }
}

/// `ctx` is the attention of turned queries over turned keys.
pub open spec fn is_rotary_attention<A: Arith>(
    ar: &A,
    qh: Seq<A::Num>,
    kh: Seq<A::Num>,
    vh: Seq<A::Num>,
    b: int,
    s: int,
    n_heads: int,
    n_kv: int,
    head_dim: int,
    cos: Seq<A::Num>,
    sin: Seq<A::Num>,
    mask: Option<Seq<A::Num>>,
    ctx: Seq<A::Num>,
) -> bool {
    exists|qr: Seq<A::Num>, kr: Seq<A::Num>, scale: A::Num|
        {
            &&& #[trigger] is_roped(ar, qh, qr, cos, sin, b * n_heads * s, s, head_dim)
            &&& #[trigger] is_roped(ar, kh, kr, cos, sin, b * n_kv * s, s, head_dim)
            &&& #[trigger] is_head_scale(ar, head_dim, scale)
            &&& is_attention(
                ar,
                qr,
                kr,
                vh,
                mask,
                b,
                n_heads,
                n_kv,
                s,
                head_dim,
                scale,
                ctx,
            )
        }
}

/// `out` is packed multi-head attention: the query, key and value projections split into heads,
/// rotary attention over them, and the output projection of the joined heads.
pub open spec fn is_mha<A: Arith>(
    ar: &A,
    xs: Seq<A::Num>,
    b: int,
    s: int,
    q: PackModel<A::Num>,
    q_bias: Option<Seq<A::Num>>,
    k: PackModel<A::Num>,
    k_bias: Option<Seq<A::Num>>,
    v: PackModel<A::Num>,
    v_bias: Option<Seq<A::Num>>,
    o: PackModel<A::Num>,
    o_bias: Option<Seq<A::Num>>,
    n_heads: int,
    n_kv: int,
    head_dim: int,
    cos: Seq<A::Num>,
    sin: Seq<A::Num>,
    mask: Option<Seq<A::Num>>,
    out: Seq<A::Num>,
) -> bool {
    exists|
        qh: Seq<A::Num>,
        kh: Seq<A::Num>,
        vh: Seq<A::Num>,
        ctx: Seq<A::Num>,
        joined: Seq<A::Num>,
    |
        {
            &&& #[trigger] is_heads(ar, xs, q, q_bias, b, s, n_heads, head_dim, qh)
            &&& #[trigger] is_heads(ar, xs, k, k_bias, b, s, n_kv, head_dim, kh)
            &&& #[trigger] is_heads(ar, xs, v, v_bias, b, s, n_kv, head_dim, vh)
            &&& is_rotary_attention(
                ar,
                qh,
                kh,
                vh,
                b,
                s,
                n_heads,
                n_kv,
                head_dim,
                cos,
                sin,
                mask,
                ctx,
            )
            &&& #[trigger] is_transposed(ctx, joined, b, s, n_heads, head_dim)
            &&& is_linear(ar, joined, o, o_bias, b * s, out)
        }
}

/// The projection of `tokens` tokens makes at least `heads` heads of width `d`.
pub open spec fn projects<N>(
    xs_len: int,
    pack: PackModel<N>,
    bias: Option<Seq<N>>,
    tokens: int,
    heads: int,
    d: int,
) -> bool {
    &&& xs_len == tokens * pack.in_dim
    &&& applicable(pack, tokens)
    &&& bias_fits(bias, pack)
    &&& tokens * pack.out_dim >= tokens * heads * d
}

/// Packed multi-head attention with rotary positions and shared key-value heads.
pub fn packed_mha<A: Arith>(
    ar: &A,
    xs: &[A::Num],
    b: usize,
    s: usize,
    q: &TernaryPacked<A::Num>,
    q_bias: Option<&[A::Num]>,
    k: &TernaryPacked<A::Num>,
    k_bias: Option<&[A::Num]>,
    v: &TernaryPacked<A::Num>,
    v_bias: Option<&[A::Num]>,
    o: &TernaryPacked<A::Num>,
    o_bias: Option<&[A::Num]>,
    n_heads: usize,
    n_kv: usize,
    head_dim: usize,
    rope_cos: &[A::Num],
    rope_sin: &[A::Num],
    mask: Option<&[A::Num]>,
) -> (r: Vec<A::Num>)
    requires
        b * s <= usize::MAX,
        b * n_heads * s <= usize::MAX,
        b * n_kv * s <= usize::MAX,
        projects(xs@.len() as int, q@, held(q_bias), b * s, n_heads as int, head_dim as int),
        projects(xs@.len() as int, k@, held(k_bias), b * s, n_kv as int, head_dim as int),
        projects(xs@.len() as int, v@, held(v_bias), b * s, n_kv as int, head_dim as int),
        rope_cos@.len() >= s * (head_dim / 2),
        rope_sin@.len() >= s * (head_dim / 2),
        forall|hi: int|
            0 <= hi < n_heads ==> #[trigger] kv_head(n_heads as int, n_kv as int, hi) < n_kv,
        match mask {
            Some(m) => m@.len() >= b * s * s,
            None => true,
        },
        b * s * n_heads * head_dim == b * s * o.in_dim,
        applicable(o@, b * s),
        bias_fits(held(o_bias), o@),
    ensures
        r@.len() == b * s * o.out_dim,
        is_mha(
            ar,
            xs@,
            b as int,
            s as int,
            q@,
            held(q_bias),
            k@,
            held(k_bias),
            v@,
            held(v_bias),
            o@,
            held(o_bias),
            n_heads as int,
            n_kv as int,
            head_dim as int,
            rope_cos@,
            rope_sin@,
            held(mask),
            r@,
        ),
{
    let tokens: usize = b * s;
    let qv = linear_with_bias(ar, xs, q, q_bias, tokens);
    let kv = linear_with_bias(ar, xs, k, k_bias, tokens);
    let vv = linear_with_bias(ar, xs, v, v_bias, tokens);
    let mut qh = transpose_bshd_to_bhsd(qv.as_slice(), b, s, n_heads, head_dim);
    let mut kh = transpose_bshd_to_bhsd(kv.as_slice(), b, s, n_kv, head_dim);
    let vh = transpose_bshd_to_bhsd(vv.as_slice(), b, s, n_kv, head_dim);
    let ghost qh0 = qh@;
    let ghost kh0 = kh@;
    proof {
        assert(is_heads(
            ar,
            xs@,
            q@,
            held(q_bias),
            b as int,
            s as int,
            n_heads as int,
            head_dim as int,
            qh0,
        ));
        assert(is_heads(
            ar,
            xs@,
            k@,
            held(k_bias),
            b as int,
            s as int,
            n_kv as int,
            head_dim as int,
            kh0,
        ));
        assert(is_heads(
            ar,
            xs@,
            v@,
            held(v_bias),
            b as int,
            s as int,
            n_kv as int,
            head_dim as int,
            vh@,
        ));
        rope_room(b * n_heads * s, head_dim as int);
        rope_room(b * n_kv * s, head_dim as int);
    }
    apply_rope(ar, qh.as_mut_slice(), rope_cos, rope_sin, b, n_heads, s, head_dim);
    apply_rope(ar, kh.as_mut_slice(), rope_cos, rope_sin, b, n_kv, s, head_dim);
    let width = ar.whole(head_dim as i128);
    let root = ar.sqrt(width);
    let one = ar.whole(1);
    let scale = ar.over(one, root);
    proof {
        assert(arith::is_sqrt(ar, width, root));
        assert(arith::is_quotient(ar, one, root, scale));
        assert(is_head_scale(ar, head_dim as int, scale));
        assert forall|bi: int, hi: int| 0 <= bi < b && 0 <= hi < n_heads implies #[trigger] kv_end(
            n_heads as int,
            n_kv as int,
            s as int,
            head_dim as int,
            bi,
            hi,
        ) <= kh@.len() by {
            let g = bi * n_kv + kv_head(n_heads as int, n_kv as int, hi) + 1;
            assert(g * s * head_dim <= b * n_kv * s * head_dim) by (nonlinear_arith)
                requires
                    g <= bi * n_kv + n_kv,
                    0 <= bi < b,
                    0 <= n_kv,
                    0 <= s,
                    0 <= head_dim,
            ;
        }
    }
    let ctx = fused_attention(
        ar,
        qh.as_slice(),
        kh.as_slice(),
        vh.as_slice(),
        mask,
        b,
        n_heads,
        n_kv,
        s,
        head_dim,
        scale,
    );
    let joined = transpose_bhsd_to_bsd(ctx.as_slice(), b, n_heads, s, head_dim);
    proof {
        assert(is_rotary_attention(
            ar,
            qh0,
            kh0,
            vh@,
            b as int,
            s as int,
            n_heads as int,
            n_kv as int,
            head_dim as int,
            rope_cos@,
            rope_sin@,
            held(mask),
            ctx@,
        ));
    }
    linear_with_bias(ar, joined.as_slice(), o, o_bias, tokens)
}

proof fn rope_room(total: int, head_dim: int)
    requires
        0 <= head_dim,
    ensures
        total > 0 ==> (total - 1) * head_dim + 2 * (head_dim / 2) <= total * head_dim,
{
    assert((total - 1) * head_dim == total * head_dim - head_dim) by (nonlinear_arith);
}

/// `out` is a matrix of weights, one row for each output, applied to every token.
pub open spec fn is_dense_matmul<A: Arith>(
    ar: &A,
    xs: Seq<A::Num>,
    weights: Seq<A::Num>,
    tokens: int,
    out_dim: int,
    in_dim: int,
    out: Seq<A::Num>,
) -> bool {
    grid::is_grid(
        out,
        tokens,
        out_dim,
        |t: int, o: int, r: A::Num|
            is_dense_cell(ar, token(weights, in_dim, o), token(xs, in_dim, t), None, o, r),
    )
}

proof fn scaled_run<A: Arith, V>(
    ar: &A,
    vals: arith::Values<A::Num, V>,
    levels: Seq<A::Num>,
    weights: Seq<A::Num>,
    x: Seq<A::Num>,
    alpha: A::Num,
    zero: A::Num,
    p: Seq<A::Num>,
    run: Seq<A::Num>,
    start: A::Num,
    q: Seq<A::Num>,
    other: Seq<A::Num>,
    i: int,
)
    requires
        arith::is_exact(ar, vals),
        0 <= i <= levels.len(),
        levels.len() == weights.len(),
        levels.len() == x.len(),
        arith::is_whole(ar, 0, zero),
        arith::is_whole(ar, 0, start),
        arith::are_products(ar, levels, x, p),
        arith::partial_sums(ar, zero, p, run),
        arith::are_products(ar, weights, x, q),
        arith::partial_sums(ar, start, q, other),
        forall|k: int|
            0 <= k < levels.len() ==> (vals.of)(#[trigger] weights[k]) == (vals.times)(
                (vals.of)(alpha),
                (vals.of)(levels[k]),
            ),
    ensures
        (vals.times)((vals.of)(run[i]), (vals.of)(alpha)) == (vals.of)(other[i]),
    decreases i,
{
    let a = (vals.of)(alpha);
    if i == 0 {
        assert(call_ensures(A::whole, (ar, 0i128), zero));
        assert(call_ensures(A::whole, (ar, 0i128), start));
        assert(arith::vanishes(vals, a));
    } else {
        let k = i - 1;
        scaled_run(
            ar,
            vals,
            levels,
            weights,
            x,
            alpha,
            zero,
            p,
            run,
            start,
            q,
            other,
            k,
        );
        let l = (vals.of)(levels[k]);
        let y = (vals.of)(x[k]);
        assert(arith::is_product(ar, levels[k], x[k], p[k]));
        assert(arith::is_product(ar, weights[k], x[k], q[k]));
        assert(arith::is_sum(ar, run[k], p[k], run[k + 1]));
        assert(arith::is_sum(ar, other[k], q[k], other[k + 1]));
        assert((vals.of)(weights[k]) == (vals.times)(a, l));
        assert(arith::commutes(vals, (vals.times)(l, y), a));
        assert(arith::regroups(vals, a, l, y));
        assert(arith::distributes(vals, (vals.of)(run[k]), (vals.of)(p[k]), a));
    }
}

proof fn cell_by_weights<A: Arith, V>(
    ar: &A,
    vals: arith::Values<A::Num, V>,
    pack: PackModel<A::Num>,
    x: Seq<A::Num>,
    row: Seq<A::Num>,
    o: int,
    packed: A::Num,
    dense: A::Num,
)
    requires
        arith::is_exact(ar, vals),
        pack.in_dim % 4 == 0,
        x.len() == pack.in_dim,
        row.len() == pack.in_dim,
        is_linear_cell(ar, x, pack, o, packed),
        is_dense_cell(ar, row, x, None, o, dense),
        forall|i: int|
            0 <= i < pack.in_dim ==> quantize::is_weight(
                ar,
                pack.alphas[o],
                pack.level(o, i),
                #[trigger] row[i],
            ),
    ensures
        (vals.of)(packed) == (vals.of)(dense),
{
    let alpha = pack.alphas[o];
    let (w, zero, acc) = choose|w: Seq<A::Num>, zero: A::Num, acc: A::Num|
        {
            &&& #[trigger] is_level_row(ar, pack, o, w)
            &&& arith::is_whole(ar, 0, zero)
            &&& #[trigger] arith::is_dot(ar, zero, w, x.take(w.len() as int), acc)
            &&& arith::is_product(ar, acc, alpha, packed)
        };
    assert(x.take(w.len() as int) =~= x);
    let p = choose|p: Seq<A::Num>| #[trigger]
        arith::are_products(ar, w, x, p) && arith::is_total(ar, zero, p, acc);
    let run = choose|run: Seq<A::Num>| #[trigger]
        arith::partial_sums(ar, zero, p, run) && acc == run[p.len() as int];
    let none: Option<Seq<A::Num>> = None;
    let start = choose|start: A::Num|
        is_entry_or(ar, none, o, 0, start) && #[trigger] arith::is_dot(ar, start, row, x, dense);
    let q = choose|q: Seq<A::Num>| #[trigger]
        arith::are_products(ar, row, x, q) && arith::is_total(ar, start, q, dense);
    let other = choose|other: Seq<A::Num>| #[trigger]
        arith::partial_sums(ar, start, q, other) && dense == other[q.len() as int];
    assert forall|k: int| 0 <= k < w.len() implies (vals.of)(#[trigger] row[k]) == (vals.times)(
        (vals.of)(alpha),
        (vals.of)(w[k]),
    ) by {
        let level = pack.level(o, k);
        assert(quantize::is_weight(ar, alpha, level, row[k]));
        let v = choose|v: A::Num| #[trigger]
            arith::is_whole(ar, level, v) && arith::is_product(ar, alpha, v, row[k]);
        assert(arith::is_whole(ar, level, w[k]));
        assert(call_ensures(A::whole, (ar, level as i128), v));
        assert(call_ensures(A::whole, (ar, level as i128), w[k]));
    }
    scaled_run(
        ar,
        vals,
        w,
        row,
        x,
        alpha,
        zero,
        p,
        run,
        start,
        q,
        other,
        w.len() as int,
    );
}

/// Where arithmetic does not round, a packed matrix applied to every token gives what its
/// unpacked weights give: one output for each token and row, cell by cell of the same value.
pub proof fn matmul_as_unpacked<A: Arith, V>(
    ar: &A,
    vals: arith::Values<A::Num, V>,
    xs: Seq<A::Num>,
    pack: PackModel<A::Num>,
    tokens: int,
    weights: Seq<A::Num>,
    packed: Seq<A::Num>,
    dense: Seq<A::Num>,
)
    requires
        arith::is_exact(ar, vals),
        0 <= tokens,
        pack.in_dim % 4 == 0,
        xs.len() >= tokens * pack.in_dim,
        quantize::are_weights(ar, pack, weights),
        is_matmul(ar, xs, pack, tokens, packed),
        is_dense_matmul(
            ar,
            xs,
            weights,
            tokens,
            pack.out_dim as int,
            pack.in_dim as int,
            dense,
        ),
    ensures
        packed.len() == tokens * pack.out_dim,
        dense.len() == packed.len(),
        forall|i: int|
            0 <= i < packed.len() ==> (vals.of)(#[trigger] packed[i]) == (vals.of)(dense[i]),
{
    let out = pack.out_dim as int;
    let n = pack.in_dim as int;
    assert forall|i: int| 0 <= i < packed.len() implies (vals.of)(#[trigger] packed[i]) == (
    vals.of)(dense[i]) by {
        if out == 0 {
            assert(tokens * out == 0) by (nonlinear_arith)
                requires
                    out == 0,
            ;
        }
        grid::place_cell(tokens, out, i);
        let t = i / out;
        let o = i % out;
        assert(packed[i] == grid::cell(packed, out, t, o));
        assert(dense[i] == grid::cell(dense, out, t, o));
        token_place(tokens, n, t);
        token_place(out, n, o);
        let x = token(xs, n, t);
        let row = token(weights, n, o);
        assert(is_linear_cell(ar, x, pack, o, grid::cell(packed, out, t, o)));
        assert(is_dense_cell(ar, row, x, None, o, grid::cell(dense, out, t, o)));
        assert forall|k: int| 0 <= k < n implies quantize::is_weight(
            ar,
            pack.alphas[o],
            pack.level(o, k),
            #[trigger] row[k],
        ) by {
            assert(row[k] == grid::cell(weights, n, o, k));
        }
        cell_by_weights(ar, vals, pack, x, row, o, packed[i], dense[i]);
    }
}

/// `out` is a matrix of weights applied to every token, with the bias added where there is one.
pub open spec fn is_dense_linear<A: Arith>(
    ar: &A,
    xs: Seq<A::Num>,
    weights: Seq<A::Num>,
    bias: Option<Seq<A::Num>>,
    tokens: int,
    out_dim: int,
    in_dim: int,
    out: Seq<A::Num>,
) -> bool {
    match bias {
        None => is_dense_matmul(ar, xs, weights, tokens, out_dim, in_dim, out),
        Some(b) => exists|raw: Seq<A::Num>| #[trigger]
            is_dense_matmul(ar, xs, weights, tokens, out_dim, in_dim, raw) && is_biased(
                ar,
                raw,
                b,
                out,
            ),
    }
}

/// Where arithmetic does not round, a packed linear layer and the layer of its unpacked weights
/// and the same bias are one: their outputs are cell by cell of the same value.
pub proof fn linear_as_unpacked<A: Arith, V>(
    ar: &A,
    vals: arith::Values<A::Num, V>,
    xs: Seq<A::Num>,
    pack: PackModel<A::Num>,
    bias: Option<Seq<A::Num>>,
    tokens: int,
    weights: Seq<A::Num>,
    packed: Seq<A::Num>,
    dense: Seq<A::Num>,
)
    requires
        arith::is_exact(ar, vals),
        0 <= tokens,
        pack.in_dim % 4 == 0,
        xs.len() >= tokens * pack.in_dim,
        quantize::are_weights(ar, pack, weights),
        is_linear(ar, xs, pack, bias, tokens, packed),
        is_dense_linear(
            ar,
            xs,
            weights,
            bias,
            tokens,
            pack.out_dim as int,
            pack.in_dim as int,
            dense,
        ),
    ensures
        packed.len() == tokens * pack.out_dim,
        dense.len() == packed.len(),
        forall|i: int|
            0 <= i < packed.len() ==> (vals.of)(#[trigger] packed[i]) == (vals.of)(dense[i]),
{
    let out = pack.out_dim as int;
    let n = pack.in_dim as int;
    match bias {
        None => {
            matmul_as_unpacked(ar, vals, xs, pack, tokens, weights, packed, dense);
        },
        Some(b) => {
            let x = choose|raw: Seq<A::Num>| #[trigger]
                is_matmul(ar, xs, pack, tokens, raw) && is_biased(ar, raw, b, packed);
            let y = choose|raw: Seq<A::Num>| #[trigger]
                is_dense_matmul(ar, xs, weights, tokens, out, n, raw) && is_biased(
                    ar,
                    raw,
                    b,
                    dense,
                );
            matmul_as_unpacked(ar, vals, xs, pack, tokens, weights, x, y);
            assert forall|i: int| 0 <= i < packed.len() implies (vals.of)(#[trigger] packed[i])
                == (vals.of)(dense[i]) by {
                let c = b[i % b.len() as int];
                assert(arith::is_sum(ar, x[i], c, packed[i]));
                assert(arith::is_sum(ar, y[i], c, dense[i]));
                assert((vals.of)(x[i]) == (vals.of)(y[i]));
            }
        },
    }
}

} // verus!
