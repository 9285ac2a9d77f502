//! Packed and unpacked attention are one model: where arithmetic does not round and the tensor
//! operations mean what they are named for, both give the same values.

use crate::arith;
use crate::arith::{Arith, Values};
use crate::forward;
use crate::forward::{AttnRun, ContextRun, HeadsRun, Pass, ScoreRun, Site, TurnRun};
use crate::grid;
use crate::kernel_dispatch;
use crate::kernel_dispatch::{DispatchError, MaybeTernaryLinear, MhaCall, Part, RopeCache};
use crate::kernel_ref;
use crate::network::MultiHeadSelfAttention;
use crate::quantize;
use crate::quantize::PackModel;
use crate::repeat;
use crate::tensor;
use crate::tensor::DenseTensor;
use vstd::prelude::*;

verus! {

/// The values that numbers stand for, with all that attention does to them.
#[verifier::reject_recursive_types(N)]
#[verifier::reject_recursive_types(V)]
pub struct Reals<N, V> {
    /// Sums and products.
    pub ring: Values<N, V>,
    /// The difference of two values.
    pub minus: spec_fn(V, V) -> V,
    /// The quotient of two values.
    pub over: spec_fn(V, V) -> V,
    /// The value with its sign changed.
    pub negated: spec_fn(V) -> V,
    /// The exponential of a value.
    pub exp: spec_fn(V) -> V,
    /// The square root of a value.
    pub sqrt: spec_fn(V) -> V,
    /// Whether one value exceeds another.
    pub above: spec_fn(V, V) -> bool,
    /// The value below all others.
    pub lowest: V,
}

impl<N, V> Reals<N, V> {
    pub open spec fn of(self, n: N) -> V {
        (self.ring.of)(n)
    }

    pub open spec fn whole(self, n: int) -> V {
        (self.ring.whole)(n)
    }

    pub open spec fn plus(self, a: V, b: V) -> V {
        (self.ring.plus)(a, b)
    }

    pub open spec fn times(self, a: V, b: V) -> V {
        (self.ring.times)(a, b)
    }
}

/// The quotient of a sum is the sum of the quotients.
pub open spec fn shares_out<N, V>(v: Reals<N, V>, a: V, b: V, c: V) -> bool {
    (v.over)(v.plus(a, b), c) == v.plus((v.over)(a, c), (v.over)(b, c))
}

/// The quotient of a product is the product with the quotient.
pub open spec fn slips_through<N, V>(v: Reals<N, V>, a: V, b: V, c: V) -> bool {
    (v.over)(v.times(a, b), c) == v.times((v.over)(a, c), b)
}

/// Zero over a value is zero.
pub open spec fn stays_zero<N, V>(v: Reals<N, V>, a: V) -> bool {
    (v.over)(v.whole(0), a) == v.whole(0)
}

/// Quotients share out over sums and products.
pub open spec fn divide_freely<N, V>(v: Reals<N, V>) -> bool {
    &&& forall|a: V, b: V, c: V| #[trigger] shares_out(v, a, b, c)
    &&& forall|a: V, b: V, c: V| #[trigger] slips_through(v, a, b, c)
    &&& forall|a: V| #[trigger] stays_zero(v, a)
}

/// A value that adds nothing.
pub open spec fn adds_nothing<N, V>(v: Reals<N, V>, speck: V, a: V) -> bool {
    v.plus(a, speck) == a
}

/// The arithmetic does not round, and what keeps a divisor off zero adds nothing.
pub open spec fn is_exact<A: Arith, V>(ar: &A, v: Reals<A::Num, V>) -> bool {
    &&& arith::is_exact(ar, v.ring)
    &&& divide_freely(v)
    &&& forall|a: A::Num, b: A::Num, r: A::Num| #[trigger]
        arith::is_difference(ar, a, b, r) ==> v.of(r) == (v.minus)(v.of(a), v.of(b))
    &&& forall|a: A::Num, b: A::Num, r: A::Num| #[trigger]
        arith::is_quotient(ar, a, b, r) ==> v.of(r) == (v.over)(v.of(a), v.of(b))
    &&& forall|a: A::Num, r: A::Num| #[trigger]
        arith::is_negated(ar, a, r) ==> v.of(r) == (v.negated)(v.of(a))
    &&& forall|a: A::Num, r: A::Num| #[trigger]
        arith::is_exp(ar, a, r) ==> v.of(r) == (v.exp)(v.of(a))
    &&& forall|a: A::Num, r: A::Num| #[trigger]
        arith::is_sqrt(ar, a, r) ==> v.of(r) == (v.sqrt)(v.of(a))
    &&& forall|a: A::Num, b: A::Num, r: bool| #[trigger]
        arith::is_exceeds(ar, a, b, r) ==> r == (v.above)(v.of(a), v.of(b))
    &&& forall|r: A::Num| #[trigger]
        call_ensures(A::lowest, (ar,), r) ==> v.of(r) == v.lowest
    &&& forall|r: A::Num, a: V| #[trigger]
        call_ensures(A::speck, (ar,), r) ==> #[trigger] adds_nothing(v, v.of(r), a)
}

/// What numbers stand for.
pub open spec fn vals<N, V>(v: Reals<N, V>, s: Seq<N>) -> Seq<V> {
    Seq::new(s.len(), |i: int| v.of(s[i]))
}

/// What optional numbers stand for.
pub open spec fn some_vals<N, V>(v: Reals<N, V>, s: Option<Seq<N>>) -> Option<Seq<V>> {
    match s {
        Some(s) => Some(vals(v, s)),
        None => None,
    }
}

/// The sum of values, from zero on.
pub open spec fn sum<N, V>(v: Reals<N, V>, s: Seq<V>) -> V
    decreases s.len(),
{
    if s.len() == 0 {
        v.whole(0)
    } else {
        v.plus(sum(v, s.drop_last()), s.last())
    }
}

/// The products of values, one by one.
pub open spec fn products<N, V>(v: Reals<N, V>, a: Seq<V>, b: Seq<V>) -> Seq<V> {
    Seq::new(a.len(), |i: int| v.times(a[i], b[i]))
}

/// The sum of the products of values.
pub open spec fn dot<N, V>(v: Reals<N, V>, a: Seq<V>, b: Seq<V>) -> V {
    sum(v, products(v, a, b))
}

/// What a linear layer makes of one token: for each output the products of its weights with the
/// token, added up, and its bias.
pub open spec fn lin_row<N, V>(
    v: Reals<N, V>,
    w: Seq<Seq<V>>,
    bias: Option<Seq<V>>,
    x: Seq<V>,
) -> Seq<V> {
    Seq::new(
        w.len(),
        |o: int|
            match bias {
                Some(b) => v.plus(dot(v, w[o], x), b[o]),
                None => dot(v, w[o], x),
            },
    )
}

/// The weights of a pack, row by row: the scale of the row times the level.
pub open spec fn pack_rows<N, V>(v: Reals<N, V>, pack: PackModel<N>) -> Seq<Seq<V>> {
    Seq::new(
        pack.out_dim as nat,
        |o: int|
            Seq::new(
                pack.in_dim as nat,
                |i: int| v.times(v.of(pack.alphas[o]), v.whole(pack.level(o, i))),
            ),
    )
}

/// A matrix of numbers, row by row.
pub open spec fn matrix<N, V>(v: Reals<N, V>, w: Seq<N>, out: int, n: int) -> Seq<Seq<V>> {
    Seq::new(out as nat, |o: int| vals(v, kernel_ref::token(w, n, o)))
}

proof fn run_sums<A: Arith, V>(
    ar: &A,
    v: Reals<A::Num, V>,
    start: A::Num,
    terms: Seq<A::Num>,
    run: Seq<A::Num>,
    i: int,
)
    requires
        is_exact(ar, v),
        arith::is_whole(ar, 0, start),
        arith::partial_sums(ar, start, terms, run),
        0 <= i <= terms.len(),
    ensures
        v.of(run[i]) == sum(v, vals(v, terms).take(i)),
    decreases i,
{
    let all = vals(v, terms);
    if i == 0 {
        assert(call_ensures(A::whole, (ar, 0i128), start));
        assert(all.take(0).len() == 0);
    } else {
        run_sums(ar, v, start, terms, run, i - 1);
        let k = i - 1;
        assert(arith::is_sum(ar, run[k], terms[k], run[k + 1]));
        assert(all.take(i).drop_last() =~= all.take(k));
        assert(all.take(i).last() == v.of(terms[k]));
    }
}

proof fn total_stands<A: Arith, V>(
    ar: &A,
    v: Reals<A::Num, V>,
    start: A::Num,
    terms: Seq<A::Num>,
    r: A::Num,
)
    requires
        is_exact(ar, v),
        arith::is_whole(ar, 0, start),
        arith::is_total(ar, start, terms, r),
    ensures
        v.of(r) == sum(v, vals(v, terms)),
{
    let run = choose|run: Seq<A::Num>| #[trigger]
        arith::partial_sums(ar, start, terms, run) && r == run[terms.len() as int];
    run_sums(ar, v, start, terms, run, terms.len() as int);
    assert(vals(v, terms).take(terms.len() as int) =~= vals(v, terms));
}

proof fn dot_stands<A: Arith, V>(
    ar: &A,
    v: Reals<A::Num, V>,
    start: A::Num,
    a: Seq<A::Num>,
    b: Seq<A::Num>,
    r: A::Num,
)
    requires
        is_exact(ar, v),
        arith::is_whole(ar, 0, start),
        a.len() == b.len(),
        arith::is_dot(ar, start, a, b, r),
    ensures
        v.of(r) == dot(v, vals(v, a), vals(v, b)),
{
    let p = choose|p: Seq<A::Num>| #[trigger]
        arith::are_products(ar, a, b, p) && arith::is_total(ar, start, p, r);
    total_stands(ar, v, start, p, r);
    assert forall|i: int| 0 <= i < a.len() implies #[trigger] vals(v, p)[i] == products(
        v,
        vals(v, a),
        vals(v, b),
    )[i] by {
        assert(arith::is_product(ar, a[i], b[i], p[i]));
    }
    assert(vals(v, p) =~= products(v, vals(v, a), vals(v, b)));
}

proof fn scaled_dot<N, V>(v: Reals<N, V>, l: Seq<V>, x: Seq<V>, a: V, w: Seq<V>, k: int)
    requires
        arith::multiply_freely(v.ring),
        0 <= k <= l.len(),
        l.len() == x.len(),
        w.len() == l.len(),
        forall|i: int| 0 <= i < l.len() ==> #[trigger] w[i] == v.times(a, l[i]),
    ensures
        v.times(sum(v, products(v, l, x).take(k)), a) == sum(v, products(v, w, x).take(k)),
    decreases k,
{
    let p = products(v, l, x);
    let q = products(v, w, x);
    if k == 0 {
        assert(arith::vanishes(v.ring, a));
    } else {
        let i = k - 1;
        scaled_dot(v, l, x, a, w, i);
        assert(p.take(k).drop_last() =~= p.take(i));
        assert(q.take(k).drop_last() =~= q.take(i));
        assert(w[i] == v.times(a, l[i]));
        assert(arith::commutes(v.ring, v.times(l[i], x[i]), a));
        assert(arith::regroups(v.ring, a, l[i], x[i]));
        assert(arith::distributes(v.ring, sum(v, p.take(i)), p[i], a));
    }
}

proof fn cell_stands<A: Arith, V>(
    ar: &A,
    v: Reals<A::Num, V>,
    x: Seq<A::Num>,
    pack: PackModel<A::Num>,
    o: int,
    r: A::Num,
)
    requires
        is_exact(ar, v),
        pack.in_dim % 4 == 0,
        x.len() == pack.in_dim,
        0 <= o < pack.out_dim,
        kernel_ref::is_linear_cell(ar, x, pack, o, r),
    ensures
        v.of(r) == dot(v, pack_rows(v, pack)[o], vals(v, x)),
{
    let (l, zero, acc) = choose|w: Seq<A::Num>, zero: A::Num, acc: A::Num|
        {
            &&& #[trigger] kernel_ref::is_level_row(ar, pack, o, w)
            &&& arith::is_whole(ar, 0, zero)
            &&& #[trigger] arith::is_dot(ar, zero, w, x.take(w.len() as int), acc)
            &&& arith::is_product(ar, acc, pack.alphas[o], r)
        };
    assert(x.take(l.len() as int) =~= x);
    dot_stands(ar, v, zero, l, x, acc);
    let w = pack_rows(v, pack)[o];
    let a = v.of(pack.alphas[o]);
    assert forall|i: int| 0 <= i < l.len() implies #[trigger] w[i] == v.times(a, vals(v, l)[i]) by {
        assert(arith::is_whole(ar, pack.level(o, i), l[i]));
        assert(call_ensures(A::whole, (ar, pack.level(o, i) as i128), l[i]));
    }
    let n = l.len() as int;
    scaled_dot(v, vals(v, l), vals(v, x), a, w, n);
    assert(products(v, vals(v, l), vals(v, x)).take(n) =~= products(v, vals(v, l), vals(v, x)));
    assert(products(v, w, vals(v, x)).take(n) =~= products(v, w, vals(v, x)));
}

pub(crate) proof fn linear_stands<A: Arith, V>(
    ar: &A,
    v: Reals<A::Num, V>,
    xs: Seq<A::Num>,
    pack: PackModel<A::Num>,
    bias: Option<Seq<A::Num>>,
    tokens: int,
    out: Seq<A::Num>,
    t: int,
)
    requires
        is_exact(ar, v),
        pack.in_dim % 4 == 0,
        0 <= t < tokens,
        xs.len() >= tokens * pack.in_dim,
        kernel_ref::bias_fits(bias, pack),
        kernel_ref::is_linear(ar, xs, pack, bias, tokens, out),
    ensures
        out.len() == tokens * pack.out_dim,
        vals(v, kernel_ref::token(out, pack.out_dim as int, t)) == lin_row(
            v,
            pack_rows(v, pack),
            some_vals(v, bias),
            vals(v, kernel_ref::token(xs, pack.in_dim as int, t)),
        ),
{
    let n = pack.out_dim as int;
    let x = kernel_ref::token(xs, pack.in_dim as int, t);
    kernel_ref::token_place(tokens, pack.in_dim as int, t);
    kernel_ref::token_place(tokens, n, t);
    let raw = match bias {
        None => out,
        Some(b) => choose|raw: Seq<A::Num>| #[trigger]
            kernel_ref::is_matmul(ar, xs, pack, tokens, raw) && kernel_ref::is_biased(
                ar,
                raw,
                b,
                out,
            ),
    };
    let row = lin_row(v, pack_rows(v, pack), some_vals(v, bias), vals(v, x));
    let got = vals(v, kernel_ref::token(out, n, t));
    assert forall|o: int| 0 <= o < n implies #[trigger] got[o] == row[o] by {
        grid::cell_place(tokens, n, t, o);
        let c = grid::cell(raw, n, t, o);
        assert(kernel_ref::is_linear_cell(ar, x, pack, o, c));
        cell_stands(ar, v, x, pack, o, c);
        let i = t * n + o;
        if let Some(b) = bias {
            assert(arith::is_sum(ar, raw[i], b[i % b.len() as int], out[i]));
        }
    }
    assert(got =~= row);
}

/// What attention works on: inputs by batch and position, weights and biases of the projections,
/// angles by position, and a mask by batch and query position.
#[verifier::reject_recursive_types(V)]
pub struct Scene<V> {
    pub x: spec_fn(int, int) -> Seq<V>,
    pub wq: Seq<Seq<V>>,
    pub bq: Option<Seq<V>>,
    pub wk: Seq<Seq<V>>,
    pub bk: Option<Seq<V>>,
    pub wv: Seq<Seq<V>>,
    pub bv: Option<Seq<V>>,
    pub wo: Seq<Seq<V>>,
    pub bo: Option<Seq<V>>,
    pub cos: spec_fn(int) -> Seq<V>,
    pub sin: spec_fn(int) -> Seq<V>,
    pub mask: Option<spec_fn(int, int) -> Seq<V>>,
    /// The length of a sequence.
    pub s: int,
    /// How many query heads there are.
    pub h: int,
    /// How many key-value heads there are.
    pub kv: int,
    /// The width of a head.
    pub d: int,
}

/// Head `k` of a row of heads.
pub open spec fn part<V>(x: Seq<V>, d: int, k: int) -> Seq<V> {
    x.subrange(k * d, k * d + d)
}

/// A row turned by angles: its halves `x1` and `x2` become `x1 * cos - x2 * sin` and
/// `x1 * sin + x2 * cos`.
pub open spec fn turned<N, V>(v: Reals<N, V>, x: Seq<V>, cos: Seq<V>, sin: Seq<V>) -> Seq<V> {
    let half = cos.len() as int;
    Seq::new(
        (half + half) as nat,
        |l: int|
            if l < half {
                (v.minus)(v.times(x[l], cos[l]), v.times(x[half + l], sin[l]))
            } else {
                v.plus(v.times(x[l - half], sin[l - half]), v.times(x[l], cos[l - half]))
            },
    )
}

/// The turned query of batch `b`, head `i` and position `p`.
pub open spec fn q_row<N, V>(v: Reals<N, V>, c: Scene<V>, b: int, i: int, p: int) -> Seq<V> {
    turned(v, part(lin_row(v, c.wq, c.bq, (c.x)(b, p)), c.d, i), (c.cos)(p), (c.sin)(p))
}

/// The turned key of batch `b`, key-value head `g` and position `p`.
pub open spec fn k_row<N, V>(v: Reals<N, V>, c: Scene<V>, b: int, g: int, p: int) -> Seq<V> {
    turned(v, part(lin_row(v, c.wk, c.bk, (c.x)(b, p)), c.d, g), (c.cos)(p), (c.sin)(p))
}

/// The value of batch `b`, key-value head `g` and position `p`.
pub open spec fn v_row<N, V>(v: Reals<N, V>, c: Scene<V>, b: int, g: int, p: int) -> Seq<V> {
    part(lin_row(v, c.wv, c.bv, (c.x)(b, p)), c.d, g)
}

/// One over the root of the head width.
pub open spec fn head_scale<N, V>(v: Reals<N, V>, d: int) -> V {
    (v.over)(v.whole(1), (v.sqrt)(v.whole(d)))
}

/// The score of a query against a key, with its mask entry where there is one.
pub open spec fn score<N, V>(v: Reals<N, V>, d: int, q: Seq<V>, k: Seq<V>, mask: Option<V>) -> V {
    let raw = v.times(dot(v, q, k), head_scale(v, d));
    match mask {
        Some(m) => v.plus(raw, m),
        None => raw,
    }
}

/// The mask entries of batch `b` and query position `p`.
pub open spec fn mask_at<V>(mask: Option<spec_fn(int, int) -> Seq<V>>, b: int, p: int) -> Option<
    Seq<V>,
> {
    match mask {
        Some(m) => Some(m(b, p)),
        None => None,
    }
}

/// One entry of an optional row.
pub open spec fn entry<V>(row: Option<Seq<V>>, k: int) -> Option<V> {
    match row {
        Some(r) => Some(r[k]),
        None => None,
    }
}

/// The scores of the query of batch `b`, head `i` and position `p`.
pub open spec fn score_row<N, V>(v: Reals<N, V>, c: Scene<V>, b: int, i: int, p: int) -> Seq<V> {
    Seq::new(
        c.s as nat,
        |k: int|
            score(
                v,
                c.d,
                q_row(v, c, b, i, p),
                k_row(v, c, b, kernel_ref::kv_head(c.h, c.kv, i), k),
                entry(mask_at(c.mask, b, p), k),
            ),
    )
}

/// The largest of the values.
pub open spec fn peak<N, V>(v: Reals<N, V>, s: Seq<V>) -> V
    decreases s.len(),
{
    if s.len() == 0 {
        v.lowest
    } else {
        let before = peak(v, s.drop_last());
        if (v.above)(s.last(), before) {
            s.last()
        } else {
            before
        }
    }
}

/// The exponentials of how far scores are below the largest.
pub open spec fn weights<N, V>(v: Reals<N, V>, s: Seq<V>) -> Seq<V> {
    Seq::new(s.len(), |i: int| (v.exp)((v.minus)(s[i], peak(v, s))))
}

/// Entry `l` of every row.
pub open spec fn column<V>(rows: spec_fn(int) -> Seq<V>, s: int, l: int) -> Seq<V> {
    Seq::new(s as nat, |k: int| rows(k)[l])
}

/// The rows of values weighed by scores.
pub open spec fn attended<N, V>(
    v: Reals<N, V>,
    scores: Seq<V>,
    rows: spec_fn(int) -> Seq<V>,
    d: int,
) -> Seq<V> {
    let w = weights(v, scores);
    Seq::new(
        d as nat,
        |l: int| (v.over)(dot(v, w, column(rows, scores.len() as int, l)), sum(v, w)),
    )
}

/// The values of batch `b` and key-value head `g`, by position.
pub open spec fn v_rows<N, V>(v: Reals<N, V>, c: Scene<V>, b: int, g: int) -> spec_fn(
    int,
) -> Seq<V> {
    |k: int| v_row(v, c, b, g, k)
}

/// What the query of batch `b`, head `i` and position `p` reads.
pub open spec fn ctx_row<N, V>(v: Reals<N, V>, c: Scene<V>, b: int, i: int, p: int) -> Seq<V> {
    attended(
        v,
        score_row(v, c, b, i, p),
        v_rows(v, c, b, kernel_ref::kv_head(c.h, c.kv, i)),
        c.d,
    )
}

/// The heads of batch `b` and position `p`, side by side.
pub open spec fn joined_row<N, V>(v: Reals<N, V>, c: Scene<V>, b: int, p: int) -> Seq<V> {
    Seq::new((c.h * c.d) as nat, |m: int| ctx_row(v, c, b, m / c.d, p)[m % c.d])
}

/// What attention gives for batch `b` and position `p`.
pub open spec fn out_row<N, V>(v: Reals<N, V>, c: Scene<V>, b: int, p: int) -> Seq<V> {
    lin_row(v, c.wo, c.bo, joined_row(v, c, b, p))
}

proof fn token_part<N>(flat: Seq<N>, tokens: int, n: int, d: int, t: int, i: int)
    requires
        0 <= t < tokens,
        0 <= i < n,
        0 < d,
        flat.len() == tokens * (n * d),
    ensures
        kernel_ref::token(flat, d, t * n + i) == part(kernel_ref::token(flat, n * d, t), d, i),
        0 <= i * d,
        i * d + d <= n * d,
        (t * n + i) * d + d <= flat.len(),
        0 <= (t * n + i) * d,
{
    let w = n * d;
    assert((t * n + i) * d == t * w + i * d) by (nonlinear_arith)
        requires
            w == n * d,
    ;
    assert(0 <= i * d && i * d + d <= w) by (nonlinear_arith)
        requires
            w == n * d,
            0 <= i < n,
            0 < d,
    ;
    kernel_ref::token_place(tokens, w, t);
    assert(kernel_ref::token(flat, d, t * n + i) =~= part(kernel_ref::token(flat, w, t), d, i));
}

proof fn vals_part<N, V>(v: Reals<N, V>, x: Seq<N>, d: int, i: int)
    requires
        0 <= i * d,
        0 <= d,
        i * d + d <= x.len(),
    ensures
        vals(v, part(x, d, i)) == part(vals(v, x), d, i),
{
    assert(vals(v, part(x, d, i)) =~= part(vals(v, x), d, i));
}

proof fn heads_stand<A: Arith, V>(
    ar: &A,
    v: Reals<A::Num, V>,
    xs: Seq<A::Num>,
    pack: PackModel<A::Num>,
    bias: Option<Seq<A::Num>>,
    b: int,
    s: int,
    n: int,
    d: int,
    heads: Seq<A::Num>,
    bi: int,
    hi: int,
    p: int,
)
    requires
        is_exact(ar, v),
        pack.in_dim % 4 == 0,
        pack.out_dim == n * d,
        0 < d,
        0 <= bi < b,
        0 <= hi < n,
        0 <= p < s,
        xs.len() >= b * s * pack.in_dim,
        kernel_ref::bias_fits(bias, pack),
        kernel_ref::is_heads(ar, xs, pack, bias, b, s, n, d, heads),
    ensures
        vals(v, kernel_ref::token(heads, d, kernel_ref::head_row(n, s, bi, hi, p))) == part(
            lin_row(
                v,
                pack_rows(v, pack),
                some_vals(v, bias),
                vals(v, kernel_ref::token(xs, pack.in_dim as int, bi * s + p)),
            ),
            d,
            hi,
        ),
        heads.len() == b * n * s * d,
{
    let flat = choose|flat: Seq<A::Num>| #[trigger]
        kernel_ref::is_linear(ar, xs, pack, bias, b * s, flat) && kernel_ref::is_transposed(
            flat,
            heads,
            b,
            n,
            s,
            d,
        );
    let t = bi * s + p;
    grid::cell_place(b, s, bi, p);
    linear_stands(ar, v, xs, pack, bias, b * s, flat, t);
    token_part(flat, b * s, n, d, t, hi);
    assert(kernel_ref::head_row(s, n, bi, p, hi) == t * n + hi);
    kernel_ref::token_place(b * s, n * d, t);
    vals_part(v, kernel_ref::token(flat, n * d, t), d, hi);
}

proof fn roped_stands<A: Arith, V>(
    ar: &A,
    v: Reals<A::Num, V>,
    xs: Seq<A::Num>,
    out: Seq<A::Num>,
    cos: Seq<A::Num>,
    sin: Seq<A::Num>,
    total: int,
    seq: int,
    d: int,
    t: int,
)
    requires
        is_exact(ar, v),
        0 < d,
        d % 2 == 0,
        0 < seq,
        0 <= t < total,
        xs.len() == total * d,
        cos.len() == seq * (d / 2),
        sin.len() == seq * (d / 2),
        kernel_ref::is_roped(ar, xs, out, cos, sin, total, seq, d),
    ensures
        vals(v, kernel_ref::token(out, d, t)) == turned(
            v,
            vals(v, kernel_ref::token(xs, d, t)),
            vals(v, kernel_ref::token(cos, d / 2, t % seq)),
            vals(v, kernel_ref::token(sin, d / 2, t % seq)),
        ),
{
    let half = d / 2;
    let p = t % seq;
    kernel_ref::token_place(total, d, t);
    kernel_ref::token_place(seq, half, p);
    let x = vals(v, kernel_ref::token(xs, d, t));
    let c = vals(v, kernel_ref::token(cos, half, p));
    let n = vals(v, kernel_ref::token(sin, half, p));
    let got = vals(v, kernel_ref::token(out, d, t));
    let want = turned(v, x, c, n);
    assert forall|l: int| 0 <= l < d implies #[trigger] got[l] == want[l] by {
        let i = if l < half {
            l
        } else {
            l - half
        };
        let x1 = grid::cell(xs, d, t, i);
        let x2 = grid::cell(xs, d, t, half + i);
        let r1 = grid::cell(out, d, t, i);
        let r2 = grid::cell(out, d, t, half + i);
        let cc = cos[p * half + i];
        let ss = sin[p * half + i];
        assert(kernel_ref::is_rotated(ar, x1, x2, cc, ss, r1, r2));
        rotated_stands(ar, v, x1, x2, cc, ss, r1, r2);
        assert(x[i] == v.of(x1) && x[half + i] == v.of(x2));
        assert(c[i] == v.of(cc) && n[i] == v.of(ss));
        assert(got[i] == v.of(r1) && got[half + i] == v.of(r2));
    }
    assert(got =~= want);
}

proof fn rotated_stands<A: Arith, V>(
    ar: &A,
    v: Reals<A::Num, V>,
    x1: A::Num,
    x2: A::Num,
    c: A::Num,
    sn: A::Num,
    r1: A::Num,
    r2: A::Num,
)
    requires
        is_exact(ar, v),
        kernel_ref::is_rotated(ar, x1, x2, c, sn, r1, r2),
    ensures
        v.of(r1) == (v.minus)(v.times(v.of(x1), v.of(c)), v.times(v.of(x2), v.of(sn))),
        v.of(r2) == v.plus(v.times(v.of(x1), v.of(sn)), v.times(v.of(x2), v.of(c))),
{
}

proof fn peak_run_stands<A: Arith, V>(
    ar: &A,
    v: Reals<A::Num, V>,
    scores: Seq<A::Num>,
    run: Seq<A::Num>,
    i: int,
)
    requires
        is_exact(ar, v),
        kernel_ref::is_peak_run(ar, scores, run),
        0 <= i <= scores.len(),
    ensures
        v.of(run[i]) == peak(v, vals(v, scores).take(i)),
    decreases i,
{
    let all = vals(v, scores);
    if i > 0 {
        let k = i - 1;
        peak_run_stands(ar, v, scores, run, k);
        assert(kernel_ref::is_larger(ar, scores[k], run[k], run[k + 1]));
        assert(all.take(i).drop_last() =~= all.take(k));
        assert(all.take(i).last() == v.of(scores[k]));
    }
}

proof fn peak_stands<A: Arith, V>(
    ar: &A,
    v: Reals<A::Num, V>,
    scores: Seq<A::Num>,
    r: A::Num,
)
    requires
        is_exact(ar, v),
        kernel_ref::is_peak(ar, scores, r),
    ensures
        v.of(r) == peak(v, vals(v, scores)),
{
    let run = choose|run: Seq<A::Num>| #[trigger]
        kernel_ref::is_peak_run(ar, scores, run) && r == run[scores.len() as int];
    peak_run_stands(ar, v, scores, run, scores.len() as int);
    assert(vals(v, scores).take(scores.len() as int) =~= vals(v, scores));
}

proof fn score_stands<A: Arith, V>(
    ar: &A,
    v: Reals<A::Num, V>,
    d: int,
    q: Seq<A::Num>,
    k: Seq<A::Num>,
    scale: A::Num,
    mask: Option<A::Num>,
    r: A::Num,
)
    requires
        is_exact(ar, v),
        q.len() == k.len(),
        v.of(scale) == head_scale(v, d),
        kernel_ref::is_score(ar, q, k, scale, mask, r),
    ensures
        v.of(r) == score(
            v,
            d,
            vals(v, q),
            vals(v, k),
            match mask {
                Some(m) => Some(v.of(m)),
                None => None,
            },
        ),
{
    let (zero, raw, scaled) = choose|zero: A::Num, raw: A::Num, scaled: A::Num|
        {
            &&& arith::is_whole(ar, 0, zero)
            &&& #[trigger] arith::is_dot(ar, zero, q, k, raw)
            &&& #[trigger] arith::is_product(ar, raw, scale, scaled)
            &&& match mask {
                Some(m) => arith::is_sum(ar, scaled, m, r),
                None => r == scaled,
            }
        };
    dot_stands(ar, v, zero, q, k, raw);
}

/// Entry `i` of the scores is that of a query against row `at` of a table of keys.
spec fn is_scored<N, V>(
    v: Reals<N, V>,
    d: int,
    query: Seq<N>,
    k: Seq<N>,
    at: int,
    mask: Option<Seq<N>>,
    scores: Seq<V>,
    i: int,
) -> bool {
    &&& 0 <= at * d
    &&& at * d + d <= k.len()
    &&& scores[i] == score(
        v,
        d,
        vals(v, query),
        vals(v, kernel_ref::token(k, d, at)),
        entry(some_vals(v, mask), i),
    )
}

/// Row `i` of the values is row `at` of a table.
spec fn is_valued<N, V>(
    v: Reals<N, V>,
    d: int,
    vs: Seq<N>,
    at: int,
    rows: spec_fn(int) -> Seq<V>,
    i: int,
) -> bool {
    &&& 0 <= at * d
    &&& at * d + d <= vs.len()
    &&& rows(i) == vals(v, kernel_ref::token(vs, d, at))
}

proof fn attended_stands<A: Arith, V>(
    ar: &A,
    v: Reals<A::Num, V>,
    query: Seq<A::Num>,
    k: Seq<A::Num>,
    vs: Seq<A::Num>,
    base: int,
    s: int,
    d: int,
    scale: A::Num,
    mask: Option<Seq<A::Num>>,
    out: Seq<A::Num>,
    scores: Seq<V>,
    rows: spec_fn(int) -> Seq<V>,
)
    requires
        is_exact(ar, v),
        0 <= s,
        0 < d,
        v.of(scale) == head_scale(v, d),
        query.len() == d,
        mask matches Some(m) ==> m.len() == s,
        scores.len() == s,
        forall|i: int|
            0 <= i < s ==> #[trigger] is_scored(v, d, query, k, base + i, mask, scores, i),
        forall|i: int| 0 <= i < s ==> #[trigger] is_valued(v, d, vs, base + i, rows, i),
        kernel_ref::is_attended_row(ar, query, k, vs, base, s, d, scale, mask, out),
    ensures
        vals(v, out) == attended(v, scores, rows, d),
{
    let (sc, pk, wt, dn) = choose|
        sc: Seq<A::Num>,
        pk: A::Num,
        wt: Seq<A::Num>,
        dn: A::Num,
    |
        {
            &&& sc.len() == s
            &&& kernel_ref::are_scores(ar, query, k, base, d, scale, mask, sc)
            &&& kernel_ref::is_peak(ar, sc, pk)
            &&& #[trigger] kernel_ref::are_softmax_weights(ar, sc, pk, wt)
            &&& #[trigger] kernel_ref::is_denominator(ar, wt, dn)
            &&& forall|i: int|
                0 <= i < d ==> kernel_ref::is_attended(
                    ar,
                    wt,
                    kernel_ref::value_column(vs, base, s, d, i),
                    dn,
                    #[trigger] out[i],
                )
        };
    assert forall|i: int| 0 <= i < s implies #[trigger] vals(v, sc)[i] == scores[i] by {
        let key = kernel_ref::token(k, d, base + i);
        assert(is_scored(v, d, query, k, base + i, mask, scores, i));
        let m = match mask {
            Some(m) => Some(m[i]),
            None => None,
        };
        assert(kernel_ref::is_score(ar, query, key, scale, m, sc[i]));
        score_stands(ar, v, d, query, key, scale, m, sc[i]);
    }
    assert(vals(v, sc) =~= scores);
    peak_stands(ar, v, sc, pk);
    let w = weights(v, scores);
    assert forall|i: int| 0 <= i < s implies #[trigger] vals(v, wt)[i] == w[i] by {
        assert(kernel_ref::is_softmax_weight(ar, sc[i], pk, wt[i]));
        assert(scores[i] == v.of(sc[i]));
    }
    assert(vals(v, wt) =~= w);
    denominator_stands(ar, v, wt, dn);
    let want = attended(v, scores, rows, d);
    assert forall|l: int| 0 <= l < d implies #[trigger] vals(v, out)[l] == want[l] by {
        let col = kernel_ref::value_column(vs, base, s, d, l);
        assert(kernel_ref::is_attended(ar, wt, col, dn, out[l]));
        assert forall|i: int| 0 <= i < s implies #[trigger] vals(v, col)[i] == column(
            rows,
            s,
            l,
        )[i] by {
            assert(is_valued(v, d, vs, base + i, rows, i));
            assert(kernel_ref::token(vs, d, base + i)[l] == grid::cell(vs, d, base + i, l));
        }
        assert(vals(v, col) =~= column(rows, s, l));
        quotient_stands(ar, v, wt, col, dn, out[l]);
    }
    assert(vals(v, out) =~= want);
}

proof fn denominator_stands<A: Arith, V>(
    ar: &A,
    v: Reals<A::Num, V>,
    wt: Seq<A::Num>,
    dn: A::Num,
)
    requires
        is_exact(ar, v),
        kernel_ref::is_denominator(ar, wt, dn),
    ensures
        v.of(dn) == sum(v, vals(v, wt)),
{
    let (zero, total, speck) = choose|zero: A::Num, total: A::Num, speck: A::Num|
        {
            &&& arith::is_whole(ar, 0, zero)
            &&& #[trigger] arith::is_total(ar, zero, wt, total)
            &&& call_ensures(A::speck, (ar,), speck)
            &&& #[trigger] arith::is_sum(ar, total, speck, dn)
        };
    total_stands(ar, v, zero, wt, total);
    assert(adds_nothing(v, v.of(speck), v.of(total)));
}

proof fn quotient_stands<A: Arith, V>(
    ar: &A,
    v: Reals<A::Num, V>,
    wt: Seq<A::Num>,
    col: Seq<A::Num>,
    dn: A::Num,
    r: A::Num,
)
    requires
        is_exact(ar, v),
        wt.len() == col.len(),
        kernel_ref::is_attended(ar, wt, col, dn, r),
    ensures
        v.of(r) == (v.over)(dot(v, vals(v, wt), vals(v, col)), v.of(dn)),
{
    let (zero, acc) = choose|zero: A::Num, acc: A::Num|
        {
            &&& arith::is_whole(ar, 0, zero)
            &&& #[trigger] arith::is_dot(ar, zero, wt, col, acc)
            &&& arith::is_quotient(ar, acc, dn, r)
        };
    dot_stands(ar, v, zero, wt, col, acc);
}

/// Numbers that stand in a table of sequences, by batch and position.
pub open spec fn sequence_rows<N, V>(v: Reals<N, V>, xs: Seq<N>, s: int, width: int) -> spec_fn(
    int,
    int,
) -> Seq<V> {
    |b: int, p: int| vals(v, kernel_ref::token(xs, width, b * s + p))
}

/// Numbers that stand in a table, by row.
pub open spec fn table_rows<N, V>(v: Reals<N, V>, xs: Seq<N>, width: int) -> spec_fn(
    int,
) -> Seq<V> {
    |p: int| vals(v, kernel_ref::token(xs, width, p))
}

/// What packed attention works on.
pub open spec fn packed_scene<N, V>(
    v: Reals<N, V>,
    xs: Seq<N>,
    s: int,
    q: PackModel<N>,
    q_bias: Option<Seq<N>>,
    k: PackModel<N>,
    k_bias: Option<Seq<N>>,
    w: PackModel<N>,
    w_bias: Option<Seq<N>>,
    o: PackModel<N>,
    o_bias: Option<Seq<N>>,
    h: int,
    kv: int,
    d: int,
    cos: Seq<N>,
    sin: Seq<N>,
    mask: Option<Seq<N>>,
) -> Scene<V> {
    Scene {
        x: sequence_rows(v, xs, s, q.in_dim as int),
        wq: pack_rows(v, q),
        bq: some_vals(v, q_bias),
        wk: pack_rows(v, k),
        bk: some_vals(v, k_bias),
        wv: pack_rows(v, w),
        bv: some_vals(v, w_bias),
        wo: pack_rows(v, o),
        bo: some_vals(v, o_bias),
        cos: table_rows(v, cos, d / 2),
        sin: table_rows(v, sin, d / 2),
        mask: match mask {
            Some(m) => Some(sequence_rows(v, m, s, s)),
            None => None,
        },
        s,
        h,
        kv,
        d,
    }
}

/// The projections of packed attention fit heads that wide.
pub open spec fn packs_fit<N>(
    q: PackModel<N>,
    q_bias: Option<Seq<N>>,
    k: PackModel<N>,
    k_bias: Option<Seq<N>>,
    w: PackModel<N>,
    w_bias: Option<Seq<N>>,
    o: PackModel<N>,
    o_bias: Option<Seq<N>>,
    h: int,
    kv: int,
    d: int,
) -> bool {
    &&& 0 < kv <= h <= usize::MAX
    &&& h % kv == 0
    &&& 0 < d <= usize::MAX
    &&& d % 2 == 0
    &&& q.in_dim % 4 == 0
    &&& k.in_dim == q.in_dim
    &&& w.in_dim == q.in_dim
    &&& o.in_dim % 4 == 0
    &&& o.in_dim == h * d
    &&& q.out_dim == h * d
    &&& k.out_dim == kv * d
    &&& w.out_dim == kv * d
    &&& kernel_ref::bias_fits(q_bias, q)
    &&& kernel_ref::bias_fits(k_bias, k)
    &&& kernel_ref::bias_fits(w_bias, w)
    &&& kernel_ref::bias_fits(o_bias, o)
}

proof fn scale_stands<A: Arith, V>(ar: &A, v: Reals<A::Num, V>, d: int, scale: A::Num)
    requires
        is_exact(ar, v),
        0 < d <= usize::MAX,
        kernel_ref::is_head_scale(ar, d, scale),
    ensures
        v.of(scale) == head_scale(v, d),
{
    let (width, root, one) = choose|width: A::Num, root: A::Num, one: A::Num|
        {
            &&& arith::is_whole(ar, d, width)
            &&& #[trigger] arith::is_sqrt(ar, width, root)
            &&& arith::is_whole(ar, 1, one)
            &&& #[trigger] arith::is_quotient(ar, one, root, scale)
        };
    assert(call_ensures(A::whole, (ar, d as i128), width));
    assert(call_ensures(A::whole, (ar, 1i128), one));
}

proof fn row_of_heads(b: int, n: int, s: int, d: int, len: int, bi: int, hi: int, p: int)
    requires
        0 <= bi < b,
        0 <= hi < n,
        0 <= p < s,
        0 < d,
        len == b * n * s * d,
    ensures
        ({
            let r = kernel_ref::head_row(n, s, bi, hi, p);
            &&& 0 <= r < b * n * s
            &&& r % s == p
            &&& 0 <= r * d
            &&& r * d + d <= len
        }),
{
    kernel_ref::head_row_place(b, n, s, bi, hi, p);
    kernel_ref::token_place(b * n * s, d, kernel_ref::head_row(n, s, bi, hi, p));
}

#[verifier::rlimit(60)]
proof fn context_stands<A: Arith, V>(
    ar: &A,
    v: Reals<A::Num, V>,
    c: Scene<V>,
    b: int,
    qh: Seq<A::Num>,
    kh: Seq<A::Num>,
    vh: Seq<A::Num>,
    cos: Seq<A::Num>,
    sin: Seq<A::Num>,
    mask: Option<Seq<A::Num>>,
    ctx: Seq<A::Num>,
    bi: int,
    hi: int,
    p: int,
)
    requires
        is_exact(ar, v),
        0 < c.kv <= c.h <= usize::MAX,
        c.h % c.kv == 0,
        0 < c.d <= usize::MAX,
        c.d % 2 == 0,
        0 <= bi < b,
        0 <= hi < c.h,
        0 <= p < c.s,
        qh.len() == b * c.h * c.s * c.d,
        kh.len() == b * c.kv * c.s * c.d,
        vh.len() == b * c.kv * c.s * c.d,
        cos.len() == c.s * (c.d / 2),
        sin.len() == c.s * (c.d / 2),
        c.cos == table_rows(v, cos, c.d / 2),
        c.sin == table_rows(v, sin, c.d / 2),
        mask matches Some(m) ==> m.len() == b * c.s * c.s,
        c.mask == match mask {
            Some(m) => Some(sequence_rows(v, m, c.s, c.s)),
            None => None,
        },
        forall|x: int, y: int, z: int|
            0 <= x < b && 0 <= y < c.h && 0 <= z < c.s ==> vals(
                v,
                kernel_ref::token(qh, c.d, #[trigger] kernel_ref::head_row(c.h, c.s, x, y, z)),
            ) == part(lin_row(v, c.wq, c.bq, (c.x)(x, z)), c.d, y),
        forall|x: int, y: int, z: int|
            0 <= x < b && 0 <= y < c.kv && 0 <= z < c.s ==> vals(
                v,
                kernel_ref::token(kh, c.d, #[trigger] kernel_ref::head_row(c.kv, c.s, x, y, z)),
            ) == part(lin_row(v, c.wk, c.bk, (c.x)(x, z)), c.d, y),
        forall|x: int, y: int, z: int|
            0 <= x < b && 0 <= y < c.kv && 0 <= z < c.s ==> vals(
                v,
                kernel_ref::token(vh, c.d, #[trigger] kernel_ref::head_row(c.kv, c.s, x, y, z)),
            ) == v_row(v, c, x, y, z),
        kernel_ref::is_rotary_attention(
            ar,
            qh,
            kh,
            vh,
            b,
            c.s,
            c.h,
            c.kv,
            c.d,
            cos,
            sin,
            mask,
            ctx,
        ),
    ensures
        vals(
            v,
            kernel_ref::token(ctx, c.d, kernel_ref::head_row(c.h, c.s, bi, hi, p)),
        ) == ctx_row(v, c, bi, hi, p),
        ctx.len() == b * c.h * c.s * c.d,
{
    let (s, h, kv, d) = (c.s, c.h, c.kv, c.d);
    let (qr, kr, scale) = choose|qr: Seq<A::Num>, kr: Seq<A::Num>, scale: A::Num|
        {
            &&& #[trigger] kernel_ref::is_roped(ar, qh, qr, cos, sin, b * h * s, s, d)
            &&& #[trigger] kernel_ref::is_roped(ar, kh, kr, cos, sin, b * kv * s, s, d)
            &&& #[trigger] kernel_ref::is_head_scale(ar, d, scale)
            &&& kernel_ref::is_attention(ar, qr, kr, vh, mask, b, h, kv, s, d, scale, ctx)
        };
    scale_stands(ar, v, d, scale);
    let r = kernel_ref::head_row(h, s, bi, hi, p);
    let g = kernel_ref::kv_head(h, kv, hi);
    repeat::heads_are_there(h, kv, hi);
    kernel_ref::kv_head_nonneg(h, kv, hi);
    row_of_heads(b, h, s, d, qh.len() as int, bi, hi, p);
    roped_stands(ar, v, qh, qr, cos, sin, b * h * s, s, d, r);
    let query = kernel_ref::token(qr, d, r);
    assert(vals(v, query) == q_row(v, c, bi, hi, p));
    let base = (bi * kv + g) * s;
    let m = kernel_ref::mask_row(mask, s, bi, p);
    if let Some(all) = mask {
        grid::cell_place(b, s, bi, p);
        kernel_ref::token_place(b * s, s, bi * s + p);
    }
    assert(some_vals(v, m) == mask_at(c.mask, bi, p));
    let scores = score_row(v, c, bi, hi, p);
    assert forall|i: int| 0 <= i < s implies #[trigger] is_scored(
        v,
        d,
        query,
        kr,
        base + i,
        m,
        scores,
        i,
    ) by {
        row_of_heads(b, kv, s, d, kh.len() as int, bi, g, i);
        let kp = kernel_ref::head_row(kv, s, bi, g, i);
        assert(kp == base + i);
        roped_stands(ar, v, kh, kr, cos, sin, b * kv * s, s, d, kp);
        assert(vals(v, kernel_ref::token(kr, d, kp)) == k_row(v, c, bi, g, i));
    }
    let rows = v_rows(v, c, bi, g);
    assert forall|i: int| 0 <= i < s implies #[trigger] is_valued(v, d, vh, base + i, rows, i) by {
        row_of_heads(b, kv, s, d, vh.len() as int, bi, g, i);
        let kp = kernel_ref::head_row(kv, s, bi, g, i);
        assert(kp == base + i);
        assert(vals(v, kernel_ref::token(vh, d, kp)) == v_row(v, c, bi, g, i));
    }
    assert(kernel_ref::is_attended_row(
        ar,
        query,
        kr,
        vh,
        base,
        s,
        d,
        scale,
        m,
        kernel_ref::token(ctx, d, r),
    ));
    attended_stands(
        ar,
        v,
        query,
        kr,
        vh,
        base,
        s,
        d,
        scale,
        m,
        kernel_ref::token(ctx, d, r),
        scores,
        rows,
    );
}

#[verifier::rlimit(60)]
proof fn mha_stands<A: Arith, V>(
    ar: &A,
    v: Reals<A::Num, V>,
    xs: Seq<A::Num>,
    b: int,
    s: int,
    q: PackModel<A::Num>,
    q_bias: Option<Seq<A::Num>>,
    k: PackModel<A::Num>,
    k_bias: Option<Seq<A::Num>>,
    w: PackModel<A::Num>,
    w_bias: Option<Seq<A::Num>>,
    o: PackModel<A::Num>,
    o_bias: Option<Seq<A::Num>>,
    h: int,
    kv: int,
    d: int,
    cos: Seq<A::Num>,
    sin: Seq<A::Num>,
    mask: Option<Seq<A::Num>>,
    out: Seq<A::Num>,
    bi: int,
    p: int,
)
    requires
        is_exact(ar, v),
        packs_fit(q, q_bias, k, k_bias, w, w_bias, o, o_bias, h, kv, d),
        0 <= bi < b,
        0 <= p < s,
        xs.len() == b * s * q.in_dim,
        cos.len() == s * (d / 2),
        sin.len() == s * (d / 2),
        mask matches Some(m) ==> m.len() == b * s * s,
        kernel_ref::is_mha(
            ar,
            xs,
            b,
            s,
            q,
            q_bias,
            k,
            k_bias,
            w,
            w_bias,
            o,
            o_bias,
            h,
            kv,
            d,
            cos,
            sin,
            mask,
            out,
        ),
    ensures
        vals(v, kernel_ref::token(out, o.out_dim as int, bi * s + p)) == out_row(
            v,
            packed_scene(
                v,
                xs,
                s,
                q,
                q_bias,
                k,
                k_bias,
                w,
                w_bias,
                o,
                o_bias,
                h,
                kv,
                d,
                cos,
                sin,
                mask,
            ),
            bi,
            p,
        ),
{
    let c = packed_scene(
        v,
        xs,
        s,
        q,
        q_bias,
        k,
        k_bias,
        w,
        w_bias,
        o,
        o_bias,
        h,
        kv,
        d,
        cos,
        sin,
        mask,
    );
    let (qh, kh, vh, ctx, joined) = choose|
        qh: Seq<A::Num>,
        kh: Seq<A::Num>,
        vh: Seq<A::Num>,
        ctx: Seq<A::Num>,
        joined: Seq<A::Num>,
    |
        {
            &&& #[trigger] kernel_ref::is_heads(ar, xs, q, q_bias, b, s, h, d, qh)
            &&& #[trigger] kernel_ref::is_heads(ar, xs, k, k_bias, b, s, kv, d, kh)
            &&& #[trigger] kernel_ref::is_heads(ar, xs, w, w_bias, b, s, kv, d, vh)
            &&& kernel_ref::is_rotary_attention(
                ar,
                qh,
                kh,
                vh,
                b,
                s,
                h,
                kv,
                d,
                cos,
                sin,
                mask,
                ctx,
            )
            &&& #[trigger] kernel_ref::is_transposed(ctx, joined, b, s, h, d)
            &&& kernel_ref::is_linear(ar, joined, o, o_bias, b * s, out)
        };
    heads_stand(ar, v, xs, q, q_bias, b, s, h, d, qh, bi, 0, p);
    heads_stand(ar, v, xs, k, k_bias, b, s, kv, d, kh, bi, 0, p);
    heads_stand(ar, v, xs, w, w_bias, b, s, kv, d, vh, bi, 0, p);
    assert forall|x: int, y: int, z: int| 0 <= x < b && 0 <= y < h && 0 <= z < s implies vals(
        v,
        kernel_ref::token(qh, d, #[trigger] kernel_ref::head_row(h, s, x, y, z)),
    ) == part(lin_row(v, c.wq, c.bq, (c.x)(x, z)), d, y) by {
        heads_stand(ar, v, xs, q, q_bias, b, s, h, d, qh, x, y, z);
    }
    assert forall|x: int, y: int, z: int| 0 <= x < b && 0 <= y < kv && 0 <= z < s implies vals(
        v,
        kernel_ref::token(kh, d, #[trigger] kernel_ref::head_row(kv, s, x, y, z)),
    ) == part(lin_row(v, c.wk, c.bk, (c.x)(x, z)), d, y) by {
        heads_stand(ar, v, xs, k, k_bias, b, s, kv, d, kh, x, y, z);
    }
    assert forall|x: int, y: int, z: int| 0 <= x < b && 0 <= y < kv && 0 <= z < s implies vals(
        v,
        kernel_ref::token(vh, d, #[trigger] kernel_ref::head_row(kv, s, x, y, z)),
    ) == v_row(v, c, x, y, z) by {
        heads_stand(ar, v, xs, w, w_bias, b, s, kv, d, vh, x, y, z);
    }
    let t = bi * s + p;
    grid::cell_place(b, s, bi, p);
    let n = h * d;
    assert(b * s * h * d == b * s * n) by (nonlinear_arith)
        requires
            n == h * d,
    ;
    kernel_ref::token_place(b * s, n, t);
    let row = kernel_ref::token(joined, n, t);
    let want = joined_row(v, c, bi, p);
    assert forall|m: int| 0 <= m < n implies #[trigger] vals(v, row)[m] == want[m] by {
        grid::place_cell(h, d, m);
        let hi = m / d;
        let l = m % d;
        context_stands(ar, v, c, b, qh, kh, vh, cos, sin, mask, ctx, bi, hi, p);
        token_part(joined, b * s, h, d, t, hi);
        assert(kernel_ref::head_row(s, h, bi, p, hi) == t * h + hi);
        vals_part(v, row, d, hi);
        let mine = kernel_ref::token(joined, d, t * h + hi);
        assert(mine == kernel_ref::token(ctx, d, kernel_ref::head_row(h, s, bi, hi, p)));
        assert(vals(v, mine) == ctx_row(v, c, bi, hi, p));
        assert(part(vals(v, row), d, hi)[l] == vals(v, row)[hi * d + l]);
    }
    assert(vals(v, row) =~= want);
    linear_stands(ar, v, joined, o, o_bias, b * s, out, t);
}

/// What a tensor shows: its dimensions, and the values along its last one. A tensor of fewer than
/// four dimensions is read with its first ones at zero.
#[verifier::reject_recursive_types(T)]
#[verifier::reject_recursive_types(V)]
pub struct Sight<T, V> {
    pub shape: spec_fn(T) -> Seq<usize>,
    pub rows: spec_fn(T, int, int, int) -> Seq<V>,
}

/// Whether a row of a tensor of these dimensions stands at this place.
pub open spec fn has_row(shape: Seq<usize>, i: int, j: int, k: int) -> bool {
    if shape.len() == 4 {
        0 <= i < shape[0] && 0 <= j < shape[1] && 0 <= k < shape[2]
    } else if shape.len() == 3 {
        i == 0 && 0 <= j < shape[0] && 0 <= k < shape[1]
    } else {
        shape.len() == 2 && i == 0 && j == 0 && 0 <= k < shape[0]
    }
}

/// Rows are as long as the last dimension says.
pub open spec fn rows_fit<T, V>(t: Sight<T, V>) -> bool {
    forall|x: T, i: int, j: int, k: int|
        has_row((t.shape)(x), i, j, k) ==> (#[trigger] (t.rows)(x, i, j, k)).len() == (t.shape)(
            x,
        ).last()
}

/// Two tensors have the same dimensions and the same values.
pub open spec fn alike<T, V>(t: Sight<T, V>, x: T, y: T) -> bool {
    &&& (t.shape)(y) == (t.shape)(x)
    &&& forall|i: int, j: int, k: int|
        has_row((t.shape)(x), i, j, k) ==> #[trigger] (t.rows)(x, i, j, k) == (t.rows)(y, i, j, k)
}

/// `y` shows what `x` shows.
pub open spec fn shows_same<T, V>(t: Sight<T, V>, x: T, y: T) -> bool {
    &&& (t.shape)(y) == (t.shape)(x)
    &&& forall|i: int, j: int, k: int| #[trigger] (t.rows)(y, i, j, k) == (t.rows)(x, i, j, k)
}

/// `y` are the heads of `x`: rows of `count * width` entries become `count` rows of `width`.
pub open spec fn shows_heads<T, V>(t: Sight<T, V>, x: T, count: usize, width: usize, y: T) -> bool {
    let sx = (t.shape)(x);
    &&& (t.shape)(y) == seq![sx[0], sx[1], count, width]
    &&& forall|i: int, j: int, k: int|
        has_row((t.shape)(y), i, j, k) ==> #[trigger] (t.rows)(y, i, j, k) == part(
            (t.rows)(x, 0, i, j),
            width as int,
            k,
        )
}

/// `y` is `x` with its heads side by side.
pub open spec fn shows_joined_heads<T, V>(t: Sight<T, V>, x: T, y: T) -> bool {
    let sx = (t.shape)(x);
    let d = sx[3] as int;
    &&& (t.shape)(y) == seq![sx[0], sx[1], (sx[2] * sx[3]) as usize]
    &&& forall|j: int, k: int|
        has_row((t.shape)(y), 0, j, k) ==> #[trigger] (t.rows)(y, 0, j, k) == Seq::new(
            (sx[2] * sx[3]) as nat,
            |m: int| (t.rows)(x, j, k, m / d)[m % d],
        )
}

/// `y` is `x` with its two middle dimensions exchanged.
pub open spec fn shows_swapped<T, V>(t: Sight<T, V>, x: T, y: T) -> bool {
    let sx = (t.shape)(x);
    &&& (t.shape)(y) == seq![sx[0], sx[2], sx[1], sx[3]]
    &&& forall|i: int, j: int, k: int|
        has_row((t.shape)(y), i, j, k) ==> #[trigger] (t.rows)(y, i, j, k) == (t.rows)(x, i, k, j)
}

/// `y` is `x` with its two last dimensions exchanged.
pub open spec fn shows_turned_over<T, V>(t: Sight<T, V>, x: T, y: T) -> bool {
    let sx = (t.shape)(x);
    &&& (t.shape)(y) == seq![sx[0], sx[1], sx[3], sx[2]]
    &&& forall|i: int, j: int, k: int|
        has_row((t.shape)(y), i, j, k) ==> #[trigger] (t.rows)(y, i, j, k) == Seq::new(
            sx[2] as nat,
            |m: int| (t.rows)(x, i, j, m)[k],
        )
}

/// `y` are the entries from `start` on of every row of `x`.
pub open spec fn shows_entries<T, V>(t: Sight<T, V>, x: T, start: usize, len: usize, y: T) -> bool {
    let sx = (t.shape)(x);
    &&& start + len <= sx[3]
    &&& (t.shape)(y) == seq![sx[0], sx[1], sx[2], len]
    &&& forall|i: int, j: int, k: int|
        has_row((t.shape)(y), i, j, k) ==> #[trigger] (t.rows)(y, i, j, k) == (t.rows)(
            x,
            i,
            j,
            k,
        ).subrange(start as int, start + len)
}

/// `y` are the first rows of the table `x`.
pub open spec fn shows_first_rows<T, V>(t: Sight<T, V>, x: T, len: usize, y: T) -> bool {
    let sx = (t.shape)(x);
    &&& len <= sx[0]
    &&& (t.shape)(y) == seq![len, sx[1]]
    &&& forall|k: int| 0 <= k < len ==> #[trigger] (t.rows)(y, 0, 0, k) == (t.rows)(x, 0, 0, k)
}

/// `y` is the table `x` with two dimensions of one before it.
pub open spec fn shows_table<T, V>(t: Sight<T, V>, x: T, y: T) -> bool {
    let sx = (t.shape)(x);
    &&& (t.shape)(y) == seq![1usize, 1usize, sx[0], sx[1]]
    &&& forall|k: int| 0 <= k < sx[0] ==> #[trigger] (t.rows)(y, 0, 0, k) == (t.rows)(x, 0, 0, k)
}

/// The entries of two rows put together by an operation.
pub open spec fn zipped<V>(a: Seq<V>, b: Seq<V>, f: spec_fn(V, V) -> V) -> Seq<V> {
    Seq::new(a.len(), |i: int| f(a[i], b[i]))
}

/// `y` is `a` and `b` put together entry by entry; `b` is used for every batch and head.
pub open spec fn shows_spread<T, V>(
    t: Sight<T, V>,
    a: T,
    b: T,
    f: spec_fn(V, V) -> V,
    y: T,
) -> bool {
    &&& (t.shape)(y) == (t.shape)(a)
    &&& forall|i: int, j: int, k: int|
        has_row((t.shape)(y), i, j, k) ==> #[trigger] (t.rows)(y, i, j, k) == zipped(
            (t.rows)(a, i, j, k),
            (t.rows)(b, 0, 0, k),
            f,
        )
}

/// `y` is `a` and `b` put together entry by entry.
pub open spec fn shows_zipped<T, V>(
    t: Sight<T, V>,
    a: T,
    b: T,
    f: spec_fn(V, V) -> V,
    y: T,
) -> bool {
    &&& (t.shape)(y) == (t.shape)(a)
    &&& forall|i: int, j: int, k: int|
        has_row((t.shape)(y), i, j, k) ==> #[trigger] (t.rows)(y, i, j, k) == zipped(
            (t.rows)(a, i, j, k),
            (t.rows)(b, i, j, k),
            f,
        )
}

/// `y` has the rows of `b` behind those of `a`.
pub open spec fn shows_behind<T, V>(t: Sight<T, V>, a: T, b: T, y: T) -> bool {
    let sa = (t.shape)(a);
    &&& (t.shape)(y) == seq![sa[0], sa[1], sa[2], (sa[3] + (t.shape)(b)[3]) as usize]
    &&& forall|i: int, j: int, k: int|
        has_row((t.shape)(y), i, j, k) ==> #[trigger] (t.rows)(y, i, j, k) == (t.rows)(
            a,
            i,
            j,
            k,
        ) + (t.rows)(b, i, j, k)
}

/// `y` has the heads of `x` at these places.
pub open spec fn shows_picked<T, V>(t: Sight<T, V>, x: T, places: Seq<usize>, y: T) -> bool {
    let sx = (t.shape)(x);
    &&& (t.shape)(y) == seq![sx[0], places.len() as usize, sx[2], sx[3]]
    &&& forall|i: int, j: int, k: int|
        has_row((t.shape)(y), i, j, k) ==> #[trigger] (t.rows)(y, i, j, k) == (t.rows)(
            x,
            i,
            places[j] as int,
            k,
        )
}

/// Row `r` against every column of a matrix given by its rows.
pub open spec fn row_times<N, V>(
    v: Reals<N, V>,
    r: Seq<V>,
    rows: spec_fn(int) -> Seq<V>,
    cols: int,
) -> Seq<V> {
    Seq::new(cols as nat, |m: int| dot(v, r, column(rows, r.len() as int, m)))
}

/// The rows of one batch and head.
pub open spec fn block_rows<T, V>(t: Sight<T, V>, x: T, i: int, j: int) -> spec_fn(int) -> Seq<V> {
    |k: int| (t.rows)(x, i, j, k)
}

/// `y` is the product of the matrices of `a` and `b`, for each batch and head.
pub open spec fn shows_product<N, T, V>(
    v: Reals<N, V>,
    t: Sight<T, V>,
    a: T,
    b: T,
    y: T,
) -> bool {
    let sa = (t.shape)(a);
    let sb = (t.shape)(b);
    &&& (t.shape)(y) == seq![sa[0], sa[1], sa[2], sb[3]]
    &&& forall|i: int, j: int, k: int|
        has_row((t.shape)(y), i, j, k) ==> #[trigger] (t.rows)(y, i, j, k) == row_times(
            v,
            (t.rows)(a, i, j, k),
            block_rows(t, b, i, j),
            sb[3] as int,
        )
}

/// `y` is `x` times a value.
pub open spec fn shows_scaled<N, T, V>(v: Reals<N, V>, t: Sight<T, V>, x: T, by: V, y: T) -> bool {
    &&& (t.shape)(y) == (t.shape)(x)
    &&& forall|i: int, j: int, k: int|
        has_row((t.shape)(y), i, j, k) ==> #[trigger] (t.rows)(y, i, j, k) == Seq::new(
            (t.rows)(x, i, j, k).len(),
            |m: int| v.times((t.rows)(x, i, j, k)[m], by),
        )
}

/// Whether a mask of dimensions `mask` covers scores of dimensions `scores`: one for every
/// sequence, or one for all of them.
pub open spec fn mask_spans(mask: Seq<usize>, scores: Seq<usize>) -> bool {
    ||| mask == seq![scores[0], 1usize, scores[2], scores[3]]
    ||| mask == seq![1usize, 1usize, scores[2], scores[3]]
}

/// The row of a mask for a position of a sequence.
pub open spec fn mask_row<T, V>(t: Sight<T, V>, mask: T, i: int, k: int) -> Seq<V> {
    (t.rows)(
        mask,
        if (t.shape)(mask)[0] == 1 {
            0
        } else {
            i
        },
        0,
        k,
    )
}

/// `y` is `x` with a mask added that is the same for every head.
pub open spec fn shows_masked<N, T, V>(
    v: Reals<N, V>,
    t: Sight<T, V>,
    x: T,
    mask: T,
    y: T,
) -> bool {
    &&& (t.shape)(y) == (t.shape)(x)
    &&& forall|i: int, j: int, k: int|
        has_row((t.shape)(y), i, j, k) ==> #[trigger] (t.rows)(y, i, j, k) == zipped(
            (t.rows)(x, i, j, k),
            mask_row(t, mask, i, k),
            v.ring.plus,
        )
}

/// The softmax of a row.
pub open spec fn softmax<N, V>(v: Reals<N, V>, s: Seq<V>) -> Seq<V> {
    Seq::new(s.len(), |i: int| (v.over)(weights(v, s)[i], sum(v, weights(v, s))))
}

/// `y` has the softmax of every row of `x`.
pub open spec fn shows_softmax<N, T, V>(v: Reals<N, V>, t: Sight<T, V>, x: T, y: T) -> bool {
    &&& (t.shape)(y) == (t.shape)(x)
    &&& forall|i: int, j: int, k: int|
        has_row((t.shape)(y), i, j, k) ==> #[trigger] (t.rows)(y, i, j, k) == softmax(
            v,
            (t.rows)(x, i, j, k),
        )
}

/// `y` is what a linear layer makes of every row of `x`.
pub open spec fn shows_linear<N, T, V>(
    v: Reals<N, V>,
    t: Sight<T, V>,
    w: Seq<Seq<V>>,
    bias: Option<Seq<V>>,
    x: T,
    y: T,
) -> bool {
    let sx = (t.shape)(x);
    &&& (t.shape)(y) == seq![sx[0], sx[1], w.len() as usize]
    &&& forall|j: int, k: int|
        has_row((t.shape)(y), 0, j, k) ==> #[trigger] (t.rows)(y, 0, j, k) == lin_row(
            v,
            w,
            bias,
            (t.rows)(x, 0, j, k),
        )
}

/// The tensor operations that change no value mean what they are named for.
pub open spec fn moves_mean<P: Pass, V>(p: &P, v: Reals<P::N, V>, t: Sight<P::T, V>) -> bool {
    &&& forall|x: &P::T, d: (usize, usize, usize)| #[trigger]
        call_ensures(P::dims3, (p, x), Ok::<(usize, usize, usize), P::E>(d)) ==> (t.shape)(*x)
            == seq![d.0, d.1, d.2]
    &&& forall|x: &P::T, d: (usize, usize, usize, usize)| #[trigger]
        call_ensures(P::dims4, (p, x), Ok::<(usize, usize, usize, usize), P::E>(d)) ==> (t.shape)(
            *x,
        ) == seq![d.0, d.1, d.2, d.3]
    &&& forall|x: &P::T, d: (usize, usize, usize, usize), y: P::T| #[trigger]
        call_ensures(P::reshape4, (p, x, d), Ok::<P::T, P::E>(y)) ==> {
            let sx = (t.shape)(*x);
            &&& sx.len() == 3 && d.0 == sx[0] && d.1 == sx[1] && d.2 * d.3 == sx[2]
                ==> shows_heads(t, *x, d.2, d.3, y)
            &&& sx.len() == 2 && d.0 == 1 && d.1 == 1 && d.2 == sx[0] && d.3 == sx[1]
                ==> shows_table(t, *x, y)
        }
    &&& forall|x: &P::T, d: (usize, usize, usize), y: P::T| #[trigger]
        call_ensures(P::reshape3, (p, x, d), Ok::<P::T, P::E>(y)) ==> {
            let sx = (t.shape)(*x);
            sx.len() == 4 && d.0 == sx[0] && d.1 == sx[1] && d.2 == sx[2] * sx[3]
                ==> shows_joined_heads(t, *x, y)
        }
    &&& forall|x: &P::T, a: usize, b: usize, y: P::T| #[trigger]
        call_ensures(P::transpose, (p, x, a, b), Ok::<P::T, P::E>(y)) && (t.shape)(*x).len() == 4
            ==> {
            &&& a == 1 && b == 2 ==> shows_swapped(t, *x, y)
            &&& a == 2 && b == 3 ==> shows_turned_over(t, *x, y)
        }
    &&& forall|x: &P::T, y: P::T| #[trigger]
        call_ensures(P::contiguous, (p, x), Ok::<P::T, P::E>(y)) ==> shows_same(t, *x, y)
    &&& forall|x: &P::T, dim: usize, start: usize, len: usize, y: P::T| #[trigger]
        call_ensures(P::narrow, (p, x, dim, start, len), Ok::<P::T, P::E>(y)) ==> {
            let sx = (t.shape)(*x);
            &&& sx.len() == 4 && dim == 3 ==> shows_entries(t, *x, start, len, y)
            &&& sx.len() == 2 && dim == 0 && start == 0 ==> shows_first_rows(t, *x, len, y)
        }
    &&& forall|a: &P::T, b: &P::T, y: P::T| #[trigger]
        call_ensures(P::joined, (p, a, b), Ok::<P::T, P::E>(y)) ==> {
            let sa = (t.shape)(*a);
            let sb = (t.shape)(*b);
            sa.len() == 4 && sb.len() == 4 && sa.take(3) == sb.take(3) && sa[3] + sb[3]
                <= usize::MAX ==> shows_behind(t, *a, *b, y)
        }
    &&& forall|x: &P::T, places: &Vec<usize>, y: P::T| #[trigger]
        call_ensures(P::pick_heads, (p, x, places), Ok::<P::T, P::E>(y)) && (t.shape)(*x).len()
            == 4 ==> shows_picked(t, *x, places@, y)
    &&& forall|entries: &Vec<P::N>, rows: usize, cols: usize, y: P::T| #[trigger]
        call_ensures(P::table, (p, entries, rows, cols), Ok::<P::T, P::E>(y)) ==> {
            &&& (t.shape)(y) == seq![rows, cols]
            &&& forall|k: int|
                0 <= k < rows ==> #[trigger] (t.rows)(y, 0, 0, k) == vals(
                    v,
                    kernel_ref::token(entries@, cols as int, k),
                )
        }
}

/// The tensor operations that compute mean what they are named for.
pub open spec fn sums_mean<P: Pass, V>(p: &P, v: Reals<P::N, V>, t: Sight<P::T, V>) -> bool {
    &&& forall|a: &P::T, b: &P::T, y: P::T| #[trigger]
        call_ensures(P::times, (p, a, b), Ok::<P::T, P::E>(y)) ==> {
            let sa = (t.shape)(*a);
            sa.len() == 4 && (t.shape)(*b) == seq![1usize, 1usize, sa[2], sa[3]] ==> shows_spread(
                t,
                *a,
                *b,
                v.ring.times,
                y,
            )
        }
    &&& forall|a: &P::T, b: &P::T, y: P::T| #[trigger]
        call_ensures(P::minus, (p, a, b), Ok::<P::T, P::E>(y)) && (t.shape)(*a) == (t.shape)(*b)
            ==> shows_zipped(t, *a, *b, v.minus, y)
    &&& forall|a: &P::T, b: &P::T, y: P::T| #[trigger]
        call_ensures(P::plus, (p, a, b), Ok::<P::T, P::E>(y)) && (t.shape)(*a) == (t.shape)(*b)
            ==> shows_zipped(t, *a, *b, v.ring.plus, y)
    &&& forall|a: &P::T, b: &P::T, y: P::T| #[trigger]
        call_ensures(P::matmul, (p, a, b), Ok::<P::T, P::E>(y)) ==> {
            let sa = (t.shape)(*a);
            let sb = (t.shape)(*b);
            sa.len() == 4 && sb.len() == 4 && sa[0] == sb[0] && sa[1] == sb[1] && sa[3] == sb[2]
                ==> shows_product(v, t, *a, *b, y)
        }
    &&& forall|x: &P::T, d: usize, y: P::T| #[trigger]
        call_ensures(P::scaled, (p, x, d), Ok::<P::T, P::E>(y)) ==> shows_scaled(
            v,
            t,
            *x,
            head_scale(v, d as int),
            y,
        )
    &&& forall|x: &P::T, mask: &P::T, y: P::T| #[trigger]
        call_ensures(P::masked, (p, x, mask), Ok::<P::T, P::E>(y)) ==> {
            let sx = (t.shape)(*x);
            sx.len() == 4 && mask_spans((t.shape)(*mask), sx) ==> shows_masked(v, t, *x, *mask, y)
        }
    &&& forall|x: &P::T, y: P::T| #[trigger]
        call_ensures(P::softmax, (p, x), Ok::<P::T, P::E>(y)) && (t.shape)(*x).len() == 4
            ==> shows_softmax(v, t, *x, y)
}

/// The layer of a projection of attention.
pub open spec fn layer_of<N>(a: MultiHeadSelfAttention<N>, at: Part) -> MaybeTernaryLinear<N> {
    match at {
        Part::Query => a.q_proj,
        Part::Key => a.k_proj,
        Part::Value => a.v_proj,
        _ => a.o_proj,
    }
}

/// The weights of a layer as the tensor library holds them, row by row.
pub open spec fn host_rows<N, V>(v: Reals<N, V>, lin: MaybeTernaryLinear<N>) -> Seq<Seq<V>> {
    let w = lin.lin().weight;
    matrix(v, w.data@, w.dims@[0] as int, w.dims@[1] as int)
}

/// The bias of a layer.
pub open spec fn host_bias<N, V>(v: Reals<N, V>, lin: MaybeTernaryLinear<N>) -> Option<Seq<V>> {
    some_vals(v, kernel_dispatch::owned(lin.lin().bias))
}

/// The tensor library's own projections are those of the layers.
pub open spec fn projections_mean<P: Pass, V>(
    p: &P,
    v: Reals<P::N, V>,
    t: Sight<P::T, V>,
    a: MultiHeadSelfAttention<P::N>,
) -> bool {
    forall|at: Part, x: &P::T, y: P::T| #[trigger]
        call_ensures(P::linear, (p, Site::Attention, at, x), Ok::<P::T, P::E>(y)) && (t.shape)(
            *x,
        ).len() == 3 && (t.shape)(*x)[2] == layer_of(a, at).lin().weight.dims@[1] ==> shows_linear(
            v,
            t,
            host_rows(v, layer_of(a, at)),
            host_bias(v, layer_of(a, at)),
            *x,
            y,
        )
}

proof fn heads_seen<P: Pass, V>(
    p: &P,
    v: Reals<P::N, V>,
    t: Sight<P::T, V>,
    a: MultiHeadSelfAttention<P::N>,
    at: Part,
    xs: &P::T,
    dims: (usize, usize, usize),
    count: usize,
    d: usize,
    y: P::T,
)
    requires
        moves_mean(p, v, t),
        projections_mean(p, v, t, a),
        layer_of(a, at).pack() is None,
        (t.shape)(*xs) == seq![dims.0, dims.1, dims.2],
        layer_of(a, at).lin().weight.dims@[1] == dims.2,
        layer_of(a, at).lin().weight.dims@[0] == count * d,
        forward::is_heads_run(
            p,
            layer_of(a, at),
            at,
            xs,
            dims,
            count,
            d,
            Ok::<P::T, P::E>(y),
        ),
    ensures
        (t.shape)(y) == seq![dims.0, count, dims.1, d],
        forall|i: int, j: int, k: int|
            has_row((t.shape)(y), i, j, k) ==> #[trigger] (t.rows)(y, i, j, k) == part(
                lin_row(
                    v,
                    host_rows(v, layer_of(a, at)),
                    host_bias(v, layer_of(a, at)),
                    (t.rows)(*xs, 0, i, k),
                ),
                d as int,
                j,
            ),
{
    let lin = layer_of(a, at);
    let (run, n) = choose|run: HeadsRun<P::T>, k: int| #[trigger]
        forward::are_heads_ops(p, lin, at, xs, dims, count, d, run, k) && k == 3 && y == run.heads;
    let none = None::<P::E>;
    assert(forward::is_heads_op(p, lin, at, xs, dims, count, d, run, 0, none));
    assert(forward::is_heads_op(p, lin, at, xs, dims, count, d, run, 1, none));
    assert(forward::is_heads_op(p, lin, at, xs, dims, count, d, run, 2, none));
    let w = host_rows(v, lin);
    assert(shows_linear(v, t, w, host_bias(v, lin), *xs, run.flat));
    assert(w.len() == count * d);
    assert(shows_heads(t, run.flat, count, d, run.split));
    assert(shows_swapped(t, run.split, y));
    assert forall|i: int, j: int, k: int| has_row((t.shape)(y), i, j, k) implies #[trigger] (
    t.rows)(y, i, j, k) == part(
        lin_row(v, w, host_bias(v, lin), (t.rows)(*xs, 0, i, k)),
        d as int,
        j,
    ) by {
        assert((t.rows)(y, i, j, k) == (t.rows)(run.split, i, k, j));
        assert(has_row((t.shape)(run.split), i, k, j));
        assert(has_row((t.shape)(run.flat), 0, i, k));
        assert((t.rows)(run.flat, 0, i, k) == lin_row(
            v,
            w,
            host_bias(v, lin),
            (t.rows)(*xs, 0, i, k),
        ));
    }
}

/// The angles of a position.
pub open spec fn angle_row<N, V>(v: Reals<N, V>, entries: Seq<N>, half: int, p: int) -> Seq<V> {
    vals(v, kernel_ref::token(entries, half, p))
}

#[verifier::rlimit(60)]
proof fn turn_seen<P: Pass, V>(
    p: &P,
    v: Reals<P::N, V>,
    t: Sight<P::T, V>,
    xs: &P::T,
    rope: RopeCache<P::N>,
    n: usize,
    h: usize,
    s: usize,
    d: usize,
    y: P::T,
)
    requires
        rows_fit(t),
        moves_mean(p, v, t),
        sums_mean(p, v, t),
        (t.shape)(*xs) == seq![n, h, s, d],
        d % 2 == 0,
        rope.wf(),
        rope.half == d / 2,
        forward::is_turn_run(p, xs, rope, Ok::<P::T, P::E>(y)),
    ensures
        s <= rope.max_seq,
        (t.shape)(y) == seq![n, h, s, d],
        forall|i: int, j: int, k: int|
            has_row((t.shape)(y), i, j, k) ==> #[trigger] (t.rows)(y, i, j, k) == turned(
                v,
                (t.rows)(*xs, i, j, k),
                angle_row(v, rope.cos@, rope.half as int, k),
                angle_row(v, rope.sin@, rope.half as int, k),
            ),
{
    let (run, z) = choose|run: TurnRun<P::T>, k: int| #[trigger]
        forward::are_turn_ops(p, xs, rope, run, k) && k == 16 && y == run.out;
    let none = None::<P::E>;
    let half = (d / 2) as usize;
    assert(forward::is_turn_op(p, xs, rope, run, 0, none));
    assert(run.dims == (n, h, s, d)) by {
        let a = seq![run.dims.0, run.dims.1, run.dims.2, run.dims.3];
        let b = seq![n, h, s, d];
        assert(a == b);
        assert(a[0] == b[0] && a[1] == b[1] && a[2] == b[2] && a[3] == b[3]);
    }
    assert(forward::is_turn_op(p, xs, rope, run, 1, none));
    assert(shows_entries(t, *xs, 0, half, run.x1));
    assert(forward::is_turn_op(p, xs, rope, run, 2, none));
    assert(shows_entries(t, *xs, half, half, run.x2));
    assert(forward::is_turn_op(p, xs, rope, run, 3, none));
    assert(forward::is_turn_op(p, xs, rope, run, 4, none));
    assert(shows_first_rows(t, run.cos_table, s, run.cos_rows));
    assert(forward::is_turn_op(p, xs, rope, run, 5, none));
    assert(shows_table(t, run.cos_rows, run.cos));
    assert(forward::is_turn_op(p, xs, rope, run, 6, none));
    assert(forward::is_turn_op(p, xs, rope, run, 7, none));
    assert(shows_first_rows(t, run.sin_table, s, run.sin_rows));
    assert(forward::is_turn_op(p, xs, rope, run, 8, none));
    assert(shows_table(t, run.sin_rows, run.sin));
    assert(forward::is_turn_op(p, xs, rope, run, 9, none));
    assert(shows_spread(t, run.x1, run.cos, v.ring.times, run.x1c));
    assert(forward::is_turn_op(p, xs, rope, run, 10, none));
    assert(shows_spread(t, run.x2, run.sin, v.ring.times, run.x2s));
    assert(forward::is_turn_op(p, xs, rope, run, 11, none));
    assert(shows_spread(t, run.x1, run.sin, v.ring.times, run.x1s));
    assert(forward::is_turn_op(p, xs, rope, run, 12, none));
    assert(shows_spread(t, run.x2, run.cos, v.ring.times, run.x2c));
    assert(forward::is_turn_op(p, xs, rope, run, 13, none));
    assert(shows_zipped(t, run.x1c, run.x2s, v.minus, run.first));
    assert(forward::is_turn_op(p, xs, rope, run, 14, none));
    assert(shows_zipped(t, run.x1s, run.x2c, v.ring.plus, run.second));
    assert(forward::is_turn_op(p, xs, rope, run, 15, none));
    assert((t.shape)(run.first).take(3) =~= (t.shape)(run.second).take(3));
    assert(shows_behind(t, run.first, run.second, run.out));
    assert((half + half) as usize == d);
    assert forall|i: int, j: int, k: int| has_row((t.shape)(y), i, j, k) implies #[trigger] (
    t.rows)(y, i, j, k) == turned(
        v,
        (t.rows)(*xs, i, j, k),
        angle_row(v, rope.cos@, rope.half as int, k),
        angle_row(v, rope.sin@, rope.half as int, k),
    ) by {
        turn_row(v, t, *xs, rope, run, n, h, s, d, i, j, k);
    }
}

proof fn turn_row<N, T, V>(
    v: Reals<N, V>,
    t: Sight<T, V>,
    xs: T,
    rope: RopeCache<N>,
    run: TurnRun<T>,
    n: usize,
    h: usize,
    s: usize,
    d: usize,
    i: int,
    j: int,
    k: int,
)
    requires
        rows_fit(t),
        (t.shape)(xs) == seq![n, h, s, d],
        d % 2 == 0,
        rope.wf(),
        rope.half == d / 2,
        shows_entries(t, xs, 0, (d / 2) as usize, run.x1),
        shows_entries(t, xs, (d / 2) as usize, (d / 2) as usize, run.x2),
        (t.shape)(run.cos_table) == seq![rope.max_seq, rope.half],
        (t.shape)(run.sin_table) == seq![rope.max_seq, rope.half],
        forall|m: int|
            0 <= m < rope.max_seq ==> #[trigger] (t.rows)(run.cos_table, 0, 0, m) == vals(
                v,
                kernel_ref::token(rope.cos@, rope.half as int, m),
            ),
        forall|m: int|
            0 <= m < rope.max_seq ==> #[trigger] (t.rows)(run.sin_table, 0, 0, m) == vals(
                v,
                kernel_ref::token(rope.sin@, rope.half as int, m),
            ),
        shows_first_rows(t, run.cos_table, s, run.cos_rows),
        shows_table(t, run.cos_rows, run.cos),
        shows_first_rows(t, run.sin_table, s, run.sin_rows),
        shows_table(t, run.sin_rows, run.sin),
        shows_spread(t, run.x1, run.cos, v.ring.times, run.x1c),
        shows_spread(t, run.x2, run.sin, v.ring.times, run.x2s),
        shows_spread(t, run.x1, run.sin, v.ring.times, run.x1s),
        shows_spread(t, run.x2, run.cos, v.ring.times, run.x2c),
        shows_zipped(t, run.x1c, run.x2s, v.minus, run.first),
        shows_zipped(t, run.x1s, run.x2c, v.ring.plus, run.second),
        shows_behind(t, run.first, run.second, run.out),
        0 <= i < n,
        0 <= j < h,
        0 <= k < s,
    ensures
        (t.rows)(run.out, i, j, k) == turned(
            v,
            (t.rows)(xs, i, j, k),
            angle_row(v, rope.cos@, rope.half as int, k),
            angle_row(v, rope.sin@, rope.half as int, k),
        ),
{
    let half = (d / 2) as int;
    let x = (t.rows)(xs, i, j, k);
    let c = angle_row(v, rope.cos@, half, k);
    let sn = angle_row(v, rope.sin@, half, k);
    assert((t.rows)(run.cos, 0, 0, k) == c) by {
        assert((t.rows)(run.cos_rows, 0, 0, k) == (t.rows)(run.cos_table, 0, 0, k));
    }
    assert((t.rows)(run.sin, 0, 0, k) == sn) by {
        assert((t.rows)(run.sin_rows, 0, 0, k) == (t.rows)(run.sin_table, 0, 0, k));
    }
    kernel_ref::token_place(rope.max_seq as int, half, k);
    assert(c.len() == half && sn.len() == half);
    let x1 = (t.rows)(run.x1, i, j, k);
    let x2 = (t.rows)(run.x2, i, j, k);
    assert(x.len() == d);
    assert(x1 == x.subrange(0, half));
    assert(x2 == x.subrange(half, half + half));
    assert((t.rows)(run.x1c, i, j, k) == zipped(x1, c, v.ring.times));
    assert((t.rows)(run.x2s, i, j, k) == zipped(x2, sn, v.ring.times));
    assert((t.rows)(run.x1s, i, j, k) == zipped(x1, sn, v.ring.times));
    assert((t.rows)(run.x2c, i, j, k) == zipped(x2, c, v.ring.times));
    let first = (t.rows)(run.first, i, j, k);
    let second = (t.rows)(run.second, i, j, k);
    assert(first == zipped((t.rows)(run.x1c, i, j, k), (t.rows)(run.x2s, i, j, k), v.minus));
    assert(second == zipped(
        (t.rows)(run.x1s, i, j, k),
        (t.rows)(run.x2c, i, j, k),
        v.ring.plus,
    ));
    assert((t.rows)(run.out, i, j, k) == first + second);
    assert(first + second =~= turned(v, x, c, sn));
}

proof fn shared_seen<P: Pass, V>(
    p: &P,
    v: Reals<P::N, V>,
    t: Sight<P::T, V>,
    h: usize,
    kv: usize,
    xs: P::T,
    y: P::T,
)
    requires
        moves_mean(p, v, t),
        0 < kv <= h,
        h % kv == 0,
        (t.shape)(xs).len() == 4,
        (t.shape)(xs)[1] == kv,
        forward::is_shared(p, h, kv, xs, Ok::<P::T, P::E>(y)) || (kv == h && shows_same(t, xs, y)),
    ensures
        (t.shape)(y) == seq![(t.shape)(xs)[0], h, (t.shape)(xs)[2], (t.shape)(xs)[3]],
        forall|i: int, j: int, k: int|
            has_row((t.shape)(y), i, j, k) ==> #[trigger] (t.rows)(y, i, j, k) == (t.rows)(
                xs,
                i,
                kernel_ref::kv_head(h as int, kv as int, j),
                k,
            ),
{
    let sx = (t.shape)(xs);
    if kv < h {
        let places = choose|places: Vec<usize>| #[trigger]
            call_ensures(P::pick_heads, (p, &xs, &places), Ok::<P::T, P::E>(y)) && places@
                == forward::shared_places(h as int, kv as int);
        assert(shows_picked(t, xs, places@, y));
        forward::heads_agree(h as int, kv as int, 0);
        assert forall|i: int, j: int, k: int| has_row((t.shape)(y), i, j, k) implies #[trigger] (
        t.rows)(y, i, j, k) == (t.rows)(
            xs,
            i,
            kernel_ref::kv_head(h as int, kv as int, j),
            k,
        ) by {
            forward::heads_agree(h as int, kv as int, j);
        }
    } else {
        assert(sx =~= seq![sx[0], h, sx[2], sx[3]]);
    }
}

proof fn softmax_dot<N, V>(v: Reals<N, V>, w: Seq<V>, x: Seq<V>, c: V, q: Seq<V>, k: int)
    requires
        divide_freely(v),
        w.len() == x.len(),
        q.len() == w.len(),
        forall|i: int| 0 <= i < w.len() ==> #[trigger] q[i] == (v.over)(w[i], c),
        0 <= k <= w.len(),
    ensures
        sum(v, products(v, q, x).take(k)) == (v.over)(sum(v, products(v, w, x).take(k)), c),
    decreases k,
{
    let a = products(v, q, x);
    let b = products(v, w, x);
    if k == 0 {
        assert(stays_zero(v, c));
    } else {
        let i = k - 1;
        softmax_dot(v, w, x, c, q, i);
        assert(a.take(k).drop_last() =~= a.take(i));
        assert(b.take(k).drop_last() =~= b.take(i));
        assert(q[i] == (v.over)(w[i], c));
        assert(slips_through(v, w[i], x[i], c));
        assert(shares_out(v, sum(v, b.take(i)), b[i], c));
    }
}

proof fn score_seen<P: Pass, V>(
    p: &P,
    v: Reals<P::N, V>,
    t: Sight<P::T, V>,
    q: &P::T,
    k: &P::T,
    n: usize,
    h: usize,
    s: usize,
    d: usize,
    y: P::T,
)
    requires
        rows_fit(t),
        moves_mean(p, v, t),
        sums_mean(p, v, t),
        (t.shape)(*q) == seq![n, h, s, d],
        (t.shape)(*k) == seq![n, h, s, d],
        forward::is_score_run(p, q, k, d, Ok::<P::T, P::E>(y)),
    ensures
        (t.shape)(y) == seq![n, h, s, s],
        forall|i: int, j: int, r: int|
            has_row((t.shape)(y), i, j, r) ==> #[trigger] (t.rows)(y, i, j, r) == Seq::new(
                s as nat,
                |m: int| score(v, d as int, (t.rows)(*q, i, j, r), (t.rows)(*k, i, j, m), None),
            ),
{
    let (run, z) = choose|run: ScoreRun<P::T>, z: int| #[trigger]
        forward::are_score_ops(p, q, k, d, run, z) && z == 4 && y == run.out;
    let none = None::<P::E>;
    assert(forward::is_score_op(p, q, k, d, run, 0, none));
    assert(shows_turned_over(t, *k, run.turned));
    assert(forward::is_score_op(p, q, k, d, run, 1, none));
    assert(shows_same(t, run.turned, run.keys));
    assert(forward::is_score_op(p, q, k, d, run, 2, none));
    assert(shows_product(v, t, *q, run.keys, run.products));
    assert(forward::is_score_op(p, q, k, d, run, 3, none));
    assert(shows_scaled(v, t, run.products, head_scale(v, d as int), y));
    assert forall|i: int, j: int, r: int| has_row((t.shape)(y), i, j, r) implies #[trigger] (
    t.rows)(y, i, j, r) == Seq::new(
        s as nat,
        |m: int| score(v, d as int, (t.rows)(*q, i, j, r), (t.rows)(*k, i, j, m), None),
    ) by {
        let qrow = (t.rows)(*q, i, j, r);
        let prow = (t.rows)(run.products, i, j, r);
        assert(prow == row_times(v, qrow, block_rows(t, run.keys, i, j), s as int));
        let want = Seq::new(
            s as nat,
            |m: int| score(v, d as int, qrow, (t.rows)(*k, i, j, m), None),
        );
        assert(qrow.len() == d);
        assert forall|m: int| 0 <= m < s implies #[trigger] (t.rows)(y, i, j, r)[m] == want[m] by {
            let krow = (t.rows)(*k, i, j, m);
            assert(krow.len() == d);
            let col = column(block_rows(t, run.keys, i, j), d as int, m);
            assert forall|l: int| 0 <= l < d implies #[trigger] col[l] == krow[l] by {
                assert((t.rows)(run.keys, i, j, l) == (t.rows)(run.turned, i, j, l));
                assert(has_row((t.shape)(run.turned), i, j, l));
            }
            assert(col =~= krow);
        }
        assert((t.rows)(y, i, j, r) =~= want);
    }
}

proof fn mixed_seen<N, T, V>(
    v: Reals<N, V>,
    t: Sight<T, V>,
    scores: &T,
    vt: &T,
    soft: T,
    mixed: T,
    n: usize,
    h: usize,
    s: usize,
    d: usize,
    i: int,
    j: int,
    r: int,
)
    requires
        rows_fit(t),
        divide_freely(v),
        (t.shape)(*scores) == seq![n, h, s, s],
        (t.shape)(*vt) == seq![n, h, s, d],
        shows_softmax(v, t, *scores, soft),
        shows_product(v, t, soft, *vt, mixed),
        0 <= i < n,
        0 <= j < h,
        0 <= r < s,
    ensures
        (t.rows)(mixed, i, j, r) == attended(
            v,
            (t.rows)(*scores, i, j, r),
            block_rows(t, *vt, i, j),
            d as int,
        ),
{
    let sc = (t.rows)(*scores, i, j, r);
    let f = block_rows(t, *vt, i, j);
    let w = weights(v, sc);
    let q = softmax(v, sc);
    assert(sc.len() == s);
    assert(has_row((t.shape)(soft), i, j, r));
    assert((t.rows)(soft, i, j, r) == q);
    assert(has_row((t.shape)(mixed), i, j, r));
    let got = (t.rows)(mixed, i, j, r);
    assert(got == row_times(v, q, f, d as int));
    let want = attended(v, sc, f, d as int);
    assert forall|l: int| 0 <= l < d implies #[trigger] got[l] == want[l] by {
        let col = column(f, s as int, l);
        softmax_dot(v, w, col, sum(v, w), q, s as int);
        assert(products(v, q, col).take(s as int) =~= products(v, q, col));
        assert(products(v, w, col).take(s as int) =~= products(v, w, col));
    }
    assert(got =~= want);
}

proof fn context_seen<P: Pass, V>(
    p: &P,
    v: Reals<P::N, V>,
    t: Sight<P::T, V>,
    scores: &P::T,
    vt: &P::T,
    n: usize,
    h: usize,
    s: usize,
    d: usize,
    dims: (usize, usize, usize),
    y: P::T,
)
    requires
        rows_fit(t),
        divide_freely(v),
        moves_mean(p, v, t),
        sums_mean(p, v, t),
        0 < d,
        dims.0 == n,
        dims.1 == s,
        dims.2 == h * d,
        (t.shape)(*scores) == seq![n, h, s, s],
        (t.shape)(*vt) == seq![n, h, s, d],
        forward::is_context_run(p, scores, vt, dims, Ok::<P::T, P::E>(y)),
    ensures
        (t.shape)(y) == seq![n, s, dims.2],
        forall|b: int, r: int|
            0 <= b < n && 0 <= r < s ==> #[trigger] (t.rows)(y, 0, b, r) == Seq::new(
                (h * d) as nat,
                |m: int|
                    attended(
                        v,
                        (t.rows)(*scores, b, m / d as int, r),
                        block_rows(t, *vt, b, m / d as int),
                        d as int,
                    )[m % d as int],
            ),
{
    let (run, z) = choose|run: ContextRun<P::T>, z: int| #[trigger]
        forward::are_context_ops(p, scores, vt, dims, run, z) && z == 4 && y == run.out;
    let none = None::<P::E>;
    assert(forward::is_context_op(p, scores, vt, dims, run, 0, none));
    assert(shows_softmax(v, t, *scores, run.weights));
    assert(forward::is_context_op(p, scores, vt, dims, run, 1, none));
    assert(shows_product(v, t, run.weights, *vt, run.mixed));
    assert(forward::is_context_op(p, scores, vt, dims, run, 2, none));
    assert(shows_swapped(t, run.mixed, run.rows));
    assert(forward::is_context_op(p, scores, vt, dims, run, 3, none));
    assert(shows_joined_heads(t, run.rows, y));
    assert forall|b: int, r: int| 0 <= b < n && 0 <= r < s implies #[trigger] (t.rows)(
        y,
        0,
        b,
        r,
    ) == Seq::new(
        (h * d) as nat,
        |m: int|
            attended(
                v,
                (t.rows)(*scores, b, m / d as int, r),
                block_rows(t, *vt, b, m / d as int),
                d as int,
            )[m % d as int],
    ) by {
        let want = Seq::new(
            (h * d) as nat,
            |m: int|
                attended(
                    v,
                    (t.rows)(*scores, b, m / d as int, r),
                    block_rows(t, *vt, b, m / d as int),
                    d as int,
                )[m % d as int],
        );
        assert(has_row((t.shape)(y), 0, b, r));
        let got = (t.rows)(y, 0, b, r);
        assert forall|m: int| 0 <= m < h * d implies #[trigger] got[m] == want[m] by {
            grid::place_cell(h as int, d as int, m);
            let j = m / d as int;
            mixed_seen(v, t, scores, vt, run.weights, run.mixed, n, h, s, d, b, j, r);
            assert(has_row((t.shape)(run.rows), b, r, j));
            assert((t.rows)(run.rows, b, r, j) == (t.rows)(run.mixed, b, j, r));
        }
        assert(got =~= want);
    }
}

proof fn attended_same<N, V>(
    v: Reals<N, V>,
    scores: Seq<V>,
    f: spec_fn(int) -> Seq<V>,
    g: spec_fn(int) -> Seq<V>,
    d: int,
)
    requires
        0 <= d,
        forall|k: int| 0 <= k < scores.len() ==> #[trigger] f(k) == g(k),
    ensures
        attended(v, scores, f, d) == attended(v, scores, g, d),
{
    let s = scores.len() as int;
    assert forall|l: int| 0 <= l < d implies #[trigger] attended(v, scores, f, d)[l] == attended(
        v,
        scores,
        g,
        d,
    )[l] by {
        assert(column(f, s, l) =~= column(g, s, l));
    }
    assert(attended(v, scores, f, d) =~= attended(v, scores, g, d));
}

/// The scene has the input, the angles, the mask and the head counts that attention is given.
pub open spec fn faces<N, T, V>(
    v: Reals<N, V>,
    t: Sight<T, V>,
    a: MultiHeadSelfAttention<N>,
    rope: RopeCache<N>,
    xs: &T,
    mask: Option<&T>,
    n: usize,
    s: usize,
    c: Scene<V>,
) -> bool {
    let half = rope.half as int;
    &&& forall|b: int, r: int|
        0 <= b < n && 0 <= r < s ==> #[trigger] (c.x)(b, r) == (t.rows)(*xs, 0, b, r)
    &&& forall|r: int| 0 <= r < s ==> #[trigger] (c.cos)(r) == angle_row(v, rope.cos@, half, r)
    &&& forall|r: int| 0 <= r < s ==> #[trigger] (c.sin)(r) == angle_row(v, rope.sin@, half, r)
    &&& c.mask is Some <==> mask is Some
    &&& mask matches Some(m) ==> forall|b: int, r: int|
        0 <= b < n && 0 <= r < s ==> #[trigger] (c.mask->Some_0)(b, r) == mask_row(t, *m, b, r)
    &&& c.s == s
    &&& c.h == a.n_heads
    &&& c.kv == a.n_kv_heads
    &&& c.d == a.head_dim
}

/// The scene has the weights of unpacked attention.
pub open spec fn has_host_weights<N, V>(
    v: Reals<N, V>,
    a: MultiHeadSelfAttention<N>,
    c: Scene<V>,
) -> bool {
    &&& c.wq == host_rows(v, a.q_proj)
    &&& c.bq == host_bias(v, a.q_proj)
    &&& c.wk == host_rows(v, a.k_proj)
    &&& c.bk == host_bias(v, a.k_proj)
    &&& c.wv == host_rows(v, a.v_proj)
    &&& c.bv == host_bias(v, a.v_proj)
    &&& c.wo == host_rows(v, a.o_proj)
    &&& c.bo == host_bias(v, a.o_proj)
}

/// The scene has the weights of packed attention.
pub open spec fn has_pack_weights<N, V>(
    v: Reals<N, V>,
    a: MultiHeadSelfAttention<N>,
    c: Scene<V>,
) -> bool {
    &&& c.wq == pack_rows(v, a.q_proj.pack()->Some_0@)
    &&& c.bq == host_bias(v, a.q_proj)
    &&& c.wk == pack_rows(v, a.k_proj.pack()->Some_0@)
    &&& c.bk == host_bias(v, a.k_proj)
    &&& c.wv == pack_rows(v, a.v_proj.pack()->Some_0@)
    &&& c.bv == host_bias(v, a.v_proj)
    &&& c.wo == pack_rows(v, a.o_proj.pack()->Some_0@)
    &&& c.bo == host_bias(v, a.o_proj)
}

/// The layers of unpacked attention are those of heads that make up the width.
pub open spec fn host_fits<N>(a: MultiHeadSelfAttention<N>, width: int) -> bool {
    &&& a.q_proj.pack() is None
    &&& a.k_proj.pack() is None
    &&& a.v_proj.pack() is None
    &&& a.o_proj.pack() is None
    &&& 0 < a.n_kv_heads <= a.n_heads
    &&& a.n_heads % a.n_kv_heads == 0
    &&& a.head_dim > 0
    &&& a.head_dim % 2 == 0
    &&& a.n_heads * a.head_dim == width
    &&& a.q_proj.lin().weight.dims@[0] == width
    &&& a.q_proj.lin().weight.dims@[1] == width
    &&& a.k_proj.lin().weight.dims@[0] == a.n_kv_heads * a.head_dim
    &&& a.k_proj.lin().weight.dims@[1] == width
    &&& a.v_proj.lin().weight.dims@[0] == a.n_kv_heads * a.head_dim
    &&& a.v_proj.lin().weight.dims@[1] == width
    &&& a.o_proj.lin().weight.dims@[0] == width
    &&& a.o_proj.lin().weight.dims@[1] == width
}

#[verifier::rlimit(80)]
pub(crate) proof fn attention_seen<P: Pass, V>(
    p: &P,
    v: Reals<P::N, V>,
    t: Sight<P::T, V>,
    a: MultiHeadSelfAttention<P::N>,
    rope: RopeCache<P::N>,
    xs: &P::T,
    mask: Option<&P::T>,
    n: usize,
    s: usize,
    w: usize,
    c: Scene<V>,
    y: P::T,
)
    requires
        rows_fit(t),
        divide_freely(v),
        moves_mean(p, v, t),
        sums_mean(p, v, t),
        projections_mean(p, v, t, a),
        host_fits(a, w as int),
        (t.shape)(*xs) == seq![n, s, w],
        rope.wf(),
        rope.half == a.head_dim / 2,
        mask matches Some(m) ==> mask_spans((t.shape)(*m), seq![n, a.n_heads, s, s]),
        faces(v, t, a, rope, xs, mask, n, s, c),
        has_host_weights(v, a, c),
        forward::is_attn_run(p, a, rope, xs, mask, Ok::<P::T, P::E>(y)),
    ensures
        (t.shape)(y) == seq![n, s, w],
        forall|b: int, r: int|
            0 <= b < n && 0 <= r < s ==> #[trigger] (t.rows)(y, 0, b, r) == out_row(v, c, b, r),
{
    let (h, kv, d) = (a.n_heads, a.n_kv_heads, a.head_dim);
    let (run, z) = choose|run: AttnRun<P::T>, z: int| #[trigger]
        forward::are_attn_ops(p, a, rope, xs, mask, run, z) && z == 14 && y == run.out;
    let none = None::<P::E>;
    assert(forward::is_attn_op(p, a, rope, xs, mask, run, 0, none));
    assert(run.dims == (n, s, w)) by {
        let x = seq![run.dims.0, run.dims.1, run.dims.2];
        let z = seq![n, s, w];
        assert(x == z);
        assert(x[0] == z[0] && x[1] == z[1] && x[2] == z[2]);
    }
    assert(forward::is_attn_op(p, a, rope, xs, mask, run, 1, none));
    heads_seen(p, v, t, a, Part::Query, xs, run.dims, h, d, run.q_heads);
    assert(forward::is_attn_op(p, a, rope, xs, mask, run, 2, none));
    heads_seen(p, v, t, a, Part::Key, xs, run.dims, kv, d, run.k_heads);
    assert(forward::is_attn_op(p, a, rope, xs, mask, run, 3, none));
    heads_seen(p, v, t, a, Part::Value, xs, run.dims, kv, d, run.v_heads);
    assert(forward::is_attn_op(p, a, rope, xs, mask, run, 4, none));
    turn_seen(p, v, t, &run.q_heads, rope, n, h, s, d, run.q_turned);
    assert(forward::is_attn_op(p, a, rope, xs, mask, run, 5, none));
    assert(shows_same(t, run.q_turned, run.q));
    assert(forward::is_attn_op(p, a, rope, xs, mask, run, 6, none));
    turn_seen(p, v, t, &run.k_heads, rope, n, kv, s, d, run.k_turned);
    assert(forward::is_attn_op(p, a, rope, xs, mask, run, 7, none));
    assert(shows_same(t, run.k_turned, run.k_own));
    assert(forward::is_attn_op(p, a, rope, xs, mask, run, 8, none));
    shared_seen(p, v, t, h, kv, run.k_own, run.k);
    assert(forward::is_attn_op(p, a, rope, xs, mask, run, 9, none));
    shared_seen(p, v, t, h, kv, run.v_heads, run.v);
    assert(forward::is_attn_op(p, a, rope, xs, mask, run, 10, none));
    score_seen(p, v, t, &run.q, &run.k, n, h, s, d, run.scores);
    assert(forward::is_attn_op(p, a, rope, xs, mask, run, 11, none));
    if let Some(m) = mask {
        assert(shows_masked(v, t, run.scores, *m, run.masked));
    }
    assert((t.shape)(run.masked) == seq![n, h, s, s]);
    assert(forward::is_attn_op(p, a, rope, xs, mask, run, 12, none));
    context_seen(p, v, t, &run.masked, &run.v, n, h, s, d, run.dims, run.context);
    assert(forward::is_attn_op(p, a, rope, xs, mask, run, 13, none));
    assert(shows_linear(
        v,
        t,
        host_rows(v, a.o_proj),
        host_bias(v, a.o_proj),
        run.context,
        y,
    ));
    assert forall|b: int, r: int| 0 <= b < n && 0 <= r < s implies #[trigger] (t.rows)(
        y,
        0,
        b,
        r,
    ) == out_row(v, c, b, r) by {
        let row = (t.rows)(run.context, 0, b, r);
        let want = joined_row(v, c, b, r);
        assert forall|m: int| 0 <= m < h * d implies #[trigger] row[m] == want[m] by {
            grid::place_cell(h as int, d as int, m);
            let j = m / d as int;
            head_seen::<P, V>(v, t, a, rope, xs, mask, n, s, w, c, run, b, j, r);
        }
        assert(row =~= want);
        assert(has_row((t.shape)(y), 0, b, r));
    }
}

proof fn head_seen<P: Pass, V>(
    v: Reals<P::N, V>,
    t: Sight<P::T, V>,
    a: MultiHeadSelfAttention<P::N>,
    rope: RopeCache<P::N>,
    xs: &P::T,
    mask: Option<&P::T>,
    n: usize,
    s: usize,
    w: usize,
    c: Scene<V>,
    run: AttnRun<P::T>,
    b: int,
    j: int,
    r: int,
)
    requires
        rows_fit(t),
        host_fits(a, w as int),
        faces(v, t, a, rope, xs, mask, n, s, c),
        has_host_weights(v, a, c),
        (t.shape)(run.q_heads) == seq![n, a.n_heads, s, a.head_dim],
        (t.shape)(run.k_heads) == seq![n, a.n_kv_heads, s, a.head_dim],
        (t.shape)(run.v_heads) == seq![n, a.n_kv_heads, s, a.head_dim],
        (t.shape)(run.q_turned) == seq![n, a.n_heads, s, a.head_dim],
        (t.shape)(run.k_turned) == seq![n, a.n_kv_heads, s, a.head_dim],
        (t.shape)(run.k) == seq![n, a.n_heads, s, a.head_dim],
        (t.shape)(run.v) == seq![n, a.n_heads, s, a.head_dim],
        (t.shape)(run.scores) == seq![n, a.n_heads, s, s],
        (t.shape)(run.masked) == seq![n, a.n_heads, s, s],
        forall|x: int, y: int, k: int|
            has_row((t.shape)(run.q_heads), x, y, k) ==> #[trigger] (t.rows)(
                run.q_heads,
                x,
                y,
                k,
            ) == part(
                lin_row(v, c.wq, c.bq, (t.rows)(*xs, 0, x, k)),
                a.head_dim as int,
                y,
            ),
        forall|x: int, y: int, k: int|
            has_row((t.shape)(run.k_heads), x, y, k) ==> #[trigger] (t.rows)(
                run.k_heads,
                x,
                y,
                k,
            ) == part(
                lin_row(v, c.wk, c.bk, (t.rows)(*xs, 0, x, k)),
                a.head_dim as int,
                y,
            ),
        forall|x: int, y: int, k: int|
            has_row((t.shape)(run.v_heads), x, y, k) ==> #[trigger] (t.rows)(
                run.v_heads,
                x,
                y,
                k,
            ) == part(
                lin_row(v, c.wv, c.bv, (t.rows)(*xs, 0, x, k)),
                a.head_dim as int,
                y,
            ),
        forall|x: int, y: int, k: int|
            has_row((t.shape)(run.q_turned), x, y, k) ==> #[trigger] (t.rows)(
                run.q_turned,
                x,
                y,
                k,
            ) == turned(
                v,
                (t.rows)(run.q_heads, x, y, k),
                angle_row(v, rope.cos@, rope.half as int, k),
                angle_row(v, rope.sin@, rope.half as int, k),
            ),
        forall|x: int, y: int, k: int|
            has_row((t.shape)(run.k_turned), x, y, k) ==> #[trigger] (t.rows)(
                run.k_turned,
                x,
                y,
                k,
            ) == turned(
                v,
                (t.rows)(run.k_heads, x, y, k),
                angle_row(v, rope.cos@, rope.half as int, k),
                angle_row(v, rope.sin@, rope.half as int, k),
            ),
        shows_same(t, run.q_turned, run.q),
        shows_same(t, run.k_turned, run.k_own),
        forall|x: int, y: int, k: int|
            has_row((t.shape)(run.k), x, y, k) ==> #[trigger] (t.rows)(run.k, x, y, k) == (t.rows)(
                run.k_own,
                x,
                kernel_ref::kv_head(a.n_heads as int, a.n_kv_heads as int, y),
                k,
            ),
        forall|x: int, y: int, k: int|
            has_row((t.shape)(run.v), x, y, k) ==> #[trigger] (t.rows)(run.v, x, y, k) == (t.rows)(
                run.v_heads,
                x,
                kernel_ref::kv_head(a.n_heads as int, a.n_kv_heads as int, y),
                k,
            ),
        forall|x: int, y: int, k: int|
            has_row((t.shape)(run.scores), x, y, k) ==> #[trigger] (t.rows)(
                run.scores,
                x,
                y,
                k,
            ) == Seq::new(
                s as nat,
                |m: int|
                    score(
                        v,
                        a.head_dim as int,
                        (t.rows)(run.q, x, y, k),
                        (t.rows)(run.k, x, y, m),
                        None,
                    ),
            ),
        match mask {
            Some(m) => shows_masked(v, t, run.scores, *m, run.masked) && mask_spans(
                (t.shape)(*m),
                seq![n, a.n_heads, s, s],
            ),
            None => run.masked == run.scores,
        },
        0 <= b < n,
        0 <= j < a.n_heads,
        0 <= r < s,
    ensures
        attended(
            v,
            (t.rows)(run.masked, b, j, r),
            block_rows(t, run.v, b, j),
            a.head_dim as int,
        ) == ctx_row(v, c, b, j, r),
{
    let h = a.n_heads as int;
    let kv = a.n_kv_heads as int;
    let d = a.head_dim as int;
    let g = kernel_ref::kv_head(h, kv, j);
    repeat::heads_are_there(h, kv, j);
    kernel_ref::kv_head_nonneg(h, kv, j);
    let qrow = (t.rows)(run.q, b, j, r);
    assert(qrow == q_row(v, c, b, j, r)) by {
        assert((t.rows)(run.q, b, j, r) == (t.rows)(run.q_turned, b, j, r));
        assert(has_row((t.shape)(run.q_heads), b, j, r));
        assert((c.x)(b, r) == (t.rows)(*xs, 0, b, r));
        assert((c.cos)(r) == angle_row(v, rope.cos@, rope.half as int, r));
        assert((c.sin)(r) == angle_row(v, rope.sin@, rope.half as int, r));
    }
    assert forall|m: int| 0 <= m < s implies #[trigger] (t.rows)(run.k, b, j, m) == k_row(
        v,
        c,
        b,
        g,
        m,
    ) by {
        assert(has_row((t.shape)(run.k), b, j, m));
        assert((t.rows)(run.k_own, b, g, m) == (t.rows)(run.k_turned, b, g, m));
        assert(has_row((t.shape)(run.k_turned), b, g, m));
        assert(has_row((t.shape)(run.k_heads), b, g, m));
        assert((c.x)(b, m) == (t.rows)(*xs, 0, b, m));
        assert((c.cos)(m) == angle_row(v, rope.cos@, rope.half as int, m));
        assert((c.sin)(m) == angle_row(v, rope.sin@, rope.half as int, m));
    }
    let f = block_rows(t, run.v, b, j);
    let e = v_rows(v, c, b, g);
    assert forall|m: int| 0 <= m < s implies #[trigger] f(m) == e(m) by {
        assert(has_row((t.shape)(run.v), b, j, m));
        assert(has_row((t.shape)(run.v_heads), b, g, m));
        assert((c.x)(b, m) == (t.rows)(*xs, 0, b, m));
    }
    let got = (t.rows)(run.masked, b, j, r);
    let want = score_row(v, c, b, j, r);
    assert(has_row((t.shape)(run.scores), b, j, r));
    assert(has_row((t.shape)(run.masked), b, j, r));
    assert(got.len() == s);
    assert forall|m: int| 0 <= m < s implies #[trigger] got[m] == want[m] by {
        assert((t.rows)(run.k, b, j, m) == k_row(v, c, b, g, m));
        assert((t.rows)(run.scores, b, j, r)[m] == score(
            v,
            d,
            qrow,
            (t.rows)(run.k, b, j, m),
            None,
        ));
        if let Some(mk) = mask {
            assert(got == zipped(
                (t.rows)(run.scores, b, j, r),
                mask_row(t, *mk, b, r),
                v.ring.plus,
            ));
            assert((c.mask->Some_0)(b, r) == mask_row(t, *mk, b, r));
        }
    }
    assert(got =~= want);
    attended_same(v, got, f, e, d);
}

/// A plain tensor holds what a tensor of three or four dimensions shows.
pub open spec fn holds<N, T, V>(v: Reals<N, V>, t: Sight<T, V>, x: T, y: DenseTensor<N>) -> bool {
    let d = (t.shape)(x);
    &&& y.dims@ == d
    &&& y@.wf()
    &&& d.len() == 3 ==> forall|j: int, k: int|
        has_row(d, 0, j, k) ==> #[trigger] (t.rows)(x, 0, j, k) == vals(
            v,
            kernel_ref::token(y.data@, d[2] as int, j * d[1] + k),
        )
    &&& d.len() == 4 ==> forall|i: int, j: int, k: int|
        has_row(d, i, j, k) ==> #[trigger] (t.rows)(x, i, j, k) == vals(
            v,
            kernel_ref::token(y.data@, d[3] as int, (i * d[1] + j) * d[2] + k),
        )
}

/// Tensors and plain tensors are turned into each other value by value.
pub open spec fn turns_mean<P: Pass, V>(p: &P, v: Reals<P::N, V>, t: Sight<P::T, V>) -> bool {
    &&& forall|x: &P::T, y: DenseTensor<P::N>| #[trigger]
        call_ensures(P::plain, (p, x), Ok::<DenseTensor<P::N>, P::E>(y)) ==> holds(v, t, *x, y)
    &&& forall|y: DenseTensor<P::N>, x: P::T| #[trigger]
        call_ensures(P::tensor, (p, y), Ok::<P::T, P::E>(x)) ==> holds(v, t, x, y)
}

/// The arithmetic of the packed kernels does not round.
pub open spec fn counts_exactly<P: Pass, V>(p: &P, v: Reals<P::N, V>) -> bool {
    forall|ar: &P::A| #[trigger] call_ensures(P::arith, (p,), ar) ==> is_exact(ar, v)
}

/// The packs of attention are those of heads that make up the width.
pub open spec fn heads_fit<N>(a: MultiHeadSelfAttention<N>, width: int) -> bool {
    &&& a.all_packed()
    &&& 0 < a.n_kv_heads <= a.n_heads
    &&& a.n_heads % a.n_kv_heads == 0
    &&& a.head_dim > 0
    &&& a.head_dim % 2 == 0
    &&& a.n_heads * a.head_dim == width
    &&& width % 4 == 0
    &&& is_sized(a.q_proj, width, width)
    &&& is_sized(a.k_proj, a.n_kv_heads * a.head_dim, width)
    &&& is_sized(a.v_proj, a.n_kv_heads * a.head_dim, width)
    &&& is_sized(a.o_proj, width, width)
}

/// The packed weights of a layer have these dimensions.
pub open spec fn is_sized<N>(lin: MaybeTernaryLinear<N>, out: int, n: int) -> bool {
    lin.pack()->Some_0.out_dim == out && lin.pack()->Some_0.in_dim == n
}

pub(crate) proof fn counts_three(a: usize, b: usize, c: usize)
    ensures
        tensor::elem_count(seq![a, b, c]) == a * b * c,
{
    let none = Seq::<usize>::empty();
    assert(seq![a, b, c].drop_last() =~= seq![a, b]);
    assert(seq![a, b].drop_last() =~= seq![a]);
    assert(seq![a].drop_last() =~= none);
    assert(tensor::elem_count(none) == 1);
    assert(tensor::elem_count(seq![a]) == tensor::elem_count(none) * a as nat);
    assert(tensor::elem_count(seq![a, b]) == tensor::elem_count(seq![a]) * b as nat);
    assert(tensor::elem_count(seq![a, b, c]) == tensor::elem_count(seq![a, b]) * c as nat);
    assert(1 * a as nat == a as nat) by (nonlinear_arith);
}

proof fn counts_four(a: usize, b: usize, c: usize, d: usize)
    ensures
        tensor::elem_count(seq![a, b, c, d]) == a * b * c * d,
{
    counts_three(a, b, c);
    assert(seq![a, b, c, d].drop_last() =~= seq![a, b, c]);
}

proof fn table_front<N, V>(v: Reals<N, V>, table: Seq<N>, half: int, s: int, max: int, r: int)
    requires
        0 <= r < s <= max,
        0 <= half,
        table.len() == max * half,
    ensures
        vals(v, kernel_ref::token(table.take(s * half), half, r)) == angle_row(v, table, half, r),
{
    assert(0 <= r * half && r * half + half <= s * half && s * half <= max * half)
        by (nonlinear_arith)
        requires
            0 <= r < s <= max,
            0 <= half,
    ;
    assert(kernel_ref::token(table.take(s * half), half, r) =~= kernel_ref::token(table, half, r));
}

proof fn repeated_row<N>(m: Seq<N>, n: int, s: int, b: int, r: int)
    requires
        0 <= b < n,
        0 <= r < s,
        m.len() == s * s,
    ensures
        kernel_ref::token(kernel_dispatch::repeated(m, n), s, b * s + r) == kernel_ref::token(
            m,
            s,
            r,
        ),
{
    let all = kernel_dispatch::repeated(m, n);
    let base = (b * s + r) * s;
    assert(0 <= r * s && r * s + s <= s * s && 0 <= base && base + s <= n * (s * s) && base == b * (
    s * s) + r * s) by (nonlinear_arith)
        requires
            0 <= b < n,
            0 <= r < s,
            base == (b * s + r) * s,
    ;
    assert(all.len() == n * (s * s));
    let got = kernel_ref::token(all, s, b * s + r);
    let want = kernel_ref::token(m, s, r);
    assert forall|i: int| 0 <= i < s implies #[trigger] got[i] == want[i] by {
        vstd::arithmetic::div_mod::lemma_mod_multiples_vanish(b, r * s + i, s * s);
        vstd::arithmetic::div_mod::lemma_small_mod((r * s + i) as nat, (s * s) as nat);
        assert((s * s) * b == b * (s * s)) by (nonlinear_arith);
        assert(got[i] == all[base + i]);
    }
    assert(got =~= want);
}

proof fn mask_seen<N, T, V>(
    v: Reals<N, V>,
    t: Sight<T, V>,
    mask: T,
    m: DenseTensor<N>,
    n: usize,
    h: usize,
    s: usize,
    used: Seq<N>,
    b: int,
    r: int,
)
    requires
        holds(v, t, mask, m),
        mask_spans((t.shape)(mask), seq![n, h, s, s]),
        kernel_dispatch::mask_for(Some(m.data@), n as int, s as int) == Ok::<
            Option<Seq<N>>,
            DispatchError,
        >(Some(used)),
        0 <= b < n,
        0 <= r < s,
    ensures
        vals(v, kernel_ref::token(used, s as int, b * s + r)) == mask_row(t, mask, b, r),
{
    let shape = (t.shape)(mask);
    let f = shape[0];
    assert(shape =~= seq![f, 1usize, s, s]);
    counts_four(f, 1, s, s);
    let len = m.data@.len() as int;
    assert(len == f * (s * s)) by (nonlinear_arith)
        requires
            len == f * 1usize * s * s,
    ;
    assert(n * s * s == n * (s * s)) by (nonlinear_arith);
    let i = if f == 1 {
        0
    } else {
        b
    };
    assert(has_row(shape, i, 0, r));
    let place = (i * shape[1] + 0) * shape[2] + r;
    assert(place == i * s + r) by (nonlinear_arith)
        requires
            place == (i * shape[1] + 0) * shape[2] + r,
            shape[1] == 1,
            shape[2] == s,
    ;
    assert(mask_row(t, mask, b, r) == vals(v, kernel_ref::token(m.data@, s as int, i * s + r)));
    if f == 1 && n != 1 {
        assert(f * (s * s) == s * s) by (nonlinear_arith)
            requires
                f == 1,
        ;
        assert(s * s > 0) by (nonlinear_arith)
            requires
                s > 0,
        ;
        assert(n * (s * s) != s * s) by (nonlinear_arith)
            requires
                n != 1,
                s * s > 0,
        ;
        repeated_row(m.data@, n as int, s as int, b, r);
    } else {
        assert(f == n);
        assert(used == m.data@);
        assert(b < n && (n == 1 ==> b == 0));
    }
}

/// What packed attention works on, for an answer that it gave.
#[verifier::rlimit(60)]
pub(crate) proof fn packed_seen<P: Pass, V>(
    p: &P,
    v: Reals<P::N, V>,
    t: Sight<P::T, V>,
    a: MultiHeadSelfAttention<P::N>,
    rope: RopeCache<P::N>,
    xs: &P::T,
    mask: Option<&P::T>,
    n: usize,
    s: usize,
    w: usize,
    y: P::T,
) -> (c: Scene<V>)
    requires
        counts_exactly(p, v),
        repeat::leaves_device(p),
        turns_mean(p, v, t),
        heads_fit(a, w as int),
        rope.half == a.head_dim / 2,
        (t.shape)(*xs) == seq![n, s, w],
        mask matches Some(m) ==> mask_spans((t.shape)(*m), seq![n, a.n_heads, s, s]),
        forward::is_packed_attention_out(p, a, rope, xs, mask, Ok::<P::T, P::E>(y)),
    ensures
        faces(v, t, a, rope, xs, mask, n, s, c),
        has_pack_weights(v, a, c),
        (t.shape)(y) == seq![n, s, w],
        forall|b: int, r: int|
            0 <= b < n && 0 <= r < s ==> #[trigger] (t.rows)(y, 0, b, r) == out_row(v, c, b, r),
{
    let ok = Ok::<P::T, P::E>(y);
    let x = choose|x: Result<DenseTensor<P::N>, P::E>| #[trigger]
        call_ensures(P::plain, (p, xs), x) && match x {
            Ok(x) => forward::is_packed_attention_masked(p, a, rope, x, mask, ok),
            Err(e) => ok == Err::<P::T, P::E>(e),
        };
    let x = x->Ok_0;
    assert(holds(v, t, *xs, x));
    let m = choose|m: Result<Option<DenseTensor<P::N>>, P::E>| #[trigger]
        forward::is_plain_mask(p, mask, m) && match m {
            Ok(m) => forward::is_packed_attention_on(p, a, rope, x, m, ok),
            Err(e) => ok == Err::<P::T, P::E>(e),
        };
    let m = m->Ok_0;
    let (ar, bank, q) = choose|ar: &P::A, bank: &P::B, q: Result<DenseTensor<P::N>, DispatchError>|
        {
            &&& forward::names_kernels(p, ar, bank)
            &&& #[trigger] kernel_dispatch::is_mha_answer(
                ar,
                bank,
                x,
                a.q_proj,
                a.k_proj,
                a.v_proj,
                a.o_proj,
                a.n_heads,
                a.n_kv_heads,
                a.head_dim,
                rope,
                forward::flat(m),
                kernel_dispatch::result_model(q),
            )
            &&& forward::is_carried(p, q, ok)
        };
    assert(is_exact(ar, v));
    assert(q is Ok);
    let z = q->Ok_0;
    assert(holds(v, t, y, z));
    let r = kernel_dispatch::result_model(q);
    let dims = seq![x.dims@[0], x.dims@[1], a.o_proj.pack()->Some_0.out_dim];
    let (e, out) = choose|e: MhaCall<P::N>, out: Seq<P::N>|
        {
            &&& kernel_dispatch::is_mha_call(
                e,
                x,
                a.q_proj,
                a.k_proj,
                a.v_proj,
                a.o_proj,
                a.n_heads,
                a.n_kv_heads,
                a.head_dim,
                rope,
                forward::flat(m),
            )
            &&& #[trigger] kernel_dispatch::is_mha_f32(ar, bank, &e, out)
            &&& r == kernel_dispatch::shaped(dims, out)
        };
    assert(z@.dims == dims && z@.data == out);
    let (h, kv, d) = (a.n_heads as int, a.n_kv_heads as int, a.head_dim as int);
    let half = rope.half as int;
    let kept = kernel_ref::held(e.mask);
    let c = packed_scene(
        v,
        e.xs@,
        s as int,
        e.q@,
        kernel_ref::held(e.q_bias),
        e.k@,
        kernel_ref::held(e.k_bias),
        e.v@,
        kernel_ref::held(e.v_bias),
        e.o@,
        kernel_ref::held(e.o_bias),
        h,
        kv,
        d,
        e.rope_cos@,
        e.rope_sin@,
        kept,
    );
    counts_three(n, s, w);
    assert(x.dims@ == seq![n, s, w]);
    let max = rope.max_seq as int;
    assert(s * half <= max * half && 0 <= s * half) by (nonlinear_arith)
        requires
            s <= max,
            0 <= half,
    ;
    assert(mask is Some ==> holds(v, t, *mask->Some_0, m->Some_0));
    assert(kept matches Some(u) ==> u.len() == n * s * s) by {
        assert(n * s * s == n * (s * s)) by (nonlinear_arith);
        assert(n * (s * s) >= 0) by (nonlinear_arith)
            requires
                n >= 0,
        ;
    }
    assert forall|b: int, i: int| 0 <= b < n && 0 <= i < s implies #[trigger] (t.rows)(y, 0, b, i)
        == out_row(v, c, b, i) by {
        mha_stands(
            ar,
            v,
            e.xs@,
            n as int,
            s as int,
            e.q@,
            kernel_ref::held(e.q_bias),
            e.k@,
            kernel_ref::held(e.k_bias),
            e.v@,
            kernel_ref::held(e.v_bias),
            e.o@,
            kernel_ref::held(e.o_bias),
            h,
            kv,
            d,
            e.rope_cos@,
            e.rope_sin@,
            kept,
            out,
            b,
            i,
        );
        assert(has_row((t.shape)(y), 0, b, i));
    }
    assert forall|b: int, i: int| 0 <= b < n && 0 <= i < s implies #[trigger] (c.x)(b, i) == (
    t.rows)(*xs, 0, b, i) by {
        assert(has_row((t.shape)(*xs), 0, b, i));
    }
    assert forall|i: int| 0 <= i < s implies #[trigger] (c.cos)(i) == angle_row(
        v,
        rope.cos@,
        half,
        i,
    ) by {
        table_front(v, rope.cos@, half, s as int, max, i);
    }
    assert forall|i: int| 0 <= i < s implies #[trigger] (c.sin)(i) == angle_row(
        v,
        rope.sin@,
        half,
        i,
    ) by {
        table_front(v, rope.sin@, half, s as int, max, i);
    }
    if let Some(mk) = mask {
        let mt = m->Some_0;
        assert forall|b: int, i: int| 0 <= b < n && 0 <= i < s implies #[trigger] (
        c.mask->Some_0)(b, i) == mask_row(t, *mk, b, i) by {
            mask_seen(v, t, *mk, mt, n, a.n_heads, s, kept->Some_0, b, i);
        }
    }
    c
}

/// A layer of weights that are those of a packed layer, with the same bias.
pub open spec fn is_unpacked_layer<A: Arith>(
    ar: &A,
    packed: MaybeTernaryLinear<A::Num>,
    lin: MaybeTernaryLinear<A::Num>,
) -> bool {
    let pack = packed.pack()->Some_0;
    &&& lin.pack() is None
    &&& lin.lin().weight.dims@ == seq![pack.out_dim, pack.in_dim]
    &&& quantize::are_weights(ar, pack@, lin.lin().weight.data@)
    &&& kernel_dispatch::owned(lin.lin().bias) == kernel_dispatch::owned(packed.lin().bias)
}

/// Attention of weights that are those of packed attention.
pub open spec fn is_unpacked<A: Arith>(
    ar: &A,
    packed: MultiHeadSelfAttention<A::Num>,
    a: MultiHeadSelfAttention<A::Num>,
) -> bool {
    &&& a.n_heads == packed.n_heads
    &&& a.n_kv_heads == packed.n_kv_heads
    &&& a.head_dim == packed.head_dim
    &&& is_unpacked_layer(ar, packed.q_proj, a.q_proj)
    &&& is_unpacked_layer(ar, packed.k_proj, a.k_proj)
    &&& is_unpacked_layer(ar, packed.v_proj, a.v_proj)
    &&& is_unpacked_layer(ar, packed.o_proj, a.o_proj)
}

pub(crate) proof fn weights_stand<A: Arith, V>(
    ar: &A,
    v: Reals<A::Num, V>,
    packed: MaybeTernaryLinear<A::Num>,
    lin: MaybeTernaryLinear<A::Num>,
)
    requires
        is_exact(ar, v),
        packed.pack() is Some,
        is_unpacked_layer(ar, packed, lin),
    ensures
        host_rows(v, lin) == pack_rows(v, packed.pack()->Some_0@),
        host_bias(v, lin) == host_bias(v, packed),
{
    let pack = packed.pack()->Some_0@;
    let w = lin.lin().weight.data@;
    let rows = host_rows(v, lin);
    let want = pack_rows(v, pack);
    let n = pack.in_dim as int;
    assert forall|o: int| 0 <= o < pack.out_dim implies #[trigger] rows[o] == want[o] by {
        kernel_ref::token_place(pack.out_dim as int, n, o);
        assert forall|i: int| 0 <= i < n implies #[trigger] rows[o][i] == want[o][i] by {
            let x = grid::cell(w, n, o, i);
            assert(quantize::is_weight(ar, pack.alphas[o], pack.level(o, i), x));
        }
        assert(rows[o] =~= want[o]);
    }
    assert(rows =~= want);
}

/// Packed attention and attention of its unpacked weights are one model. Where arithmetic does
/// not round, no device takes part and the tensor operations mean what they are named for, both
/// answer inputs of the same values with tensors of the same dimensions and the same values, with
/// a mask or without.
pub proof fn packed_attention_as_unpacked<P: Pass, V>(
    p: &P,
    u: &P,
    ar: &P::A,
    v: Reals<P::N, V>,
    t: Sight<P::T, V>,
    packed: MultiHeadSelfAttention<P::N>,
    a: MultiHeadSelfAttention<P::N>,
    rope: RopeCache<P::N>,
    xs: &P::T,
    zs: &P::T,
    mask: Option<&P::T>,
    n: usize,
    s: usize,
    w: usize,
    y: P::T,
    z: P::T,
)
    requires
        is_exact(ar, v),
        counts_exactly(p, v),
        repeat::leaves_device(p),
        turns_mean(p, v, t),
        rows_fit(t),
        moves_mean(u, v, t),
        sums_mean(u, v, t),
        projections_mean(u, v, t, a),
        heads_fit(packed, w as int),
        is_unpacked(ar, packed, a),
        rope.wf(),
        rope.half == packed.head_dim / 2,
        (t.shape)(*xs) == seq![n, s, w],
        alike(t, *xs, *zs),
        mask matches Some(m) ==> mask_spans((t.shape)(*m), seq![n, packed.n_heads, s, s]),
        forward::is_attention_out(p, packed, rope, xs, mask, Ok::<P::T, P::E>(y)),
        forward::is_attention_out(u, a, rope, zs, mask, Ok::<P::T, P::E>(z)),
    ensures
        (t.shape)(y) == seq![n, s, w],
        alike(t, y, z),
{
    let c = packed_seen(p, v, t, packed, rope, xs, mask, n, s, w, y);
    weights_stand(ar, v, packed.q_proj, a.q_proj);
    weights_stand(ar, v, packed.k_proj, a.k_proj);
    weights_stand(ar, v, packed.v_proj, a.v_proj);
    weights_stand(ar, v, packed.o_proj, a.o_proj);
    assert forall|b: int, r: int| 0 <= b < n && 0 <= r < s implies #[trigger] (c.x)(b, r) == (
    t.rows)(*zs, 0, b, r) by {
        assert(has_row((t.shape)(*xs), 0, b, r));
        assert((t.rows)(*xs, 0, b, r) == (t.rows)(*zs, 0, b, r));
    }
    attention_seen(u, v, t, a, rope, zs, mask, n, s, w, c, z);
}

} // verus!
