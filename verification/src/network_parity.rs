//! A packed transformer and the transformer of its unpacked weights are one model: where
//! arithmetic does not round and the tensor operations mean what they are named for, both give
//! the same values.

use crate::arith;
use crate::arith::Arith;
use crate::forward;
use crate::forward::{BlockRun, ForwardError, GatedRun, Layers, Pass, Site};
use crate::kernel_dispatch;
use crate::kernel_dispatch::{DispatchError, MaybeTernaryLinear, Part, RopeCache};
use crate::kernel_ref;
use crate::network::{Block, SharedNetwork, SwiGluFfn, TransformerBlock};
use crate::parity;
use crate::parity::{Reals, Sight};
use crate::quantize::PackModel;
use crate::repeat;
use crate::tensor::DenseTensor;
use vstd::prelude::*;

verus! {

/// `x / (1 + exp(-x))`.
pub open spec fn silu<N, V>(v: Reals<N, V>, x: V) -> V {
    (v.over)(x, v.plus(v.whole(1), (v.exp)((v.negated)(x))))
}

/// `silu` of every entry.
pub open spec fn silus<N, V>(v: Reals<N, V>, s: Seq<V>) -> Seq<V> {
    Seq::new(s.len(), |i: int| silu(v, s[i]))
}

/// The weights of a gated feed-forward layer.
pub struct Gates<V> {
    pub gate: Seq<Seq<V>>,
    pub gate_bias: Option<Seq<V>>,
    pub value: Seq<Seq<V>>,
    pub value_bias: Option<Seq<V>>,
    pub down: Seq<Seq<V>>,
    pub down_bias: Option<Seq<V>>,
}

/// What the layer multiplies before it projects back.
pub open spec fn hidden_row<N, V>(v: Reals<N, V>, g: Gates<V>, x: Seq<V>) -> Seq<V> {
    parity::zipped(
        silus(v, parity::lin_row(v, g.gate, g.gate_bias, x)),
        parity::lin_row(v, g.value, g.value_bias, x),
        v.ring.times,
    )
}

/// `down(silu(gate(x)) * value(x))`.
pub open spec fn gated_row<N, V>(v: Reals<N, V>, g: Gates<V>, x: Seq<V>) -> Seq<V> {
    parity::lin_row(v, g.down, g.down_bias, hidden_row(v, g, x))
}

/// The weights of packed projections.
pub open spec fn pack_gates<N, V>(
    v: Reals<N, V>,
    gate: PackModel<N>,
    gate_bias: Option<Seq<N>>,
    value: PackModel<N>,
    value_bias: Option<Seq<N>>,
    down: PackModel<N>,
    down_bias: Option<Seq<N>>,
) -> Gates<V> {
    Gates {
        gate: parity::pack_rows(v, gate),
        gate_bias: parity::some_vals(v, gate_bias),
        value: parity::pack_rows(v, value),
        value_bias: parity::some_vals(v, value_bias),
        down: parity::pack_rows(v, down),
        down_bias: parity::some_vals(v, down_bias),
    }
}

/// The packed projections follow each other.
pub open spec fn gates_chain<N>(
    gate: PackModel<N>,
    gate_bias: Option<Seq<N>>,
    value: PackModel<N>,
    value_bias: Option<Seq<N>>,
    down: PackModel<N>,
    down_bias: Option<Seq<N>>,
) -> bool {
    &&& gate.in_dim % 4 == 0
    &&& value.in_dim == gate.in_dim
    &&& value.out_dim == gate.out_dim
    &&& down.in_dim % 4 == 0
    &&& down.in_dim == gate.out_dim
    &&& kernel_ref::bias_fits(gate_bias, gate)
    &&& kernel_ref::bias_fits(value_bias, value)
    &&& kernel_ref::bias_fits(down_bias, down)
}

proof fn gates_stand<A: Arith, V>(
    ar: &A,
    v: Reals<A::Num, V>,
    xs: Seq<A::Num>,
    tokens: int,
    gate: PackModel<A::Num>,
    gate_bias: Option<Seq<A::Num>>,
    value: PackModel<A::Num>,
    value_bias: Option<Seq<A::Num>>,
    down: PackModel<A::Num>,
    down_bias: Option<Seq<A::Num>>,
    out: Seq<A::Num>,
    i: int,
)
    requires
        parity::is_exact(ar, v),
        gates_chain(gate, gate_bias, value, value_bias, down, down_bias),
        0 <= i < tokens,
        xs.len() == tokens * gate.in_dim,
        kernel_ref::is_swiglu_ffn(
            ar,
            xs,
            tokens,
            gate,
            gate_bias,
            value,
            value_bias,
            down,
            down_bias,
            out,
        ),
    ensures
        parity::vals(v, kernel_ref::token(out, down.out_dim as int, i)) == gated_row(
            v,
            pack_gates(v, gate, gate_bias, value, value_bias, down, down_bias),
            parity::vals(v, kernel_ref::token(xs, gate.in_dim as int, i)),
        ),
{
    let (g, w, hidden) = choose|g: Seq<A::Num>, w: Seq<A::Num>, hidden: Seq<A::Num>|
        {
            &&& kernel_ref::is_linear(ar, xs, gate, gate_bias, tokens, g)
            &&& kernel_ref::is_linear(ar, xs, value, value_bias, tokens, w)
            &&& #[trigger] kernel_ref::is_swiglu_table(ar, g, w, hidden)
            &&& kernel_ref::is_linear(ar, hidden, down, down_bias, tokens, out)
        };
    let n = gate.out_dim as int;
    let all = pack_gates(v, gate, gate_bias, value, value_bias, down, down_bias);
    let x = parity::vals(v, kernel_ref::token(xs, gate.in_dim as int, i));
    parity::linear_stands(ar, v, xs, gate, gate_bias, tokens, g, i);
    parity::linear_stands(ar, v, xs, value, value_bias, tokens, w, i);
    parity::linear_stands(ar, v, hidden, down, down_bias, tokens, out, i);
    kernel_ref::token_place(tokens, n, i);
    let got = parity::vals(v, kernel_ref::token(hidden, n, i));
    let want = hidden_row(v, all, x);
    assert forall|k: int| 0 <= k < n implies #[trigger] got[k] == want[k] by {
        let at = i * n + k;
        assert(0 <= at < g.len());
        assert(kernel_ref::is_swiglu(ar, g[at], w[at], hidden[at]));
        let (neg, e, one, below, s) = choose|
            neg: A::Num,
            e: A::Num,
            one: A::Num,
            below: A::Num,
            s: A::Num,
        |
            {
                &&& arith::is_negated(ar, g[at], neg)
                &&& #[trigger] arith::is_exp(ar, neg, e)
                &&& arith::is_whole(ar, 1, one)
                &&& #[trigger] arith::is_sum(ar, one, e, below)
                &&& #[trigger] arith::is_quotient(ar, g[at], below, s)
                &&& arith::is_product(ar, s, w[at], hidden[at])
            };
        assert(v.of(one) == v.whole(1));
        assert(v.of(s) == silu(v, v.of(g[at])));
        assert(parity::vals(v, kernel_ref::token(g, n, i))[k] == v.of(g[at]));
        assert(parity::vals(v, kernel_ref::token(w, n, i))[k] == v.of(w[at]));
    }
    assert(got =~= want);
}

/// The tensor operations of a gated layer mean what they are named for.
pub open spec fn gates_mean<P: Pass, V>(p: &P, v: Reals<P::N, V>, t: Sight<P::T, V>) -> bool {
    &&& forall|x: &P::T, y: P::T| #[trigger]
        call_ensures(P::silu, (p, x), Ok::<P::T, P::E>(y)) ==> {
            &&& (t.shape)(y) == (t.shape)(*x)
            &&& forall|i: int, j: int, k: int|
                parity::has_row((t.shape)(y), i, j, k) ==> #[trigger] (t.rows)(y, i, j, k) == silus(
                    v,
                    (t.rows)(*x, i, j, k),
                )
        }
    &&& forall|a: &P::T, b: &P::T, y: P::T| #[trigger]
        call_ensures(P::times, (p, a, b), Ok::<P::T, P::E>(y)) && (t.shape)(*a) == (t.shape)(*b)
            ==> parity::shows_zipped(t, *a, *b, v.ring.times, y)
}

/// The layer of a projection of a feed-forward layer.
pub open spec fn gate_of<N>(f: SwiGluFfn<N>, at: Part) -> MaybeTernaryLinear<N> {
    match at {
        Part::Gate => f.gate,
        Part::FfnValue => f.value,
        _ => f.down,
    }
}

/// The tensor library's own projections are those of the layer.
pub open spec fn gate_projections_mean<P: Pass, V>(
    p: &P,
    v: Reals<P::N, V>,
    t: Sight<P::T, V>,
    f: SwiGluFfn<P::N>,
    site: Site,
) -> bool {
    forall|at: Part, x: &P::T, y: P::T| #[trigger]
        call_ensures(P::linear, (p, site, at, x), Ok::<P::T, P::E>(y)) && (t.shape)(*x).len() == 3
            && (t.shape)(*x)[2] == gate_of(f, at).lin().weight.dims@[1] ==> parity::shows_linear(
            v,
            t,
            parity::host_rows(v, gate_of(f, at)),
            parity::host_bias(v, gate_of(f, at)),
            *x,
            y,
        )
}

/// The weights of unpacked projections.
pub open spec fn host_gates<N, V>(v: Reals<N, V>, f: SwiGluFfn<N>) -> Gates<V> {
    Gates {
        gate: parity::host_rows(v, f.gate),
        gate_bias: parity::host_bias(v, f.gate),
        value: parity::host_rows(v, f.value),
        value_bias: parity::host_bias(v, f.value),
        down: parity::host_rows(v, f.down),
        down_bias: parity::host_bias(v, f.down),
    }
}

/// The packs of a feed-forward layer lead from the width to the hidden one and back.
pub open spec fn gates_fit<N>(f: SwiGluFfn<N>, width: int, hidden: int) -> bool {
    &&& f.all_packed()
    &&& width > 0
    &&& width % 4 == 0
    &&& hidden % 4 == 0
    &&& parity::is_sized(f.gate, hidden, width)
    &&& parity::is_sized(f.value, hidden, width)
    &&& parity::is_sized(f.down, width, hidden)
}

/// A feed-forward layer of weights that are those of a packed one.
pub open spec fn is_unpacked_ffn<A: Arith>(
    ar: &A,
    packed: SwiGluFfn<A::Num>,
    f: SwiGluFfn<A::Num>,
) -> bool {
    &&& parity::is_unpacked_layer(ar, packed.gate, f.gate)
    &&& parity::is_unpacked_layer(ar, packed.value, f.value)
    &&& parity::is_unpacked_layer(ar, packed.down, f.down)
}

pub(crate) proof fn gated_seen<P: Pass, V>(
    u: &P,
    v: Reals<P::N, V>,
    t: Sight<P::T, V>,
    f: SwiGluFfn<P::N>,
    site: Site,
    xs: &P::T,
    n: usize,
    s: usize,
    w: usize,
    hidden: usize,
    z: P::T,
)
    requires
        gates_mean(u, v, t),
        gate_projections_mean(u, v, t, f, site),
        (t.shape)(*xs) == seq![n, s, w],
        f.gate.pack() is None,
        f.value.pack() is None,
        f.down.pack() is None,
        f.gate.lin().weight.dims@ == seq![hidden, w],
        f.value.lin().weight.dims@ == seq![hidden, w],
        f.down.lin().weight.dims@ == seq![w, hidden],
        forward::is_gated_run(u, f, site, xs, Ok::<P::T, P::E>(z)),
    ensures
        (t.shape)(z) == seq![n, s, w],
        forall|b: int, r: int|
            0 <= b < n && 0 <= r < s ==> #[trigger] (t.rows)(z, 0, b, r) == gated_row(
                v,
                host_gates(v, f),
                (t.rows)(*xs, 0, b, r),
            ),
{
    let (run, k) = choose|run: GatedRun<P::T>, k: int| #[trigger]
        forward::are_gated_ops(u, f, site, xs, run, k) && k == 5 && z == run.out;
    let none = None::<P::E>;
    let g = host_gates(v, f);
    assert(forward::is_gated_op(u, f, site, xs, run, 0, none));
    assert(parity::shows_linear(v, t, g.gate, g.gate_bias, *xs, run.raw)) by {
        assert(gate_of(f, Part::Gate) == f.gate);
    }
    assert(forward::is_gated_op(u, f, site, xs, run, 1, none));
    assert(forward::is_gated_op(u, f, site, xs, run, 2, none));
    assert(parity::shows_linear(v, t, g.value, g.value_bias, *xs, run.value)) by {
        assert(gate_of(f, Part::FfnValue) == f.value);
    }
    assert((t.shape)(run.value) =~= seq![n, s, hidden]);
    assert((t.shape)(run.gate) =~= seq![n, s, hidden]);
    assert(forward::is_gated_op(u, f, site, xs, run, 3, none));
    assert(parity::shows_zipped(t, run.gate, run.value, v.ring.times, run.hidden));
    assert((t.shape)(run.hidden) =~= seq![n, s, hidden]);
    assert(forward::is_gated_op(u, f, site, xs, run, 4, none));
    assert(parity::shows_linear(v, t, g.down, g.down_bias, run.hidden, z)) by {
        assert(gate_of(f, Part::Down) == f.down);
    }
    assert((t.shape)(z) =~= seq![n, s, w]);
    assert forall|b: int, r: int| 0 <= b < n && 0 <= r < s implies #[trigger] (t.rows)(z, 0, b, r)
        == gated_row(v, g, (t.rows)(*xs, 0, b, r)) by {
        assert(parity::has_row((t.shape)(z), 0, b, r));
        assert(parity::has_row((t.shape)(run.hidden), 0, b, r));
        assert(parity::has_row((t.shape)(run.gate), 0, b, r));
        assert(parity::has_row((t.shape)(run.raw), 0, b, r));
        assert(parity::has_row((t.shape)(run.value), 0, b, r));
        assert((t.rows)(run.hidden, 0, b, r) == parity::zipped(
            (t.rows)(run.gate, 0, b, r),
            (t.rows)(run.value, 0, b, r),
            v.ring.times,
        ));
    }
}

pub(crate) proof fn packed_ffn_seen<P: Pass, V>(
    p: &P,
    v: Reals<P::N, V>,
    t: Sight<P::T, V>,
    f: SwiGluFfn<P::N>,
    xs: &P::T,
    n: usize,
    s: usize,
    w: usize,
    hidden: usize,
    y: P::T,
)
    requires
        parity::counts_exactly(p, v),
        repeat::leaves_device(p),
        parity::turns_mean(p, v, t),
        gates_fit(f, w as int, hidden as int),
        (t.shape)(*xs) == seq![n, s, w],
        forward::is_packed_ffn_out(p, f, xs, Ok::<P::T, P::E>(y)),
    ensures
        (t.shape)(y) == seq![n, s, w],
        forall|b: int, r: int|
            0 <= b < n && 0 <= r < s ==> #[trigger] (t.rows)(y, 0, b, r) == gated_row(
                v,
                pack_gates(
                    v,
                    f.gate.pack()->Some_0@,
                    kernel_dispatch::owned(f.gate.lin().bias),
                    f.value.pack()->Some_0@,
                    kernel_dispatch::owned(f.value.lin().bias),
                    f.down.pack()->Some_0@,
                    kernel_dispatch::owned(f.down.lin().bias),
                ),
                (t.rows)(*xs, 0, b, r),
            ),
{
    let ok = Ok::<P::T, P::E>(y);
    let x = choose|x: Result<DenseTensor<P::N>, P::E>| #[trigger]
        call_ensures(P::plain, (p, xs), x) && match x {
            Ok(x) => forward::is_packed_ffn_on(p, f, x, ok),
            Err(e) => ok == Err::<P::T, P::E>(e),
        };
    let x = x->Ok_0;
    assert(parity::holds(v, t, *xs, x));
    let (ar, bank, q) = choose|ar: &P::A, bank: &P::B, q: Result<DenseTensor<P::N>, DispatchError>|
        {
            &&& forward::names_kernels(p, ar, bank)
            &&& #[trigger] kernel_dispatch::is_ffn_answer(
                ar,
                bank,
                x,
                f.gate,
                f.value,
                f.down,
                kernel_dispatch::result_model(q),
            )
            &&& forward::is_carried(p, q, ok)
        };
    assert(parity::is_exact(ar, v));
    let z = q->Ok_0;
    assert(parity::holds(v, t, y, z));
    let gate = f.gate.pack()->Some_0;
    let value = f.value.pack()->Some_0;
    let down = f.down.pack()->Some_0;
    let tokens = kernel_dispatch::token_count(x.data@.len(), kernel_dispatch::last_dim(x.dims@));
    let dims = kernel_dispatch::with_last(x.dims@, down.out_dim);
    let r = kernel_dispatch::result_model(q);
    let (input, gb, vb, db, out) = choose|
        input: &[P::N],
        gb: Option<&[P::N]>,
        vb: Option<&[P::N]>,
        db: Option<&[P::N]>,
        out: Seq<P::N>,
    |
        {
            &&& input@ == x.data@
            &&& kernel_ref::held(gb) == kernel_dispatch::owned(f.gate.lin().bias)
            &&& kernel_ref::held(vb) == kernel_dispatch::owned(f.value.lin().bias)
            &&& kernel_ref::held(db) == kernel_dispatch::owned(f.down.lin().bias)
            &&& #[trigger] kernel_dispatch::is_swiglu_ffn_f32(
                ar,
                bank,
                input,
                tokens as usize,
                &gate,
                gb,
                &value,
                vb,
                &down,
                db,
                out,
            )
            &&& r == kernel_dispatch::shaped(dims, out)
        };
    assert(z@.dims == dims && z@.data == out);
    assert(dims =~= seq![n, s, w]);
    parity::counts_three(n, s, w);
    let len = x.data@.len() as int;
    assert(len == x.data.len());
    let count = n * s;
    assert(len == count * w && 0 <= count <= len && count * w == w * count) by (nonlinear_arith)
        requires
            len == n * s * w,
            count == n * s,
            w > 0,
            n >= 0,
            s >= 0,
    ;
    vstd::arithmetic::div_mod::lemma_div_multiples_vanish(count, w as int);
    assert(tokens == count);
    assert forall|b: int, i: int| 0 <= b < n && 0 <= i < s implies #[trigger] (t.rows)(y, 0, b, i)
        == gated_row(
        v,
        pack_gates(
            v,
            gate@,
            kernel_ref::held(gb),
            value@,
            kernel_ref::held(vb),
            down@,
            kernel_ref::held(db),
        ),
        (t.rows)(*xs, 0, b, i),
    ) by {
        assert(parity::has_row((t.shape)(*xs), 0, b, i));
        assert(parity::has_row((t.shape)(y), 0, b, i));
        assert(0 <= b * s + i < n * s) by (nonlinear_arith)
            requires
                0 <= b < n,
                0 <= i < s,
        ;
        gates_stand(
            ar,
            v,
            x.data@,
            tokens,
            gate@,
            kernel_ref::held(gb),
            value@,
            kernel_ref::held(vb),
            down@,
            kernel_ref::held(db),
            out,
            b * s + i,
        );
    }
}

/// A packed feed-forward layer and the layer of its unpacked weights are one model. Where
/// arithmetic does not round, no device takes part and the tensor operations mean what they are
/// named for, both answer inputs of the same values with tensors of the same dimensions and the
/// same values.
pub proof fn packed_ffn_as_unpacked<P: Pass, V>(
    p: &P,
    u: &P,
    ar: &P::A,
    v: Reals<P::N, V>,
    t: Sight<P::T, V>,
    packed: SwiGluFfn<P::N>,
    f: SwiGluFfn<P::N>,
    site: Site,
    xs: &P::T,
    zs: &P::T,
    n: usize,
    s: usize,
    w: usize,
    hidden: usize,
    y: P::T,
    z: P::T,
)
    requires
        parity::is_exact(ar, v),
        parity::counts_exactly(p, v),
        repeat::leaves_device(p),
        parity::turns_mean(p, v, t),
        gates_mean(u, v, t),
        gate_projections_mean(u, v, t, f, site),
        gates_fit(packed, w as int, hidden as int),
        is_unpacked_ffn(ar, packed, f),
        (t.shape)(*xs) == seq![n, s, w],
        parity::alike(t, *xs, *zs),
        forward::is_ffn_out(p, packed, site, xs, Ok::<P::T, P::E>(y)),
        forward::is_ffn_out(u, f, site, zs, Ok::<P::T, P::E>(z)),
    ensures
        (t.shape)(y) == seq![n, s, w],
        parity::alike(t, y, z),
{
    packed_ffn_seen(p, v, t, packed, xs, n, s, w, hidden, y);
    gated_seen(u, v, t, f, site, zs, n, s, w, hidden, z);
    parity::weights_stand(ar, v, packed.gate, f.gate);
    parity::weights_stand(ar, v, packed.value, f.value);
    parity::weights_stand(ar, v, packed.down, f.down);
    assert forall|i: int, b: int, r: int|
        parity::has_row((t.shape)(y), i, b, r) implies #[trigger] (t.rows)(y, i, b, r) == (t.rows)(
        z,
        i,
        b,
        r,
    ) by {
        assert(parity::has_row((t.shape)(*xs), i, b, r));
        assert((t.rows)(*xs, i, b, r) == (t.rows)(*zs, i, b, r));
    }
}

/// The sum of two tensors of one shape is taken entry by entry.
pub open spec fn adds_mean<P: Pass, V>(p: &P, v: Reals<P::N, V>, t: Sight<P::T, V>) -> bool {
    forall|a: &P::T, b: &P::T, y: P::T| #[trigger]
        call_ensures(P::plus, (p, a, b), Ok::<P::T, P::E>(y)) && (t.shape)(*a) == (t.shape)(*b)
            ==> parity::shows_zipped(t, *a, *b, v.ring.plus, y)
}

/// The operations of a packed block mean what they are named for, and no device takes part.
pub open spec fn kernels_mean<P: Pass, V>(p: &P, v: Reals<P::N, V>, t: Sight<P::T, V>) -> bool {
    &&& parity::counts_exactly(p, v)
    &&& repeat::leaves_device(p)
    &&& parity::turns_mean(p, v, t)
    &&& adds_mean(p, v, t)
}

/// The operations of an unpacked block mean what they are named for.
pub open spec fn host_means<P: Pass, V>(
    u: &P,
    v: Reals<P::N, V>,
    t: Sight<P::T, V>,
    b: TransformerBlock<P::N>,
) -> bool {
    &&& parity::moves_mean(u, v, t)
    &&& parity::sums_mean(u, v, t)
    &&& gates_mean(u, v, t)
    &&& parity::projections_mean(u, v, t, b.attn)
    &&& gate_projections_mean(u, v, t, b.ffn, Site::FeedForward)
}

/// The norms of two passes keep the shape and give the same values for the same values.
pub open spec fn norms_agree<P: Pass, V>(p: &P, u: &P, t: Sight<P::T, V>) -> bool {
    forall|site: Site, x: &P::T, z: &P::T, a: P::T, b: P::T| #[trigger]
        call_ensures(P::layer_norm, (p, site, x), Ok::<P::T, P::E>(a)) && #[trigger] call_ensures(
            P::layer_norm,
            (u, site, z),
            Ok::<P::T, P::E>(b),
        ) && parity::alike(t, *x, *z) ==> (t.shape)(a) == (t.shape)(*x) && parity::alike(t, a, b)
}

/// A block of weights that are those of a packed one, of that width.
pub open spec fn is_unpacked_block<A: Arith>(
    ar: &A,
    packed: TransformerBlock<A::Num>,
    b: TransformerBlock<A::Num>,
    width: int,
    hidden: int,
) -> bool {
    &&& parity::heads_fit(packed.attn, width)
    &&& parity::is_unpacked(ar, packed.attn, b.attn)
    &&& gates_fit(packed.ffn, width, hidden)
    &&& is_unpacked_ffn(ar, packed.ffn, b.ffn)
}

proof fn sums_alike<T, V>(
    t: Sight<T, V>,
    f: spec_fn(V, V) -> V,
    a: T,
    b: T,
    y: T,
    c: T,
    d: T,
    z: T,
)
    requires
        (t.shape)(a) == (t.shape)(b),
        parity::alike(t, a, c),
        parity::alike(t, b, d),
        parity::shows_zipped(t, a, b, f, y),
        parity::shows_zipped(t, c, d, f, z),
    ensures
        (t.shape)(y) == (t.shape)(a),
        parity::alike(t, y, z),
{
    assert forall|i: int, j: int, k: int|
        parity::has_row((t.shape)(y), i, j, k) implies #[trigger] (t.rows)(y, i, j, k) == (t.rows)(
        z,
        i,
        j,
        k,
    ) by {
        assert((t.rows)(a, i, j, k) == (t.rows)(c, i, j, k));
        assert((t.rows)(b, i, j, k) == (t.rows)(d, i, j, k));
    }
}

/// A packed transformer block and the block of its unpacked weights are one model. Where
/// arithmetic does not round, no device takes part and the tensor operations mean what they are
/// named for, both answer inputs of the same values with tensors of the same dimensions and the
/// same values.
pub proof fn packed_block_as_unpacked<P: Pass, V>(
    p: &P,
    u: &P,
    ar: &P::A,
    v: Reals<P::N, V>,
    t: Sight<P::T, V>,
    packed: TransformerBlock<P::N>,
    b: TransformerBlock<P::N>,
    rope: RopeCache<P::N>,
    xs: &P::T,
    zs: &P::T,
    mask: Option<&P::T>,
    n: usize,
    s: usize,
    w: usize,
    hidden: usize,
    y: P::T,
    z: P::T,
)
    requires
        parity::is_exact(ar, v),
        parity::rows_fit(t),
        kernels_mean(p, v, t),
        host_means(u, v, t, b),
        norms_agree(p, u, t),
        is_unpacked_block(ar, packed, b, w as int, hidden as int),
        rope.wf(),
        rope.half == packed.attn.head_dim / 2,
        (t.shape)(*xs) == seq![n, s, w],
        parity::alike(t, *xs, *zs),
        mask matches Some(m) ==> parity::mask_spans(
            (t.shape)(*m),
            seq![n, packed.attn.n_heads, s, s],
        ),
        forward::is_block_run(p, packed, rope, xs, mask, Ok::<P::T, P::E>(y)),
        forward::is_block_run(u, b, rope, zs, mask, Ok::<P::T, P::E>(z)),
    ensures
        (t.shape)(y) == seq![n, s, w],
        parity::alike(t, y, z),
{
    let (run, k) = choose|run: BlockRun<P::T>, k: int| #[trigger]
        forward::are_block_ops(p, packed, rope, xs, mask, run, k) && k == 6 && y == run.out;
    let (own, m) = choose|run: BlockRun<P::T>, k: int| #[trigger]
        forward::are_block_ops(u, b, rope, zs, mask, run, k) && k == 6 && z == run.out;
    let none = None::<P::E>;
    assert(forward::is_block_op(p, packed, rope, xs, mask, run, 0, none));
    assert(forward::is_block_op(u, b, rope, zs, mask, own, 0, none));
    assert(call_ensures(
        P::layer_norm,
        (p, Site::Attention, xs),
        Ok::<P::T, P::E>(run.attn_in),
    ));
    assert(call_ensures(
        P::layer_norm,
        (u, Site::Attention, zs),
        Ok::<P::T, P::E>(own.attn_in),
    ));
    assert(forward::is_block_op(p, packed, rope, xs, mask, run, 1, none));
    assert(forward::is_block_op(u, b, rope, zs, mask, own, 1, none));
    parity::packed_attention_as_unpacked(
        p,
        u,
        ar,
        v,
        t,
        packed.attn,
        b.attn,
        rope,
        &run.attn_in,
        &own.attn_in,
        mask,
        n,
        s,
        w,
        run.attn_out,
        own.attn_out,
    );
    assert(forward::is_block_op(p, packed, rope, xs, mask, run, 2, none));
    assert(forward::is_block_op(u, b, rope, zs, mask, own, 2, none));
    assert(parity::shows_zipped(t, *xs, run.attn_out, v.ring.plus, run.x));
    assert(parity::shows_zipped(t, *zs, own.attn_out, v.ring.plus, own.x));
    sums_alike(t, v.ring.plus, *xs, run.attn_out, run.x, *zs, own.attn_out, own.x);
    assert(forward::is_block_op(p, packed, rope, xs, mask, run, 3, none));
    assert(forward::is_block_op(u, b, rope, zs, mask, own, 3, none));
    assert(call_ensures(
        P::layer_norm,
        (p, Site::FeedForward, &run.x),
        Ok::<P::T, P::E>(run.ffn_in),
    ));
    assert(call_ensures(
        P::layer_norm,
        (u, Site::FeedForward, &own.x),
        Ok::<P::T, P::E>(own.ffn_in),
    ));
    assert(forward::is_block_op(p, packed, rope, xs, mask, run, 4, none));
    assert(forward::is_block_op(u, b, rope, zs, mask, own, 4, none));
    packed_ffn_as_unpacked(
        p,
        u,
        ar,
        v,
        t,
        packed.ffn,
        b.ffn,
        Site::FeedForward,
        &run.ffn_in,
        &own.ffn_in,
        n,
        s,
        w,
        hidden,
        run.ffn_out,
        own.ffn_out,
    );
    assert(forward::is_block_op(p, packed, rope, xs, mask, run, 5, none));
    assert(forward::is_block_op(u, b, rope, zs, mask, own, 5, none));
    sums_alike(t, v.ring.plus, run.x, run.ffn_out, run.out, own.x, own.ffn_out, own.out);
}

/// Block `i` of a network and of its unpacked counterpart, and the operations that run them.
pub open spec fn is_matched<N: Copy, L: Layers<N>, V>(
    l: &L,
    m: &L,
    ar: &<L::P as Pass>::A,
    v: Reals<N, V>,
    t: Sight<<L::P as Pass>::T, V>,
    packed: Block<N>,
    plain: Block<N>,
    rope: RopeCache<N>,
    heads: usize,
    width: int,
    hidden: int,
    i: int,
) -> bool {
    match (packed, plain) {
        (Block::Transformer(a), Block::Transformer(b)) => {
            &&& is_unpacked_block(ar, a, b, width, hidden)
            &&& a.attn.n_heads == heads
            &&& rope.half == a.attn.head_dim / 2
            &&& forall|p: &L::P| #[trigger]
                call_ensures(L::block, (l, i as usize), p) ==> kernels_mean(p, v, t)
            &&& forall|u: &L::P| #[trigger]
                call_ensures(L::block, (m, i as usize), u) ==> host_means(u, v, t, b)
            &&& forall|p: &L::P, u: &L::P| #[trigger]
                call_ensures(L::block, (l, i as usize), p) && #[trigger] call_ensures(
                    L::block,
                    (m, i as usize),
                    u,
                ) ==> norms_agree(p, u, t)
        },
        _ => false,
    }
}

proof fn step_alike<N: Copy, L: Layers<N>, V>(
    l: &L,
    m: &L,
    ar: &<L::P as Pass>::A,
    v: Reals<N, V>,
    t: Sight<<L::P as Pass>::T, V>,
    packed: Seq<Block<N>>,
    plain: Seq<Block<N>>,
    rope: RopeCache<N>,
    mask: Option<&<L::P as Pass>::T>,
    heads: usize,
    n: usize,
    s: usize,
    w: usize,
    hidden: usize,
    i: int,
    x: <L::P as Pass>::T,
    z: <L::P as Pass>::T,
    y: <L::P as Pass>::T,
    q: <L::P as Pass>::T,
)
    requires
        parity::is_exact(ar, v),
        parity::rows_fit(t),
        rope.wf(),
        0 <= i < packed.len(),
        is_matched::<N, L, V>(
            l,
            m,
            ar,
            v,
            t,
            packed[i],
            plain[i],
            rope,
            heads,
            w as int,
            hidden as int,
            i,
        ),
        (t.shape)(x) == seq![n, s, w],
        parity::alike(t, x, z),
        mask matches Some(k) ==> parity::mask_spans((t.shape)(*k), seq![n, heads, s, s]),
        forward::is_step::<N, L>(
            l,
            packed,
            rope,
            i,
            mask,
            x,
            Ok::<<L::P as Pass>::T, ForwardError<<L::P as Pass>::E>>(y),
        ),
        forward::is_step::<N, L>(
            m,
            plain,
            rope,
            i,
            mask,
            z,
            Ok::<<L::P as Pass>::T, ForwardError<<L::P as Pass>::E>>(q),
        ),
    ensures
        (t.shape)(y) == seq![n, s, w],
        parity::alike(t, y, q),
{
    let good = Ok::<<L::P as Pass>::T, ForwardError<<L::P as Pass>::E>>(y);
    let same = Ok::<<L::P as Pass>::T, ForwardError<<L::P as Pass>::E>>(q);
    let p = choose|p: &L::P| #[trigger]
        call_ensures(L::block, (l, i as usize), p) && forward::is_block_out(
            p,
            packed[i],
            rope,
            &x,
            mask,
            good,
        );
    let u = choose|u: &L::P| #[trigger]
        call_ensures(L::block, (m, i as usize), u) && forward::is_block_out(
            u,
            plain[i],
            rope,
            &z,
            mask,
            same,
        );
    let a = packed[i]->Transformer_0;
    let b = plain[i]->Transformer_0;
    assert(forward::is_block_run(p, a, rope, &x, mask, Ok(y))) by {
        let r = choose|r: Result<<L::P as Pass>::T, <L::P as Pass>::E>| #[trigger]
            forward::is_block_run(p, a, rope, &x, mask, r) && good == forward::lifted(r);
        assert(r == Ok::<<L::P as Pass>::T, <L::P as Pass>::E>(y));
    }
    assert(forward::is_block_run(u, b, rope, &z, mask, Ok(q))) by {
        let r = choose|r: Result<<L::P as Pass>::T, <L::P as Pass>::E>| #[trigger]
            forward::is_block_run(u, b, rope, &z, mask, r) && same == forward::lifted(r);
        assert(r == Ok::<<L::P as Pass>::T, <L::P as Pass>::E>(q));
    }
    packed_block_as_unpacked(p, u, ar, v, t, a, b, rope, &x, &z, mask, n, s, w, hidden, y, q);
}

/// The blocks of a network and those of its unpacked counterpart match, one by one.
pub open spec fn are_matched<N: Copy, L: Layers<N>, V>(
    l: &L,
    m: &L,
    ar: &<L::P as Pass>::A,
    v: Reals<N, V>,
    t: Sight<<L::P as Pass>::T, V>,
    packed: Seq<Block<N>>,
    plain: Seq<Block<N>>,
    rope: RopeCache<N>,
    heads: usize,
    width: int,
    hidden: int,
) -> bool {
    &&& packed.len() == plain.len()
    &&& packed.len() <= usize::MAX
    &&& forall|i: int|
        0 <= i < packed.len() ==> is_matched::<N, L, V>(
            l,
            m,
            ar,
            v,
            t,
            #[trigger] packed[i],
            plain[i],
            rope,
            heads,
            width,
            hidden,
            i,
        )
}

/// A second tensor with the same contents has the same values.
pub open spec fn copies_mean<N: Copy, L: Layers<N>, V>(
    l: &L,
    t: Sight<<L::P as Pass>::T, V>,
) -> bool {
    forall|x: &<L::P as Pass>::T, y: <L::P as Pass>::T| #[trigger]
        call_ensures(L::copy, (l, x), y) ==> parity::alike(t, *x, y)
}

proof fn steps_alike<N: Copy, L: Layers<N>, V>(
    l: &L,
    m: &L,
    ar: &<L::P as Pass>::A,
    v: Reals<N, V>,
    t: Sight<<L::P as Pass>::T, V>,
    packed: Seq<Block<N>>,
    plain: Seq<Block<N>>,
    rope: RopeCache<N>,
    mask: Option<&<L::P as Pass>::T>,
    heads: usize,
    n: usize,
    s: usize,
    w: usize,
    hidden: usize,
    hs: Seq<<L::P as Pass>::T>,
    gs: Seq<<L::P as Pass>::T>,
    k: int,
)
    requires
        parity::is_exact(ar, v),
        parity::rows_fit(t),
        rope.wf(),
        are_matched::<N, L, V>(
            l,
            m,
            ar,
            v,
            t,
            packed,
            plain,
            rope,
            heads,
            w as int,
            hidden as int,
        ),
        mask matches Some(k) ==> parity::mask_spans((t.shape)(*k), seq![n, heads, s, s]),
        forward::are_steps::<N, L>(l, packed, rope, mask, hs),
        forward::are_steps::<N, L>(m, plain, rope, mask, gs),
        hs.len() == packed.len() + 1,
        gs.len() == plain.len() + 1,
        (t.shape)(hs[0]) == seq![n, s, w],
        parity::alike(t, hs[0], gs[0]),
        0 <= k < hs.len(),
    ensures
        (t.shape)(hs[k]) == seq![n, s, w],
        parity::alike(t, hs[k], gs[k]),
    decreases k,
{
    if k > 0 {
        let i = k - 1;
        steps_alike::<N, L, V>(
            l,
            m,
            ar,
            v,
            t,
            packed,
            plain,
            rope,
            mask,
            heads,
            n,
            s,
            w,
            hidden,
            hs,
            gs,
            i,
        );
        assert(packed[i] == packed[i]);
        step_alike::<N, L, V>(
            l,
            m,
            ar,
            v,
            t,
            packed,
            plain,
            rope,
            mask,
            heads,
            n,
            s,
            w,
            hidden,
            i,
            hs[i],
            gs[i],
            hs[i + 1],
            gs[i + 1],
        );
    }
}

/// A packed transformer and the transformer of its unpacked weights are one model. Where
/// arithmetic does not round, no device takes part and the tensor operations mean what they are
/// named for, both answer a tensor with tensors of its dimensions and of the same values, with a
/// mask or without.
pub proof fn packed_network_as_unpacked<N: Copy, F: Copy, L: Layers<N>, V>(
    l: &L,
    m: &L,
    ar: &<L::P as Pass>::A,
    v: Reals<N, V>,
    t: Sight<<L::P as Pass>::T, V>,
    packed: SharedNetwork<N, F>,
    plain: SharedNetwork<N, F>,
    zero: N,
    xs: &<L::P as Pass>::T,
    mask: Option<&<L::P as Pass>::T>,
    heads: usize,
    n: usize,
    s: usize,
    w: usize,
    hidden: usize,
    y: <L::P as Pass>::T,
    z: <L::P as Pass>::T,
)
    requires
        parity::is_exact(ar, v),
        parity::rows_fit(t),
        copies_mean::<N, L, V>(l, t),
        copies_mean::<N, L, V>(m, t),
        packed.stack_packed(),
        packed.rope matches Some(rope) && rope.wf() && plain.rope == packed.rope,
        forall|i: usize, p: &L::P| #[trigger]
            call_ensures(L::block, (l, i), p) ==> repeat::leaves_device(p),
        are_matched::<N, L, V>(
            l,
            m,
            ar,
            v,
            t,
            packed.blocks@,
            plain.blocks@,
            packed.rope->Some_0,
            heads,
            w as int,
            hidden as int,
        ),
        (t.shape)(*xs) == seq![n, s, w],
        mask matches Some(k) ==> parity::mask_spans((t.shape)(*k), seq![n, heads, s, s]),
        forward::is_network_out::<N, F, L>(
            l,
            packed,
            zero,
            xs,
            mask,
            Ok::<<L::P as Pass>::T, ForwardError<<L::P as Pass>::E>>(y),
        ),
        forward::is_network_out::<N, F, L>(
            m,
            plain,
            zero,
            xs,
            mask,
            Ok::<<L::P as Pass>::T, ForwardError<<L::P as Pass>::E>>(z),
        ),
    ensures
        (t.shape)(y) == seq![n, s, w],
        parity::alike(t, y, z),
{
    let rope = packed.rope->Some_0;
    let good = Ok::<<L::P as Pass>::T, ForwardError<<L::P as Pass>::E>>(y);
    let same = Ok::<<L::P as Pass>::T, ForwardError<<L::P as Pass>::E>>(z);
    let (bs, ps) = (packed.blocks@, plain.blocks@);
    repeat::blocks_take_over::<N, F, L>(l, packed, zero, xs, mask, good);
    assert(!plain.stack_packed()) by {
        assert(bs[0] == bs[0]);
        assert(is_matched::<N, L, V>(
            l,
            m,
            ar,
            v,
            t,
            bs[0],
            ps[0],
            rope,
            heads,
            w as int,
            hidden as int,
            0,
        ));
    }
    let hs = choose|hs: Seq<<L::P as Pass>::T>|
        {
            &&& #[trigger] forward::are_steps::<N, L>(l, bs, rope, mask, hs)
            &&& hs.len() > 0
            &&& call_ensures(L::copy, (l, xs), hs[0])
            &&& hs.len() == bs.len() + 1
            &&& y == hs.last()
        };
    let gs = choose|gs: Seq<<L::P as Pass>::T>|
        {
            &&& #[trigger] forward::are_steps::<N, L>(m, ps, rope, mask, gs)
            &&& gs.len() > 0
            &&& call_ensures(L::copy, (m, xs), gs[0])
            &&& gs.len() == ps.len() + 1
            &&& z == gs.last()
        };
    assert(parity::alike(t, hs[0], gs[0])) by {
        assert(parity::alike(t, *xs, hs[0]));
        assert(parity::alike(t, *xs, gs[0]));
        assert forall|i: int, j: int, k: int|
            parity::has_row((t.shape)(hs[0]), i, j, k) implies #[trigger] (t.rows)(hs[0], i, j, k)
            == (t.rows)(gs[0], i, j, k) by {
            assert((t.rows)(*xs, i, j, k) == (t.rows)(hs[0], i, j, k));
        }
    }
    steps_alike::<N, L, V>(
        l,
        m,
        ar,
        v,
        t,
        bs,
        ps,
        rope,
        mask,
        heads,
        n,
        s,
        w,
        hidden,
        hs,
        gs,
        bs.len() as int,
    );
}

} // verus!
