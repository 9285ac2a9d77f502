//! What a pass through a transformer reads: the blocks one after the other, each under the mask
//! that the network was given, so that a position depends on no other that is masked for it.

use crate::arith;
use crate::forward;
use crate::forward::{BlockRun, ForwardError, Layers, Pass, Site};
use crate::kernel_dispatch::RopeCache;
use crate::kernel_ref;
use crate::network::{Block, MultiHeadSelfAttention, SharedNetwork, SwiGluFfn, TransformerBlock};
use crate::network_parity;
use crate::parity;
use crate::parity::{Reals, Scene, Sight};
use crate::repeat;
use vstd::prelude::*;

verus! {

/// A mask entry that hides what it is added to: any score plus it is it, and it weighs nothing
/// beside any largest score.
pub open spec fn hides<N, V>(v: Reals<N, V>, blank: V) -> bool {
    &&& forall|a: V| #[trigger] v.plus(a, blank) == blank
    &&& forall|a: V| (v.exp)(#[trigger] (v.minus)(blank, a)) == v.whole(0)
    &&& forall|a: V| #[trigger] arith::vanishes(v.ring, a)
}

/// Two tensors of batch, position and width have the same dimensions, and the same rows at the
/// positions of sequence `b` that are shown.
pub open spec fn agree_on<T, V>(
    t: Sight<T, V>,
    x: T,
    z: T,
    b: int,
    shown: spec_fn(int) -> bool,
) -> bool {
    &&& (t.shape)(z) == (t.shape)(x)
    &&& forall|r: int|
        0 <= r < (t.shape)(x)[1] && shown(r) ==> #[trigger] (t.rows)(x, 0, b, r) == (t.rows)(
            z,
            0,
            b,
            r,
        )
}

/// For every position that is shown, the mask hides those that are not.
pub open spec fn covers<T, V>(
    t: Sight<T, V>,
    mask: T,
    b: int,
    s: int,
    shown: spec_fn(int) -> bool,
    blank: V,
) -> bool {
    forall|r: int, k: int|
        0 <= r < s && 0 <= k < s && shown(r) && !shown(k) ==> #[trigger] parity::mask_row(
            t,
            mask,
            b,
            r,
        )[k] == blank
}

proof fn shown_rows_decide<N, V>(
    v: Reals<N, V>,
    c: Scene<V>,
    e: Scene<V>,
    b: int,
    p: int,
    shown: spec_fn(int) -> bool,
    blank: V,
)
    requires
        hides(v, blank),
        e == (Scene { x: e.x, ..c }),
        c.mask is Some,
        0 <= p < c.s,
        shown(p),
        0 < c.d,
        0 < c.h,
        forall|k: int| 0 <= k < c.s && shown(k) ==> #[trigger] (c.x)(b, k) == (e.x)(b, k),
        forall|k: int|
            0 <= k < c.s && !shown(k) ==> #[trigger] (c.mask->Some_0)(b, p)[k] == blank,
    ensures
        parity::out_row(v, c, b, p) == parity::out_row(v, e, b, p),
{
    let one = parity::joined_row(v, c, b, p);
    let two = parity::joined_row(v, e, b, p);
    assert((c.x)(b, p) == (e.x)(b, p));
    assert forall|m: int| 0 <= m < one.len() implies #[trigger] one[m] == two[m] by {
        let i = m / c.d;
        let l = m % c.d;
        let g = kernel_ref::kv_head(c.h, c.kv, i);
        let sc = parity::score_row(v, c, b, i, p);
        let se = parity::score_row(v, e, b, i, p);
        assert(parity::q_row(v, c, b, i, p) == parity::q_row(v, e, b, i, p));
        assert forall|k: int| 0 <= k < c.s implies #[trigger] sc[k] == se[k] by {
            if shown(k) {
                assert((c.x)(b, k) == (e.x)(b, k));
            } else {
                assert((c.mask->Some_0)(b, p)[k] == blank);
                let raw = v.times(
                    parity::dot(
                        v,
                        parity::q_row(v, c, b, i, p),
                        parity::k_row(v, c, b, g, k),
                    ),
                    parity::head_scale(v, c.d),
                );
                let other = v.times(
                    parity::dot(
                        v,
                        parity::q_row(v, e, b, i, p),
                        parity::k_row(v, e, b, g, k),
                    ),
                    parity::head_scale(v, c.d),
                );
                assert(v.plus(raw, blank) == blank);
                assert(v.plus(other, blank) == blank);
            }
        }
        assert(sc =~= se);
        let w = parity::weights(v, sc);
        let f = parity::v_rows(v, c, b, g);
        let h = parity::v_rows(v, e, b, g);
        assert forall|q: int| 0 <= q < c.d implies #[trigger] parity::products(
            v,
            w,
            parity::column(f, c.s, q),
        ) == parity::products(v, w, parity::column(h, c.s, q)) by {
            let one = parity::products(v, w, parity::column(f, c.s, q));
            let two = parity::products(v, w, parity::column(h, c.s, q));
            assert forall|k: int| 0 <= k < one.len() implies #[trigger] one[k] == two[k] by {
                if shown(k) {
                    assert((c.x)(b, k) == (e.x)(b, k));
                    assert(f(k) == h(k));
                } else {
                    assert((c.mask->Some_0)(b, p)[k] == blank);
                    assert(sc[k] == blank) by {
                        let raw = v.times(
                            parity::dot(
                                v,
                                parity::q_row(v, c, b, i, p),
                                parity::k_row(v, c, b, g, k),
                            ),
                            parity::head_scale(v, c.d),
                        );
                        assert(v.plus(raw, blank) == blank);
                    }
                    let top = parity::peak(v, sc);
                    assert((v.exp)((v.minus)(blank, top)) == v.whole(0));
                    assert(w[k] == v.whole(0));
                    assert(arith::vanishes(v.ring, f(k)[q]));
                    assert(arith::vanishes(v.ring, h(k)[q]));
                }
            }
            assert(one =~= two);
        }
        vstd::arithmetic::div_mod::lemma_mod_bound(m, c.d);
        assert(parity::products(v, w, parity::column(f, c.s, l)) == parity::products(
            v,
            w,
            parity::column(h, c.s, l),
        ));
    }
    assert(one =~= two);
}

/// Attention of that width whose operations mean what they are named for: packed attention
/// without a device and with arithmetic that does not round, or attention that is not packed.
pub open spec fn attention_means<P: Pass, V>(
    p: &P,
    v: Reals<P::N, V>,
    t: Sight<P::T, V>,
    a: MultiHeadSelfAttention<P::N>,
    w: int,
) -> bool {
    if a.all_packed() {
        &&& parity::counts_exactly(p, v)
        &&& repeat::leaves_device(p)
        &&& parity::turns_mean(p, v, t)
        &&& parity::heads_fit(a, w)
    } else {
        &&& parity::divide_freely(v)
        &&& parity::moves_mean(p, v, t)
        &&& parity::sums_mean(p, v, t)
        &&& parity::projections_mean(p, v, t, a)
        &&& parity::host_fits(a, w)
    }
}

/// A feed-forward layer of that width and hidden width whose operations mean what they are named
/// for.
pub open spec fn ffn_means<P: Pass, V>(
    p: &P,
    v: Reals<P::N, V>,
    t: Sight<P::T, V>,
    f: SwiGluFfn<P::N>,
    w: usize,
    hidden: usize,
) -> bool {
    if f.all_packed() {
        &&& parity::counts_exactly(p, v)
        &&& repeat::leaves_device(p)
        &&& parity::turns_mean(p, v, t)
        &&& network_parity::gates_fit(f, w as int, hidden as int)
    } else {
        &&& network_parity::gates_mean(p, v, t)
        &&& network_parity::gate_projections_mean(p, v, t, f, Site::FeedForward)
        &&& f.gate.pack() is None
        &&& f.value.pack() is None
        &&& f.down.pack() is None
        &&& f.gate.lin().weight.dims@ == seq![hidden, w]
        &&& f.value.lin().weight.dims@ == seq![hidden, w]
        &&& f.down.lin().weight.dims@ == seq![w, hidden]
    }
}

/// A norm keeps the shape, and gives the same row for the same row.
pub open spec fn norms_by_row<P: Pass, V>(p: &P, t: Sight<P::T, V>) -> bool {
    forall|site: Site, x: &P::T, z: &P::T, a: P::T, c: P::T, b: int, shown: spec_fn(int) -> bool|
        #[trigger] call_ensures(P::layer_norm, (p, site, x), Ok::<P::T, P::E>(a))
            && #[trigger] call_ensures(P::layer_norm, (p, site, z), Ok::<P::T, P::E>(c))
            && #[trigger] agree_on(t, *x, *z, b, shown) ==> (t.shape)(a) == (t.shape)(*x)
            && agree_on(t, a, c, b, shown)
}

/// A transformer block of that width whose operations mean what they are named for.
pub open spec fn block_means<P: Pass, V>(
    p: &P,
    v: Reals<P::N, V>,
    t: Sight<P::T, V>,
    blk: TransformerBlock<P::N>,
    w: usize,
    hidden: usize,
) -> bool {
    &&& attention_means(p, v, t, blk.attn, w as int)
    &&& ffn_means(p, v, t, blk.ffn, w, hidden)
    &&& norms_by_row(p, t)
    &&& network_parity::adds_mean(p, v, t)
    &&& repeat::leaves_device(p)
}

spec fn scene_of<N, T, V>(
    v: Reals<N, V>,
    t: Sight<T, V>,
    a: MultiHeadSelfAttention<N>,
    rope: RopeCache<N>,
    xs: T,
    mask: T,
    s: usize,
) -> Scene<V> {
    let half = rope.half as int;
    Scene {
        x: |b: int, r: int| (t.rows)(xs, 0, b, r),
        wq: parity::host_rows(v, a.q_proj),
        bq: parity::host_bias(v, a.q_proj),
        wk: parity::host_rows(v, a.k_proj),
        bk: parity::host_bias(v, a.k_proj),
        wv: parity::host_rows(v, a.v_proj),
        bv: parity::host_bias(v, a.v_proj),
        wo: parity::host_rows(v, a.o_proj),
        bo: parity::host_bias(v, a.o_proj),
        cos: |r: int| parity::angle_row(v, rope.cos@, half, r),
        sin: |r: int| parity::angle_row(v, rope.sin@, half, r),
        mask: Some(|b: int, r: int| parity::mask_row(t, mask, b, r)),
        s: s as int,
        h: a.n_heads as int,
        kv: a.n_kv_heads as int,
        d: a.head_dim as int,
    }
}

/// Attention reads, for a position that is shown, none that the mask hides from it: two inputs
/// that have the same rows at the positions shown get the same rows there, packed or not.
pub proof fn attention_reads_what_the_mask_shows<P: Pass, V>(
    p: &P,
    v: Reals<P::N, V>,
    t: Sight<P::T, V>,
    a: MultiHeadSelfAttention<P::N>,
    rope: RopeCache<P::N>,
    xs: &P::T,
    zs: &P::T,
    mask: &P::T,
    n: usize,
    s: usize,
    w: usize,
    b: int,
    shown: spec_fn(int) -> bool,
    blank: V,
    y: P::T,
    z: P::T,
)
    requires
        parity::rows_fit(t),
        hides(v, blank),
        attention_means(p, v, t, a, w as int),
        rope.wf(),
        rope.half == a.head_dim / 2,
        (t.shape)(*xs) == seq![n, s, w],
        parity::mask_spans((t.shape)(*mask), seq![n, a.n_heads, s, s]),
        0 <= b < n,
        agree_on(t, *xs, *zs, b, shown),
        covers(t, *mask, b, s as int, shown, blank),
        forward::is_attention_out(p, a, rope, xs, Some(mask), Ok::<P::T, P::E>(y)),
        forward::is_attention_out(p, a, rope, zs, Some(mask), Ok::<P::T, P::E>(z)),
    ensures
        (t.shape)(y) == seq![n, s, w],
        agree_on(t, y, z, b, shown),
{
    if a.all_packed() {
        let c = parity::packed_seen(p, v, t, a, rope, xs, Some(mask), n, s, w, y);
        let e = parity::packed_seen(p, v, t, a, rope, zs, Some(mask), n, s, w, z);
        let f = Scene { x: e.x, ..c };
        assert forall|r: int| 0 <= r < s && shown(r) implies #[trigger] (t.rows)(y, 0, b, r) == (
        t.rows)(z, 0, b, r) by {
            assert(parity::has_row((t.shape)(*xs), 0, b, r));
            same_scene(v, e, f, n as int, b, r);
            rows_hidden(t, c, *mask, b, s as int, r, shown, blank);
            assert forall|k: int| 0 <= k < c.s && shown(k) implies #[trigger] (c.x)(b, k) == (
            f.x)(b, k) by {
                assert((c.x)(b, k) == (t.rows)(*xs, 0, b, k));
                assert((e.x)(b, k) == (t.rows)(*zs, 0, b, k));
            }
            shown_rows_decide(v, c, f, b, r, shown, blank);
        }
    } else {
        let c = scene_of(v, t, a, rope, *xs, *mask, s);
        let e = scene_of(v, t, a, rope, *zs, *mask, s);
        parity::attention_seen(p, v, t, a, rope, xs, Some(mask), n, s, w, c, y);
        parity::attention_seen(p, v, t, a, rope, zs, Some(mask), n, s, w, e, z);
        assert forall|r: int| 0 <= r < s && shown(r) implies #[trigger] (t.rows)(y, 0, b, r) == (
        t.rows)(z, 0, b, r) by {
            rows_hidden(t, c, *mask, b, s as int, r, shown, blank);
            assert forall|k: int| 0 <= k < c.s && shown(k) implies #[trigger] (c.x)(b, k) == (
            e.x)(b, k) by {
                assert((t.rows)(*xs, 0, b, k) == (t.rows)(*zs, 0, b, k));
            }
            shown_rows_decide(v, c, e, b, r, shown, blank);
        }
    }
}

proof fn rows_hidden<T, V>(
    t: Sight<T, V>,
    c: Scene<V>,
    mask: T,
    b: int,
    s: int,
    r: int,
    shown: spec_fn(int) -> bool,
    blank: V,
)
    requires
        covers(t, mask, b, s, shown, blank),
        c.s == s,
        0 <= r < s,
        shown(r),
        (c.mask->Some_0)(b, r) == parity::mask_row(t, mask, b, r),
    ensures
        forall|k: int|
            0 <= k < c.s && !shown(k) ==> #[trigger] (c.mask->Some_0)(b, r)[k] == blank,
{
}

/// Scenes that agree at every position in range give the same row.
proof fn same_scene<N, V>(v: Reals<N, V>, c: Scene<V>, e: Scene<V>, n: int, b: int, p: int)
    requires
        0 <= b < n,
        0 <= p < c.s,
        0 < c.d,
        e.s == c.s && e.h == c.h && e.kv == c.kv && e.d == c.d,
        e.x == c.x,
        e.wq == c.wq && e.bq == c.bq && e.wk == c.wk && e.bk == c.bk,
        e.wv == c.wv && e.bv == c.bv && e.wo == c.wo && e.bo == c.bo,
        c.mask is Some && e.mask is Some,
        forall|k: int| 0 <= k < c.s ==> #[trigger] (c.cos)(k) == (e.cos)(k),
        forall|k: int| 0 <= k < c.s ==> #[trigger] (c.sin)(k) == (e.sin)(k),
        (c.mask->Some_0)(b, p) == (e.mask->Some_0)(b, p),
    ensures
        parity::out_row(v, c, b, p) == parity::out_row(v, e, b, p),
{
    let one = parity::joined_row(v, c, b, p);
    let two = parity::joined_row(v, e, b, p);
    assert((c.cos)(p) == (e.cos)(p));
    assert((c.sin)(p) == (e.sin)(p));
    assert forall|m: int| 0 <= m < one.len() implies #[trigger] one[m] == two[m] by {
        let i = m / c.d;
        let g = kernel_ref::kv_head(c.h, c.kv, i);
        let sc = parity::score_row(v, c, b, i, p);
        let se = parity::score_row(v, e, b, i, p);
        assert forall|k: int| 0 <= k < c.s implies #[trigger] sc[k] == se[k] by {
            assert((c.cos)(k) == (e.cos)(k));
            assert((c.sin)(k) == (e.sin)(k));
        }
        assert(sc =~= se);
        assert(parity::v_rows(v, c, b, g) =~= parity::v_rows(v, e, b, g));
    }
    assert(one =~= two);
}

proof fn ffn_by_row<P: Pass, V>(
    p: &P,
    v: Reals<P::N, V>,
    t: Sight<P::T, V>,
    f: SwiGluFfn<P::N>,
    xs: &P::T,
    zs: &P::T,
    n: usize,
    s: usize,
    w: usize,
    hidden: usize,
    b: int,
    shown: spec_fn(int) -> bool,
    y: P::T,
    z: P::T,
)
    requires
        ffn_means(p, v, t, f, w, hidden),
        (t.shape)(*xs) == seq![n, s, w],
        0 <= b < n,
        agree_on(t, *xs, *zs, b, shown),
        forward::is_ffn_out(p, f, Site::FeedForward, xs, Ok::<P::T, P::E>(y)),
        forward::is_ffn_out(p, f, Site::FeedForward, zs, Ok::<P::T, P::E>(z)),
    ensures
        (t.shape)(y) == seq![n, s, w],
        agree_on(t, y, z, b, shown),
{
    if f.all_packed() {
        network_parity::packed_ffn_seen(p, v, t, f, xs, n, s, w, hidden, y);
        network_parity::packed_ffn_seen(p, v, t, f, zs, n, s, w, hidden, z);
    } else {
        network_parity::gated_seen(p, v, t, f, Site::FeedForward, xs, n, s, w, hidden, y);
        network_parity::gated_seen(p, v, t, f, Site::FeedForward, zs, n, s, w, hidden, z);
    }
    assert forall|r: int| 0 <= r < s && shown(r) implies #[trigger] (t.rows)(y, 0, b, r) == (
    t.rows)(z, 0, b, r) by {
        assert((t.rows)(*xs, 0, b, r) == (t.rows)(*zs, 0, b, r));
    }
}

proof fn sums_agree<T, V>(
    t: Sight<T, V>,
    f: spec_fn(V, V) -> V,
    n: usize,
    s: usize,
    w: usize,
    b: int,
    shown: spec_fn(int) -> bool,
    a: T,
    c: T,
    y: T,
    d: T,
    e: T,
    z: T,
)
    requires
        (t.shape)(a) == seq![n, s, w],
        (t.shape)(c) == seq![n, s, w],
        0 <= b < n,
        agree_on(t, a, d, b, shown),
        agree_on(t, c, e, b, shown),
        parity::shows_zipped(t, a, c, f, y),
        parity::shows_zipped(t, d, e, f, z),
    ensures
        (t.shape)(y) == seq![n, s, w],
        agree_on(t, y, z, b, shown),
{
    assert forall|r: int| 0 <= r < s && shown(r) implies #[trigger] (t.rows)(y, 0, b, r) == (
    t.rows)(z, 0, b, r) by {
        assert(parity::has_row((t.shape)(y), 0, b, r));
        assert(parity::has_row((t.shape)(z), 0, b, r));
        assert((t.rows)(a, 0, b, r) == (t.rows)(d, 0, b, r));
        assert((t.rows)(c, 0, b, r) == (t.rows)(e, 0, b, r));
    }
}

/// A transformer block reads, for a position that is shown, none that the mask hides from it.
pub proof fn block_reads_what_the_mask_shows<P: Pass, V>(
    p: &P,
    v: Reals<P::N, V>,
    t: Sight<P::T, V>,
    blk: TransformerBlock<P::N>,
    rope: RopeCache<P::N>,
    xs: &P::T,
    zs: &P::T,
    mask: &P::T,
    n: usize,
    s: usize,
    w: usize,
    hidden: usize,
    b: int,
    shown: spec_fn(int) -> bool,
    blank: V,
    y: P::T,
    z: P::T,
)
    requires
        parity::rows_fit(t),
        hides(v, blank),
        block_means(p, v, t, blk, w, hidden),
        rope.wf(),
        rope.half == blk.attn.head_dim / 2,
        (t.shape)(*xs) == seq![n, s, w],
        parity::mask_spans((t.shape)(*mask), seq![n, blk.attn.n_heads, s, s]),
        0 <= b < n,
        agree_on(t, *xs, *zs, b, shown),
        covers(t, *mask, b, s as int, shown, blank),
        forward::is_block_run(p, blk, rope, xs, Some(mask), Ok::<P::T, P::E>(y)),
        forward::is_block_run(p, blk, rope, zs, Some(mask), Ok::<P::T, P::E>(z)),
    ensures
        (t.shape)(y) == seq![n, s, w],
        agree_on(t, y, z, b, shown),
{
    let m = Some(mask);
    let (one, k) = choose|run: BlockRun<P::T>, k: int| #[trigger]
        forward::are_block_ops(p, blk, rope, xs, m, run, k) && k == 6 && y == run.out;
    let (two, j) = choose|run: BlockRun<P::T>, k: int| #[trigger]
        forward::are_block_ops(p, blk, rope, zs, m, run, k) && k == 6 && z == run.out;
    let none = None::<P::E>;
    assert(forward::is_block_op(p, blk, rope, xs, m, one, 0, none));
    assert(forward::is_block_op(p, blk, rope, zs, m, two, 0, none));
    assert(call_ensures(P::layer_norm, (p, Site::Attention, xs), Ok::<P::T, P::E>(one.attn_in)));
    assert(call_ensures(P::layer_norm, (p, Site::Attention, zs), Ok::<P::T, P::E>(two.attn_in)));
    assert(agree_on(t, one.attn_in, two.attn_in, b, shown));
    assert(forward::is_block_op(p, blk, rope, xs, m, one, 1, none));
    assert(forward::is_block_op(p, blk, rope, zs, m, two, 1, none));
    attention_reads_what_the_mask_shows(
        p,
        v,
        t,
        blk.attn,
        rope,
        &one.attn_in,
        &two.attn_in,
        mask,
        n,
        s,
        w,
        b,
        shown,
        blank,
        one.attn_out,
        two.attn_out,
    );
    assert(forward::is_block_op(p, blk, rope, xs, m, one, 2, none));
    assert(forward::is_block_op(p, blk, rope, zs, m, two, 2, none));
    assert((t.shape)(*zs) == (t.shape)(two.attn_out));
    sums_agree(
        t,
        v.ring.plus,
        n,
        s,
        w,
        b,
        shown,
        *xs,
        one.attn_out,
        one.x,
        *zs,
        two.attn_out,
        two.x,
    );
    assert(forward::is_block_op(p, blk, rope, xs, m, one, 3, none));
    assert(forward::is_block_op(p, blk, rope, zs, m, two, 3, none));
    assert(call_ensures(
        P::layer_norm,
        (p, Site::FeedForward, &one.x),
        Ok::<P::T, P::E>(one.ffn_in),
    ));
    assert(call_ensures(
        P::layer_norm,
        (p, Site::FeedForward, &two.x),
        Ok::<P::T, P::E>(two.ffn_in),
    ));
    assert(agree_on(t, one.ffn_in, two.ffn_in, b, shown));
    assert(forward::is_block_op(p, blk, rope, xs, m, one, 4, none));
    assert(forward::is_block_op(p, blk, rope, zs, m, two, 4, none));
    ffn_by_row(
        p,
        v,
        t,
        blk.ffn,
        &one.ffn_in,
        &two.ffn_in,
        n,
        s,
        w,
        hidden,
        b,
        shown,
        one.ffn_out,
        two.ffn_out,
    );
    assert(forward::is_block_op(p, blk, rope, xs, m, one, 5, none));
    assert(forward::is_block_op(p, blk, rope, zs, m, two, 5, none));
    sums_agree(
        t,
        v.ring.plus,
        n,
        s,
        w,
        b,
        shown,
        one.x,
        one.ffn_out,
        one.out,
        two.x,
        two.ffn_out,
        two.out,
    );
}

/// A network whose packed stack, where there is one, finds no device.
pub open spec fn no_stack_device<N: Copy, F, L: Layers<N>>(
    l: &L,
    net: SharedNetwork<N, F>,
) -> bool {
    net.stack_packed() ==> forall|i: usize, p: &L::P| #[trigger]
        call_ensures(L::block, (l, i), p) ==> repeat::leaves_device(p)
}

/// A pass through a network without a device goes through all blocks in order: it starts from a
/// copy of its input, hands what each block gives to the next one, runs block `i` with the
/// operations at place `i`, the angles of the network and the mask that the network was given,
/// and ends with what the last block gives.
pub proof fn network_runs_block_after_block<N: Copy, F: Copy, L: Layers<N>>(
    l: &L,
    net: SharedNetwork<N, F>,
    zero: N,
    xs: &<L::P as Pass>::T,
    mask: Option<&<L::P as Pass>::T>,
    y: <L::P as Pass>::T,
) -> (hs: Seq<<L::P as Pass>::T>)
    requires
        no_stack_device::<N, F, L>(l, net),
        forward::is_network_out::<N, F, L>(
            l,
            net,
            zero,
            xs,
            mask,
            Ok::<<L::P as Pass>::T, ForwardError<<L::P as Pass>::E>>(y),
        ),
    ensures
        hs.len() == net.blocks@.len() + 1,
        call_ensures(L::copy, (l, xs), hs[0]),
        y == hs[net.blocks@.len() as int],
        forall|i: int|
            0 <= i < net.blocks@.len() ==> (#[trigger] net.blocks@[i] matches Block::Transformer(
                b,
            ) ==> exists|p: &L::P|
                {
                    &&& #[trigger] call_ensures(L::block, (l, i as usize), p)
                    &&& forward::is_block_run(
                        p,
                        b,
                        net.rope->Some_0,
                        &hs[i],
                        mask,
                        Ok::<<L::P as Pass>::T, <L::P as Pass>::E>(hs[i + 1]),
                    )
                }),
        forall|i: int|
            0 <= i < net.blocks@.len() ==> (#[trigger] net.blocks@[i] matches Block::Mixer(b)
                ==> exists|p: &L::P|
                {
                    &&& #[trigger] call_ensures(L::block, (l, i as usize), p)
                    &&& forward::is_mixer_out(
                        p,
                        b,
                        &hs[i],
                        Ok::<<L::P as Pass>::T, ForwardError<<L::P as Pass>::E>>(hs[i + 1]),
                    )
                }),
{
    let good = Ok::<<L::P as Pass>::T, ForwardError<<L::P as Pass>::E>>(y);
    let bs = net.blocks@;
    let rope = net.rope->Some_0;
    if net.stack_packed() {
        repeat::blocks_take_over::<N, F, L>(l, net, zero, xs, mask, good);
    }
    let hs = choose|hs: Seq<<L::P as Pass>::T>|
        {
            &&& #[trigger] forward::are_steps::<N, L>(l, bs, rope, mask, hs)
            &&& hs.len() > 0
            &&& call_ensures(L::copy, (l, xs), hs[0])
            &&& hs.len() == bs.len() + 1
            &&& y == hs.last()
        };
    assert forall|i: int| 0 <= i < bs.len() implies (#[trigger] bs[i] matches Block::Transformer(
        b,
    ) ==> exists|p: &L::P|
        {
            &&& #[trigger] call_ensures(L::block, (l, i as usize), p)
            &&& forward::is_block_run(
                p,
                b,
                rope,
                &hs[i],
                mask,
                Ok::<<L::P as Pass>::T, <L::P as Pass>::E>(hs[i + 1]),
            )
        }) by {
        if let Block::Transformer(b) = bs[i] {
            let step = Ok::<<L::P as Pass>::T, ForwardError<<L::P as Pass>::E>>(hs[i + 1]);
            assert(forward::is_step::<N, L>(l, bs, rope, i, mask, hs[i], step));
            let p = choose|p: &L::P| #[trigger]
                call_ensures(L::block, (l, i as usize), p) && forward::is_block_out(
                    p,
                    bs[i],
                    rope,
                    &hs[i],
                    mask,
                    step,
                );
            let q = choose|q: Result<<L::P as Pass>::T, <L::P as Pass>::E>| #[trigger]
                forward::is_block_run(p, b, rope, &hs[i], mask, q) && step == forward::lifted(q);
            assert(q == Ok::<<L::P as Pass>::T, <L::P as Pass>::E>(hs[i + 1]));
        }
    }
    assert forall|i: int| 0 <= i < bs.len() implies (#[trigger] bs[i] matches Block::Mixer(b)
        ==> exists|p: &L::P|
        {
            &&& #[trigger] call_ensures(L::block, (l, i as usize), p)
            &&& forward::is_mixer_out(
                p,
                b,
                &hs[i],
                Ok::<<L::P as Pass>::T, ForwardError<<L::P as Pass>::E>>(hs[i + 1]),
            )
        }) by {
        if let Block::Mixer(b) = bs[i] {
            let step = Ok::<<L::P as Pass>::T, ForwardError<<L::P as Pass>::E>>(hs[i + 1]);
            assert(forward::is_step::<N, L>(l, bs, rope, i, mask, hs[i], step));
        }
    }
    hs
}

/// A transformer of that width whose blocks all mean what they are named for.
pub open spec fn network_means<N: Copy, F, L: Layers<N>, V>(
    l: &L,
    v: Reals<N, V>,
    t: Sight<<L::P as Pass>::T, V>,
    net: SharedNetwork<N, F>,
    heads: usize,
    w: usize,
    hidden: usize,
) -> bool {
    &&& net.rope is Some
    &&& net.rope->Some_0.wf()
    &&& forall|i: int|
        0 <= i < net.blocks@.len() ==> (#[trigger] net.blocks@[i] matches Block::Transformer(b)
            && b.attn.n_heads == heads && net.rope->Some_0.half == b.attn.head_dim / 2)
    &&& forall|i: int, p: &L::P|
        0 <= i < net.blocks@.len() && #[trigger] call_ensures(L::block, (l, i as usize), p)
            ==> block_means(p, v, t, net.blocks@[i]->Transformer_0, w, hidden)
    &&& forall|i: int, p: &L::P, q: &L::P|
        0 <= i < net.blocks@.len() && #[trigger] call_ensures(L::block, (l, i as usize), p)
            && #[trigger] call_ensures(L::block, (l, i as usize), q) ==> p == q
}

proof fn steps_agree<N: Copy, F: Copy, L: Layers<N>, V>(
    l: &L,
    v: Reals<N, V>,
    t: Sight<<L::P as Pass>::T, V>,
    net: SharedNetwork<N, F>,
    mask: &<L::P as Pass>::T,
    heads: usize,
    n: usize,
    s: usize,
    w: usize,
    hidden: usize,
    b: int,
    shown: spec_fn(int) -> bool,
    blank: V,
    hs: Seq<<L::P as Pass>::T>,
    gs: Seq<<L::P as Pass>::T>,
    k: int,
)
    requires
        parity::rows_fit(t),
        hides(v, blank),
        network_means::<N, F, L, V>(l, v, t, net, heads, w, hidden),
        parity::mask_spans((t.shape)(*mask), seq![n, heads, s, s]),
        0 <= b < n,
        covers(t, *mask, b, s as int, shown, blank),
        0 <= k <= net.blocks@.len(),
        hs.len() == net.blocks@.len() + 1,
        gs.len() == net.blocks@.len() + 1,
        (t.shape)(hs[0]) == seq![n, s, w],
        agree_on(t, hs[0], gs[0], b, shown),
        forall|i: int|
            0 <= i < net.blocks@.len() ==> (#[trigger] net.blocks@[i] matches Block::Transformer(
                b,
            ) ==> exists|p: &L::P|
                {
                    &&& #[trigger] call_ensures(L::block, (l, i as usize), p)
                    &&& forward::is_block_run(
                        p,
                        b,
                        net.rope->Some_0,
                        &hs[i],
                        Some(mask),
                        Ok::<<L::P as Pass>::T, <L::P as Pass>::E>(hs[i + 1]),
                    )
                }),
        forall|i: int|
            0 <= i < net.blocks@.len() ==> (#[trigger] net.blocks@[i] matches Block::Transformer(
                b,
            ) ==> exists|p: &L::P|
                {
                    &&& #[trigger] call_ensures(L::block, (l, i as usize), p)
                    &&& forward::is_block_run(
                        p,
                        b,
                        net.rope->Some_0,
                        &gs[i],
                        Some(mask),
                        Ok::<<L::P as Pass>::T, <L::P as Pass>::E>(gs[i + 1]),
                    )
                }),
    ensures
        (t.shape)(hs[k]) == seq![n, s, w],
        agree_on(t, hs[k], gs[k], b, shown),
    decreases k,
{
    if k > 0 {
        let i = k - 1;
        steps_agree::<N, F, L, V>(
            l,
            v,
            t,
            net,
            mask,
            heads,
            n,
            s,
            w,
            hidden,
            b,
            shown,
            blank,
            hs,
            gs,
            i,
        );
        let rope = net.rope->Some_0;
        assert(net.blocks@[i] is Transformer);
        let blk = net.blocks@[i]->Transformer_0;
        let p = choose|p: &L::P|
            {
                &&& #[trigger] call_ensures(L::block, (l, i as usize), p)
                &&& forward::is_block_run(
                    p,
                    blk,
                    rope,
                    &hs[i],
                    Some(mask),
                    Ok::<<L::P as Pass>::T, <L::P as Pass>::E>(hs[i + 1]),
                )
            };
        let q = choose|p: &L::P|
            {
                &&& #[trigger] call_ensures(L::block, (l, i as usize), p)
                &&& forward::is_block_run(
                    p,
                    blk,
                    rope,
                    &gs[i],
                    Some(mask),
                    Ok::<<L::P as Pass>::T, <L::P as Pass>::E>(gs[i + 1]),
                )
            };
        assert(p == q);
        assert(block_means(p, v, t, blk, w, hidden));
        block_reads_what_the_mask_shows(
            p,
            v,
            t,
            blk,
            rope,
            &hs[i],
            &gs[i],
            mask,
            n,
            s,
            w,
            hidden,
            b,
            shown,
            blank,
            hs[i + 1],
            gs[i + 1],
        );
    }
}

/// A pass through a transformer reads its mask. Let the mask hide, from every position that is
/// shown, every position that is not. Then two inputs with the same rows at the positions shown
/// give the same rows there, whatever stands at the others: under a causal mask, what comes out
/// at a position does not depend on what goes in after it. Arithmetic does not round, no device
/// takes part and the tensor operations mean what they are named for; the blocks may be packed or
/// not.
pub proof fn network_reads_what_the_mask_shows<N: Copy, F: Copy, L: Layers<N>, V>(
    l: &L,
    v: Reals<N, V>,
    t: Sight<<L::P as Pass>::T, V>,
    net: SharedNetwork<N, F>,
    zero: N,
    xs: &<L::P as Pass>::T,
    zs: &<L::P as Pass>::T,
    mask: &<L::P as Pass>::T,
    heads: usize,
    n: usize,
    s: usize,
    w: usize,
    hidden: usize,
    b: int,
    shown: spec_fn(int) -> bool,
    blank: V,
    y: <L::P as Pass>::T,
    z: <L::P as Pass>::T,
)
    requires
        parity::rows_fit(t),
        hides(v, blank),
        network_parity::copies_mean::<N, L, V>(l, t),
        no_stack_device::<N, F, L>(l, net),
        network_means::<N, F, L, V>(l, v, t, net, heads, w, hidden),
        (t.shape)(*xs) == seq![n, s, w],
        (t.shape)(*zs) == seq![n, s, w],
        parity::mask_spans((t.shape)(*mask), seq![n, heads, s, s]),
        0 <= b < n,
        forall|r: int|
            0 <= r < s && shown(r) ==> #[trigger] (t.rows)(*xs, 0, b, r) == (t.rows)(*zs, 0, b, r),
        forall|r: int, k: int|
            0 <= r < s && 0 <= k < s && shown(r) && !shown(k) ==> #[trigger] parity::mask_row(
                t,
                *mask,
                b,
                r,
            )[k] == blank,
        forward::is_network_out::<N, F, L>(
            l,
            net,
            zero,
            xs,
            Some(mask),
            Ok::<<L::P as Pass>::T, ForwardError<<L::P as Pass>::E>>(y),
        ),
        forward::is_network_out::<N, F, L>(
            l,
            net,
            zero,
            zs,
            Some(mask),
            Ok::<<L::P as Pass>::T, ForwardError<<L::P as Pass>::E>>(z),
        ),
    ensures
        (t.shape)(y) == seq![n, s, w],
        (t.shape)(z) == seq![n, s, w],
        forall|r: int|
            0 <= r < s && shown(r) ==> #[trigger] (t.rows)(y, 0, b, r) == (t.rows)(z, 0, b, r),
{
    let hs = network_runs_block_after_block::<N, F, L>(l, net, zero, xs, Some(mask), y);
    let gs = network_runs_block_after_block::<N, F, L>(l, net, zero, zs, Some(mask), z);
    assert(agree_on(t, hs[0], gs[0], b, shown)) by {
        assert(parity::alike(t, *xs, hs[0]));
        assert(parity::alike(t, *zs, gs[0]));
        assert forall|r: int| 0 <= r < s && shown(r) implies #[trigger] (t.rows)(hs[0], 0, b, r)
            == (t.rows)(gs[0], 0, b, r) by {
            assert(parity::has_row((t.shape)(*xs), 0, b, r));
            assert((t.rows)(*xs, 0, b, r) == (t.rows)(hs[0], 0, b, r));
            assert((t.rows)(*zs, 0, b, r) == (t.rows)(gs[0], 0, b, r));
        }
    }
    steps_agree::<N, F, L, V>(
        l,
        v,
        t,
        net,
        mask,
        heads,
        n,
        s,
        w,
        hidden,
        b,
        shown,
        blank,
        hs,
        gs,
        net.blocks@.len() as int,
    );
}

} // verus!
