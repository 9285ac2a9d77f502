//! What the blocks of a network add to what they are given.

use crate::forward;
use crate::forward::{BlockRun, ForwardError, Layers, MixerRun, Pass, Site};
use crate::kernel_dispatch;
use crate::kernel_dispatch::{Bank, DispatchError, PackedLayerBufs, RopeCache, StackCall};
use crate::network;
use crate::network::{Block, MixerBlock, TransformerBlock};
use crate::network_parity;
use crate::parity;
use crate::parity::{Reals, Sight};
use crate::tensor::DenseTensor;
use vstd::prelude::*;

verus! {

/// A row is, entry by entry, the sum of two others.
pub open spec fn is_row_sum<N, V>(v: Reals<N, V>, a: Seq<V>, b: Seq<V>, y: Seq<V>) -> bool {
    &&& y.len() == a.len()
    &&& forall|i: int| 0 <= i < y.len() ==> #[trigger] y[i] == (v.ring.plus)(a[i], b[i])
}

/// A tensor is the sum of two others: it has their shape, and every row is the sum of theirs.
pub open spec fn is_tensor_sum<N, T, V>(
    v: Reals<N, V>,
    t: Sight<T, V>,
    a: T,
    b: T,
    y: T,
) -> bool {
    &&& (t.shape)(y) == (t.shape)(a)
    &&& forall|i: int, j: int, k: int|
        parity::has_row((t.shape)(a), i, j, k) ==> is_row_sum(
            v,
            (t.rows)(a, i, j, k),
            (t.rows)(b, i, j, k),
            #[trigger] (t.rows)(y, i, j, k),
        )
}

/// A transformer block adds to its input what attention makes of the norm of the input, and to
/// that sum what the feed-forward layer makes of the norm of the sum.
pub proof fn block_adds_to_its_input<P: Pass, V>(
    p: &P,
    v: Reals<P::N, V>,
    t: Sight<P::T, V>,
    b: TransformerBlock<P::N>,
    rope: RopeCache<P::N>,
    xs: &P::T,
    mask: Option<&P::T>,
    out: P::T,
) -> (run: BlockRun<P::T>)
    requires
        network_parity::adds_mean(p, v, t),
        forward::is_block_run(p, b, rope, xs, mask, Ok::<P::T, P::E>(out)),
    ensures
        forward::is_norm_out(
            p,
            b.ln_attn,
            b.attn.all_packed(),
            Site::Attention,
            xs,
            Ok::<P::T, P::E>(run.attn_in),
        ),
        forward::is_attention_out(
            p,
            b.attn,
            rope,
            &run.attn_in,
            mask,
            Ok::<P::T, P::E>(run.attn_out),
        ),
        (t.shape)(run.attn_out) == (t.shape)(*xs) ==> is_tensor_sum(
            v,
            t,
            *xs,
            run.attn_out,
            run.x,
        ),
        forward::is_norm_out(
            p,
            b.ln_ffn,
            b.ffn.all_packed(),
            Site::FeedForward,
            &run.x,
            Ok::<P::T, P::E>(run.ffn_in),
        ),
        forward::is_ffn_out(
            p,
            b.ffn,
            Site::FeedForward,
            &run.ffn_in,
            Ok::<P::T, P::E>(run.ffn_out),
        ),
        (t.shape)(run.ffn_out) == (t.shape)(run.x) ==> is_tensor_sum(
            v,
            t,
            run.x,
            run.ffn_out,
            out,
        ),
{
    let (run, k) = choose|run: BlockRun<P::T>, k: int|
        #[trigger] forward::are_block_ops(p, b, rope, xs, mask, run, k) && k == 6 && out
            == run.out;
    let none = None::<P::E>;
    assert(forward::is_block_op(p, b, rope, xs, mask, run, 0, none));
    assert(forward::is_block_op(p, b, rope, xs, mask, run, 1, none));
    assert(forward::is_block_op(p, b, rope, xs, mask, run, 2, none));
    assert(forward::is_block_op(p, b, rope, xs, mask, run, 3, none));
    assert(forward::is_block_op(p, b, rope, xs, mask, run, 4, none));
    assert(forward::is_block_op(p, b, rope, xs, mask, run, 5, none));
    run
}

/// Folding brings positions last: row `c` of batch `b` holds, for every position, the entry of
/// that channel, and stands at row `b * channels + c`. Unfolding undoes that.
pub open spec fn folds_mean<P: Pass, V>(p: &P, t: Sight<P::T, V>) -> bool {
    &&& forall|x: &P::T, dims: (usize, usize, usize), y: P::T| #[trigger]
        call_ensures(P::fold, (p, x, dims), Ok::<P::T, P::E>(y)) ==> forall|b: int, c: int|
            0 <= b < dims.0 && 0 <= c < dims.2 ==> #[trigger] (t.rows)(
                y,
                0,
                0,
                b * dims.2 + c,
            ) == Seq::new(dims.1 as nat, |s: int| (t.rows)(*x, 0, b, s)[c])
    &&& forall|x: &P::T, dims: (usize, usize, usize), y: P::T| #[trigger]
        call_ensures(P::unfold, (p, x, dims), Ok::<P::T, P::E>(y)) ==> forall|b: int, s: int|
            0 <= b < dims.0 && 0 <= s < dims.1 ==> #[trigger] (t.rows)(y, 0, b, s) == Seq::new(
                dims.2 as nat,
                |c: int| (t.rows)(*x, 0, 0, b * dims.2 + c)[s],
            )
}

/// A mixer block adds to its input what its first layer makes of the channels of the norm of the
/// input, each channel a row over all positions, and to that sum what its second layer makes of
/// the norm of the sum. An input of another length than its own is refused.
pub proof fn mixer_adds_to_its_input<P: Pass, V>(
    p: &P,
    v: Reals<P::N, V>,
    t: Sight<P::T, V>,
    m: MixerBlock<P::N>,
    xs: &P::T,
    r: Result<P::T, ForwardError<P::E>>,
) -> (got: ((usize, usize, usize), MixerRun<P::T>))
    requires
        network_parity::adds_mean(p, v, t),
        folds_mean(p, t),
        forward::is_mixer_out(p, m, xs, r),
    ensures
        r matches Err(ForwardError::SeqLen(e)) ==> e.required == m.seq_len && e.got == got.0.1
            && e.got != m.seq_len && call_ensures(
            P::dims3,
            (p, xs),
            Ok::<(usize, usize, usize), P::E>(got.0),
        ),
        r matches Ok(out) ==> {
            let (dims, run) = got;
            &&& call_ensures(P::dims3, (p, xs), Ok::<(usize, usize, usize), P::E>(dims))
            &&& dims.1 == m.seq_len
            &&& forward::is_norm_out(
                p,
                m.ln_token,
                m.token_ffn.all_packed(),
                Site::Token,
                xs,
                Ok::<P::T, P::E>(run.normed),
            )
            &&& forall|b: int, c: int|
                0 <= b < dims.0 && 0 <= c < dims.2 ==> #[trigger] (t.rows)(
                    run.folded,
                    0,
                    0,
                    b * dims.2 + c,
                ) == Seq::new(dims.1 as nat, |s: int| (t.rows)(run.normed, 0, b, s)[c])
            &&& forward::is_ffn_out(
                p,
                m.token_ffn,
                Site::Token,
                &run.folded,
                Ok::<P::T, P::E>(run.mixed),
            )
            &&& forall|b: int, s: int|
                0 <= b < dims.0 && 0 <= s < dims.1 ==> #[trigger] (t.rows)(
                    run.unfolded,
                    0,
                    b,
                    s,
                ) == Seq::new(
                    dims.2 as nat,
                    |c: int| (t.rows)(run.mixed, 0, 0, b * dims.2 + c)[s],
                )
            &&& (t.shape)(run.unfolded) == (t.shape)(*xs) ==> is_tensor_sum(
                v,
                t,
                *xs,
                run.unfolded,
                run.x,
            )
            &&& forward::is_norm_out(
                p,
                m.ln_channel,
                m.channel_ffn.all_packed(),
                Site::Channel,
                &run.x,
                Ok::<P::T, P::E>(run.ffn_in),
            )
            &&& forward::is_ffn_out(
                p,
                m.channel_ffn,
                Site::Channel,
                &run.ffn_in,
                Ok::<P::T, P::E>(run.ffn_out),
            )
            &&& (t.shape)(run.ffn_out) == (t.shape)(run.x) ==> is_tensor_sum(
                v,
                t,
                run.x,
                run.ffn_out,
                out,
            )
        },
{
    let d = choose|d: Result<(usize, usize, usize), P::E>| #[trigger]
        call_ensures(P::dims3, (p, xs), d) && match d {
            Ok(d) => forward::is_mixed(p, m, xs, d, r),
            Err(e) => r == Err::<P::T, ForwardError<P::E>>(ForwardError::Tensor(e)),
        };
    let dims = d->Ok_0;
    match r {
        Ok(out) => {
            let q = choose|q: Result<P::T, P::E>| #[trigger]
                forward::is_mixer_run(p, m, xs, dims, q) && r == forward::lifted(q);
            let (run, k) = choose|run: MixerRun<P::T>, k: int|
                #[trigger] forward::are_mixer_ops(p, m, xs, dims, run, k) && k == 8 && out
                    == run.out;
            let none = None::<P::E>;
            assert(forward::is_mixer_op(p, m, xs, dims, run, 0, none));
            assert(forward::is_mixer_op(p, m, xs, dims, run, 1, none));
            assert(forward::is_mixer_op(p, m, xs, dims, run, 2, none));
            assert(forward::is_mixer_op(p, m, xs, dims, run, 3, none));
            assert(forward::is_mixer_op(p, m, xs, dims, run, 4, none));
            assert(forward::is_mixer_op(p, m, xs, dims, run, 5, none));
            assert(forward::is_mixer_op(p, m, xs, dims, run, 6, none));
            assert(forward::is_mixer_op(p, m, xs, dims, run, 7, none));
            (dims, run)
        },
        Err(_) => (dims, arbitrary()),
    }
}

/// The mask of a call covers the batch with the entries of a mask: as they are where that has one
/// for every sequence, and the same ones for every sequence where it has one for a single one.
pub open spec fn covers_with<N>(given: Seq<N>, b: int, s: int, m: Seq<N>) -> bool {
    &&& given.len() == b * s * s
    &&& m.len() == b * s * s ==> given == m
    &&& m.len() != b * s * s ==> m.len() == s * s && forall|i: int|
        0 <= i < given.len() ==> #[trigger] given[i] == m[i % (s * s)]
}

/// A call carries an input, its sizes, the angles of as many positions as the input has, and the
/// mask that there is.
pub open spec fn carries<P: Pass>(
    p: &P,
    c: StackCall<P::N>,
    rope: RopeCache<P::N>,
    xs: &P::T,
    mask: Option<&P::T>,
) -> bool {
    &&& exists|x: DenseTensor<P::N>| #[trigger]
        call_ensures(P::plain, (p, xs), Ok::<DenseTensor<P::N>, P::E>(x)) && c.xs@ == x.data@
            && x.dims@ == seq![c.b, c.s, c.d]
    &&& c.rope_cos@ == rope.cos@.take(c.s * rope.half)
    &&& c.rope_sin@ == rope.sin@.take(c.s * rope.half)
    &&& match mask {
        None => c.mask is None,
        Some(m) => c.mask is Some && exists|t: DenseTensor<P::N>| #[trigger]
            call_ensures(P::plain, (p, m), Ok::<DenseTensor<P::N>, P::E>(t)) && covers_with(
                c.mask->Some_0@,
                c.b as int,
                c.s as int,
                t.data@,
            ),
    }
}

/// What a packed stack gives is what the device answered to a call that carried the input, the
/// mask and every layer in order.
pub proof fn stack_is_given_mask_and_layers<N: Copy, L: Layers<N>>(
    l: &L,
    blocks: Seq<Block<N>>,
    rope: RopeCache<N>,
    zero: N,
    xs: &<L::P as Pass>::T,
    mask: Option<&<L::P as Pass>::T>,
    h: <L::P as Pass>::T,
)
    requires
        forward::is_network_stack::<N, L>(
            l,
            blocks,
            rope,
            zero,
            xs,
            mask,
            Ok::<<L::P as Pass>::T, <L::P as Pass>::E>(h),
        ),
    ensures
        exists|p: &L::P, c: StackCall<N>|
            {
                &&& call_ensures(L::block, (l, 0usize), p)
                &&& #[trigger] carries::<L::P>(p, c, rope, xs, mask)
                &&& c.layers@.len() == blocks.len()
                &&& forall|i: int|
                    0 <= i < blocks.len() ==> network::is_block_bufs(
                        blocks[i],
                        zero,
                        #[trigger] c.layers@[i],
                    )
                &&& is_answer::<L::P>(p, c, h)
            },
{
    let good = Ok::<<L::P as Pass>::T, <L::P as Pass>::E>(h);
    let (p, bufs) = choose|p: &L::P, bufs: Vec<PackedLayerBufs<N>>|
        {
            &&& call_ensures(L::block, (l, 0usize), p)
            &&& forward::are_layers(blocks, zero, bufs@)
            &&& #[trigger] forward::is_stack_out(p, &bufs, rope, xs, mask, good)
        };
    let x = choose|x: Result<DenseTensor<N>, <L::P as Pass>::E>| #[trigger]
        call_ensures(<L::P as Pass>::plain, (p, xs), x) && match x {
            Ok(x) => forward::is_stack_masked(p, &bufs, rope, x, mask, good),
            Err(e) => good == Err::<<L::P as Pass>::T, <L::P as Pass>::E>(e),
        };
    let x = x->Ok_0;
    let m = choose|m: Result<Option<DenseTensor<N>>, <L::P as Pass>::E>| #[trigger]
        forward::is_plain_mask(p, mask, m) && match m {
            Ok(m) => forward::is_stack_on(p, &bufs, rope, x, m, good),
            Err(e) => good == Err::<<L::P as Pass>::T, <L::P as Pass>::E>(e),
        };
    let m = m->Ok_0;
    let flat = forward::flat(m);
    let (bank, q) = choose|
        bank: &<L::P as Pass>::B,
        q: Result<DenseTensor<N>, DispatchError>,
    |
        {
            &&& call_ensures(<L::P as Pass>::bank, (p,), bank)
            &&& #[trigger] kernel_dispatch::is_stack_answer(
                bank,
                x,
                &bufs,
                rope,
                flat,
                kernel_dispatch::result_model(q),
            )
            &&& forward::is_carried(p, q, good)
        };
    let t = q->Ok_0;
    let (c, dev) = choose|c: StackCall<N>, dev: Option<Vec<N>>|
        {
            &&& kernel_dispatch::is_stack_call(c, x, &bufs, rope, flat)
            &&& #[trigger] call_ensures(<<L::P as Pass>::B as Bank<N>>::stack, (bank, &c), dev)
            &&& kernel_dispatch::result_model(q) == match dev {
                Some(out) => kernel_dispatch::shaped(x.dims@, out@),
                None => Err(DispatchError::Unavailable),
            }
        };
    let (b, s) = (c.b as int, c.s as int);
    assert(x.dims@ =~= seq![c.b, c.s, c.d]);
    if let Some(all) = flat {
        assert(covers_with(c.mask->Some_0@, b, s, all)) by {
            if all.len() != b * s * s {
                repeats(all, b, s);
            }
        }
    }
    assert(call_ensures(
        <<L::P as Pass>::B as Bank<N>>::stack,
        (bank, &c),
        Some(dev->Some_0),
    ));
    assert(is_answer::<L::P>(p, c, h)) by {
        assert(call_ensures(
            <L::P as Pass>::tensor,
            (p, t),
            Ok::<<L::P as Pass>::T, <L::P as Pass>::E>(h),
        ));
        assert(is_device_stack(bank, c, t));
    }
    assert(carries::<L::P>(p, c, rope, xs, mask));
}

/// A tensor holds what the device answered to a call, in the shape of the call's input.
pub open spec fn is_device_stack<N, B: Bank<N>>(
    bank: &B,
    c: StackCall<N>,
    t: DenseTensor<N>,
) -> bool {
    &&& t.dims@ == seq![c.b, c.s, c.d]
    &&& exists|out: Vec<N>| #[trigger]
        call_ensures(B::stack, (bank, &c), Some(out)) && t.data@ == out@
}

/// `h` is what the device of a pass answered to a call.
pub open spec fn is_answer<P: Pass>(p: &P, c: StackCall<P::N>, h: P::T) -> bool {
    exists|bank: &P::B, t: DenseTensor<P::N>|
        {
            &&& call_ensures(P::bank, (p,), bank)
            &&& #[trigger] is_device_stack(bank, c, t)
            &&& call_ensures(P::tensor, (p, t), Ok::<P::T, P::E>(h))
        }
}

proof fn repeats<N>(m: Seq<N>, b: int, s: int)
    requires
        m.len() == s * s,
        0 <= b,
        0 <= s,
    ensures
        kernel_dispatch::repeated(m, b).len() == b * s * s,
        forall|i: int|
            0 <= i < b * s * s ==> #[trigger] kernel_dispatch::repeated(m, b)[i] == m[i % (s * s)],
{
    assert(b * s * s == b * (s * s)) by (nonlinear_arith);
}

} // verus!
