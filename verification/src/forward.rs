//! The forward pass: which operations run, on what, and in which order.
//!
//! Tensors and the operations on them belong to a tensor library; here stands the route that a
//! pass takes through the network. Packed layers leave it for plain values and the kernels of
//! this library. The first operation that fails ends a pass with its error.

use crate::arith;
use crate::arith::Arith;
use crate::kernel_dispatch;
use crate::kernel_dispatch::{
    answer_ffn, answer_linear, answer_mha, answer_stack, device_norm, Bank, DispatchError, Linear,
    MaybeTernaryLinear, Norm, PackedLayerBufs, Part, RopeCache,
};
use crate::kernel_ref;
use crate::network;
use crate::network::{
    Block, MixerBlock, MultiHeadSelfAttention, NetworkConfig, NetworkVariant, SeqLenMismatch,
    SharedNetwork, SwiGluFfn, TransformerBlock,
};
use crate::outcome;
use crate::quantize::{PackModel, TernaryPacked};
use crate::tensor::DenseTensor;
use vstd::prelude::*;

verus! {

/// The layer norms and feed-forward layers of a block.
#[derive(Debug, Clone, Copy, PartialEq, Eq, Structural)]
pub enum Site {
    Attention,
    FeedForward,
    Token,
    Channel,
}

/// The tensor operations of one block. Nothing is demanded of them beyond that they return.
pub trait Pass {
    /// A number.
    type N: Copy;

    /// The arithmetic of the packed kernels.
    type A: Arith<Num = Self::N>;

    /// The device of the packed kernels.
    type B: Bank<Self::N>;

    /// A tensor.
    type T;

    type E;

    fn arith(&self) -> &Self::A;

    fn bank(&self) -> &Self::B;

    /// The dimensions and elements of a tensor.
    fn plain(&self, xs: &Self::T) -> Result<DenseTensor<Self::N>, Self::E>;

    /// The tensor of these dimensions and elements.
    fn tensor(&self, xs: DenseTensor<Self::N>) -> Result<Self::T, Self::E>;

    /// The failure that stands for a refusal by the packed kernels.
    fn refused(&self, e: DispatchError) -> Self::E;

    /// The sizes of a tensor with three dimensions.
    fn dims3(&self, xs: &Self::T) -> Result<(usize, usize, usize), Self::E>;

    /// Normalizes by the tensor library's own layer.
    fn layer_norm(&self, site: Site, xs: &Self::T) -> Result<Self::T, Self::E>;

    /// Applies the tensor library's own linear layer.
    fn linear(&self, site: Site, part: Part, xs: &Self::T) -> Result<Self::T, Self::E>;

    /// The sizes of a tensor with four dimensions.
    fn dims4(&self, xs: &Self::T) -> Result<(usize, usize, usize, usize), Self::E>;

    /// The elements in their order, in three dimensions.
    fn reshape3(&self, xs: &Self::T, dims: (usize, usize, usize)) -> Result<Self::T, Self::E>;

    /// The elements in their order, in four dimensions.
    fn reshape4(&self, xs: &Self::T, dims: (usize, usize, usize, usize)) -> Result<
        Self::T,
        Self::E,
    >;

    /// Exchanges two dimensions.
    fn transpose(&self, xs: &Self::T, a: usize, b: usize) -> Result<Self::T, Self::E>;

    /// The same tensor, laid out in its order.
    fn contiguous(&self, xs: &Self::T) -> Result<Self::T, Self::E>;

    /// So many entries of a dimension, from one on.
    fn narrow(&self, xs: &Self::T, dim: usize, start: usize, len: usize) -> Result<
        Self::T,
        Self::E,
    >;

    /// A table as a tensor.
    fn table(&self, entries: &Vec<Self::N>, rows: usize, cols: usize) -> Result<Self::T, Self::E>;

    /// One tensor after the other, along the last dimension.
    fn joined(&self, a: &Self::T, b: &Self::T) -> Result<Self::T, Self::E>;

    /// The heads at these places, in this order.
    fn pick_heads(&self, xs: &Self::T, places: &Vec<usize>) -> Result<Self::T, Self::E>;

    /// The matrix products, one for each batch and head.
    fn matmul(&self, a: &Self::T, b: &Self::T) -> Result<Self::T, Self::E>;

    /// The tensor over the square root of the head width.
    fn scaled(&self, xs: &Self::T, head_dim: usize) -> Result<Self::T, Self::E>;

    /// Adds a mask to scores.
    fn masked(&self, scores: &Self::T, mask: &Self::T) -> Result<Self::T, Self::E>;

    /// The softmax over the last dimension.
    fn softmax(&self, xs: &Self::T) -> Result<Self::T, Self::E>;

    /// `silu`, element by element.
    fn silu(&self, xs: &Self::T) -> Result<Self::T, Self::E>;

    /// The product, element by element; a dimension of one is used over and over.
    fn times(&self, a: &Self::T, b: &Self::T) -> Result<Self::T, Self::E>;

    /// The difference, element by element.
    fn minus(&self, a: &Self::T, b: &Self::T) -> Result<Self::T, Self::E>;

    /// The sum, element by element.
    fn plus(&self, a: &Self::T, b: &Self::T) -> Result<Self::T, Self::E>;

    /// Brings positions last and joins batch and channels.
    fn fold(&self, xs: &Self::T, dims: (usize, usize, usize)) -> Result<Self::T, Self::E>;

    /// Undoes [`Pass::fold`].
    fn unfold(&self, xs: &Self::T, dims: (usize, usize, usize)) -> Result<Self::T, Self::E>;
}

/// `r` carries the answer of a packed kernel back to the pass.
pub open spec fn is_carried<P: Pass>(
    p: &P,
    q: Result<DenseTensor<P::N>, DispatchError>,
    r: Result<P::T, P::E>,
) -> bool {
    match q {
        Ok(t) => call_ensures(P::tensor, (p, t), r),
        Err(e) => exists|x: P::E| #[trigger]
            call_ensures(P::refused, (p, e), x) && r == Err::<P::T, P::E>(x),
    }
}

fn carry<P: Pass>(pass: &P, q: Result<DenseTensor<P::N>, DispatchError>) -> (r: Result<
    P::T,
    P::E,
>)
    ensures
        is_carried(pass, q, r),
{
    match q {
        Ok(t) => pass.tensor(t),
        Err(e) => {
            let x = pass.refused(e);
            assert(call_ensures(P::refused, (pass, e), x));
            Err(x)
        },
    }
}

/// The arithmetic and the device that the pass names.
pub open spec fn names_kernels<P: Pass>(p: &P, ar: &P::A, bank: &P::B) -> bool {
    call_ensures(P::arith, (p,), ar) && call_ensures(P::bank, (p,), bank)
}

/// `r` is what the packed kernels make of a plain tensor with the layer's own weights.
pub open spec fn is_packed_linear_on<P: Pass>(
    p: &P,
    lin: MaybeTernaryLinear<P::N>,
    pack: TernaryPacked<P::N>,
    x: DenseTensor<P::N>,
    r: Result<P::T, P::E>,
) -> bool {
    exists|ar: &P::A, bank: &P::B, q: Result<DenseTensor<P::N>, DispatchError>|
        {
            &&& names_kernels(p, ar, bank)
            &&& #[trigger] kernel_dispatch::is_linear_answer(
                ar,
                bank,
                x,
                pack,
                kernel_dispatch::owned(lin.lin().bias),
                kernel_dispatch::result_model(q),
            )
            &&& is_carried(p, q, r)
        }
}

/// `r` is what the packed kernels make of a tensor with the layer's own weights.
pub open spec fn is_packed_linear_out<P: Pass>(
    p: &P,
    lin: MaybeTernaryLinear<P::N>,
    pack: TernaryPacked<P::N>,
    xs: &P::T,
    r: Result<P::T, P::E>,
) -> bool {
    exists|x: Result<DenseTensor<P::N>, P::E>| #[trigger]
        call_ensures(P::plain, (p, xs), x) && match x {
            Ok(x) => is_packed_linear_on(p, lin, pack, x, r),
            Err(e) => r == Err::<P::T, P::E>(e),
        }
}

/// `r` comes out of a linear layer: of the packed kernels where it is packed, else of the tensor
/// library's own layer.
pub open spec fn is_linear_out<P: Pass>(
    p: &P,
    lin: MaybeTernaryLinear<P::N>,
    site: Site,
    part: Part,
    xs: &P::T,
    r: Result<P::T, P::E>,
) -> bool {
    match lin.pack() {
        Some(pack) => is_packed_linear_out(p, lin, pack, xs, r),
        None => call_ensures(P::linear, (p, site, part, xs), r),
    }
}

fn linear<P: Pass>(
    pass: &P,
    lin: &MaybeTernaryLinear<P::N>,
    site: Site,
    part: Part,
    xs: &P::T,
) -> (r: Result<P::T, P::E>)
    ensures
        is_linear_out(pass, *lin, site, part, xs, r),
{
    match lin.packed() {
        Some(pack) => {
            let x = pass.plain(xs);
            assert(call_ensures(P::plain, (pass, xs), x));
            match x {
                Ok(x) => {
                    let ar = pass.arith();
                    let bank = pass.bank();
                    assert(names_kernels(pass, ar, bank));
                    let q = answer_linear(ar, bank, &x, pack, &lin.inner().bias);
                    let ghost held = q;
                    let r = carry(pass, q);
                    assert(kernel_dispatch::is_linear_answer(
                        ar,
                        bank,
                        x,
                        *pack,
                        kernel_dispatch::owned(lin.lin().bias),
                        kernel_dispatch::result_model(held),
                    ));
                    assert(is_packed_linear_on(pass, *lin, *pack, x, r));
                    r
                },
                Err(e) => Err(e),
            }
        },
        None => pass.linear(site, part, xs),
    }
}

/// `r` is the norm of a tensor whose plain value is `x`: the device's, or the tensor library's
/// where the device gives none.
pub open spec fn is_norm_on<P: Pass>(
    p: &P,
    bank: &P::B,
    ln: Norm<P::N>,
    site: Site,
    xs: &P::T,
    x: DenseTensor<P::N>,
    r: Result<P::T, P::E>,
) -> bool {
    exists|ar: &P::A, zero: P::N, dev: Option<Result<DenseTensor<P::N>, DispatchError>>|
        {
            &&& call_ensures(P::arith, (p,), ar)
            &&& #[trigger] arith::is_whole(ar, 0, zero)
            &&& #[trigger] kernel_dispatch::is_device_answer(
                bank,
                x,
                ln,
                zero,
                kernel_dispatch::answer_model(dev),
            )
            &&& match dev {
                Some(q) => is_carried(p, q, r),
                None => call_ensures(P::layer_norm, (p, site, xs), r),
            }
        }
}

/// `r` is the norm of a tensor by a device that has one.
pub open spec fn is_device_norm_out<P: Pass>(
    p: &P,
    bank: &P::B,
    ln: Norm<P::N>,
    site: Site,
    xs: &P::T,
    r: Result<P::T, P::E>,
) -> bool {
    exists|x: Result<DenseTensor<P::N>, P::E>| #[trigger]
        call_ensures(P::plain, (p, xs), x) && match x {
            Ok(x) => is_norm_on(p, bank, ln, site, xs, x, r),
            Err(e) => r == Err::<P::T, P::E>(e),
        }
}

/// `r` is a layer norm: before a packed layer the device's, where it has one, else the tensor
/// library's.
pub open spec fn is_norm_out<P: Pass>(
    p: &P,
    ln: Norm<P::N>,
    packed: bool,
    site: Site,
    xs: &P::T,
    r: Result<P::T, P::E>,
) -> bool {
    if packed {
        exists|bank: &P::B, gamma: &[P::N], given: bool|
            {
                &&& call_ensures(P::bank, (p,), bank)
                &&& gamma@ == ln.weight@
                &&& #[trigger] call_ensures(P::B::has_layer_norm, (bank, gamma), given)
                &&& if given {
                    is_device_norm_out(p, bank, ln, site, xs, r)
                } else {
                    call_ensures(P::layer_norm, (p, site, xs), r)
                }
            }
    } else {
        call_ensures(P::layer_norm, (p, site, xs), r)
    }
}

fn norm<P: Pass>(pass: &P, ln: &Norm<P::N>, packed: bool, site: Site, xs: &P::T) -> (r: Result<
    P::T,
    P::E,
>)
    ensures
        is_norm_out(pass, *ln, packed, site, xs, r),
{
    if !packed {
        return pass.layer_norm(site, xs);
    }
    let bank = pass.bank();
    assert(call_ensures(P::bank, (pass,), bank));
    let gamma = ln.weight.as_slice();
    let given = bank.has_layer_norm(gamma);
    assert(call_ensures(P::B::has_layer_norm, (bank, gamma), given));
    if !given {
        return pass.layer_norm(site, xs);
    }
    let x = pass.plain(xs);
    assert(call_ensures(P::plain, (pass, xs), x));
    match x {
        Ok(x) => {
            let ar = pass.arith();
            assert(call_ensures(P::arith, (pass,), ar));
            let zero = ar.whole(0);
            assert(arith::is_whole(ar, 0, zero));
            let dev = device_norm(bank, &x, ln, zero);
            let ghost held = dev;
            let r = match dev {
                Some(q) => carry(pass, q),
                None => pass.layer_norm(site, xs),
            };
            assert(kernel_dispatch::is_device_answer(
                bank,
                x,
                *ln,
                zero,
                kernel_dispatch::answer_model(held),
            ));
            assert(is_norm_on(pass, bank, *ln, site, xs, x, r));
            assert(is_device_norm_out(pass, bank, *ln, site, xs, r));
            r
        },
        Err(e) => {
            assert(is_device_norm_out(pass, bank, *ln, site, xs, Err::<P::T, P::E>(e)));
            Err(e)
        },
    }
}

/// The values on the way through a feed-forward layer.
pub struct GatedRun<T> {
    pub raw: T,
    pub gate: T,
    pub value: T,
    pub hidden: T,
    pub out: T,
}

/// Operation `i` of a feed-forward layer gave the value that `run` lists, or failed.
pub open spec fn is_gated_op<P: Pass>(
    p: &P,
    f: SwiGluFfn<P::N>,
    site: Site,
    xs: &P::T,
    run: GatedRun<P::T>,
    i: int,
    failure: Option<P::E>,
) -> bool {
    if i == 0 {
        is_linear_out(p, f.gate, site, Part::Gate, xs, outcome::returned(run.raw, failure))
    } else if i == 1 {
        call_ensures(P::silu, (p, &run.raw), outcome::returned(run.gate, failure))
    } else if i == 2 {
        is_linear_out(p, f.value, site, Part::FfnValue, xs, outcome::returned(run.value, failure))
    } else if i == 3 {
        call_ensures(P::times, (p, &run.gate, &run.value), outcome::returned(run.hidden, failure))
    } else {
        is_linear_out(p, f.down, site, Part::Down, &run.hidden, outcome::returned(run.out, failure))
    }
}

/// The first `k` operations of a feed-forward layer gave the values that `run` lists.
pub open spec fn are_gated_ops<P: Pass>(
    p: &P,
    f: SwiGluFfn<P::N>,
    site: Site,
    xs: &P::T,
    run: GatedRun<P::T>,
    k: int,
) -> bool {
    forall|i: int|
        0 <= i < k ==> #[trigger] is_gated_op(p, f, site, xs, run, i, None::<P::E>)
}

/// `r` comes out of a feed-forward layer, `down(silu(gate(x)) * value(x))`, or is the first failure
/// on the way.
pub open spec fn is_gated_run<P: Pass>(
    p: &P,
    f: SwiGluFfn<P::N>,
    site: Site,
    xs: &P::T,
    r: Result<P::T, P::E>,
) -> bool {
    exists|run: GatedRun<P::T>, k: int|
        {
            &&& #[trigger] are_gated_ops(p, f, site, xs, run, k)
            &&& match r {
                Ok(t) => k == 5 && t == run.out,
                Err(e) => 0 <= k < 5 && is_gated_op(p, f, site, xs, run, k, Some(e)),
            }
        }
}

fn run_gated<P: Pass>(
    pass: &P,
    f: &SwiGluFfn<P::N>,
    site: Site,
    xs: &P::T,
) -> (r: Result<P::T, P::E>)
    ensures
        is_gated_run(pass, *f, site, xs, r),
{
    let ghost mut run: GatedRun<P::T> = arbitrary();
    let raw = match linear(pass, &f.gate, site, Part::Gate, xs) {
        Ok(v) => v,
        Err(e) => {
            assert(is_gated_op(pass, *f, site, xs, run, 0, Some(e)));
            assert(are_gated_ops(pass, *f, site, xs, run, 0));
            return Err(e);
        },
    };
    proof {
        run.raw = raw;
    }
    let gate = match pass.silu(&raw) {
        Ok(v) => v,
        Err(e) => {
            assert(is_gated_op(pass, *f, site, xs, run, 1, Some(e)));
            assert(are_gated_ops(pass, *f, site, xs, run, 1));
            return Err(e);
        },
    };
    proof {
        run.gate = gate;
    }
    let value = match linear(pass, &f.value, site, Part::FfnValue, xs) {
        Ok(v) => v,
        Err(e) => {
            assert(is_gated_op(pass, *f, site, xs, run, 2, Some(e)));
            assert(are_gated_ops(pass, *f, site, xs, run, 2));
            return Err(e);
        },
    };
    proof {
        run.value = value;
    }
    let hidden = match pass.times(&gate, &value) {
        Ok(v) => v,
        Err(e) => {
            assert(is_gated_op(pass, *f, site, xs, run, 3, Some(e)));
            assert(are_gated_ops(pass, *f, site, xs, run, 3));
            return Err(e);
        },
    };
    proof {
        run.hidden = hidden;
    }
    let out = match linear(pass, &f.down, site, Part::Down, &hidden) {
        Ok(v) => v,
        Err(e) => {
            assert(is_gated_op(pass, *f, site, xs, run, 4, Some(e)));
            assert(are_gated_ops(pass, *f, site, xs, run, 4));
            return Err(e);
        },
    };
    proof {
        run.out = out;
    }
    assert(are_gated_ops(pass, *f, site, xs, run, 5));
    Ok(out)
}

/// `r` is what the packed kernels make of a plain tensor with the layer's own projections.
pub open spec fn is_packed_ffn_on<P: Pass>(
    p: &P,
    f: SwiGluFfn<P::N>,
    x: DenseTensor<P::N>,
    r: Result<P::T, P::E>,
) -> bool {
    exists|ar: &P::A, bank: &P::B, q: Result<DenseTensor<P::N>, DispatchError>|
        {
            &&& names_kernels(p, ar, bank)
            &&& #[trigger] kernel_dispatch::is_ffn_answer(
                ar,
                bank,
                x,
                f.gate,
                f.value,
                f.down,
                kernel_dispatch::result_model(q),
            )
            &&& is_carried(p, q, r)
        }
}

/// `r` is what the packed kernels make of a tensor with the layer's own projections.
pub open spec fn is_packed_ffn_out<P: Pass>(
    p: &P,
    f: SwiGluFfn<P::N>,
    xs: &P::T,
    r: Result<P::T, P::E>,
) -> bool {
    exists|x: Result<DenseTensor<P::N>, P::E>| #[trigger]
        call_ensures(P::plain, (p, xs), x) && match x {
            Ok(x) => is_packed_ffn_on(p, f, x, r),
            Err(e) => r == Err::<P::T, P::E>(e),
        }
}

/// `r` comes out of a feed-forward layer: of the packed kernels where it is packed, else
/// `down(silu(gate(x)) * value(x))`.
pub open spec fn is_ffn_out<P: Pass>(
    p: &P,
    f: SwiGluFfn<P::N>,
    site: Site,
    xs: &P::T,
    r: Result<P::T, P::E>,
) -> bool {
    if f.all_packed() {
        is_packed_ffn_out(p, f, xs, r)
    } else {
        is_gated_run(p, f, site, xs, r)
    }
}

impl<N: Copy> SwiGluFfn<N> {
    /// Runs the layer.
    pub fn forward<P: Pass<N = N>>(&self, pass: &P, site: Site, xs: &P::T) -> (r: Result<
        P::T,
        P::E,
    >)
        ensures
            is_ffn_out(pass, *self, site, xs, r),
    {
        if !self.is_packed() {
            return run_gated(pass, self, site, xs);
        }
        let x = pass.plain(xs);
        assert(call_ensures(P::plain, (pass, xs), x));
        match x {
            Ok(x) => {
                let ar = pass.arith();
                let bank = pass.bank();
                assert(names_kernels(pass, ar, bank));
                let q = answer_ffn(ar, bank, &x, &self.gate, &self.value, &self.down);
                let ghost held = q;
                let r = carry(pass, q);
                assert(kernel_dispatch::is_ffn_answer(
                    ar,
                    bank,
                    x,
                    self.gate,
                    self.value,
                    self.down,
                    kernel_dispatch::result_model(held),
                ));
                assert(is_packed_ffn_on(pass, *self, x, r));
                r
            },
            Err(e) => Err(e),
        }
    }
}

/// The key-value head that every query head reads, where `kv` of them serve `h`: runs of query
/// heads share one.
pub open spec fn shared_places(h: int, kv: int) -> Seq<usize> {
    Seq::new((kv * (h / kv)) as nat, |i: int| (i / (h / kv)) as usize)
}

/// `r` are the key-value heads as the query heads read them.
pub open spec fn is_shared<P: Pass>(
    p: &P,
    h: usize,
    kv: usize,
    xs: P::T,
    r: Result<P::T, P::E>,
) -> bool {
    if kv < h {
        exists|places: Vec<usize>| #[trigger]
            call_ensures(P::pick_heads, (p, &xs, &places), r) && places@ == shared_places(
                h as int,
                kv as int,
            )
    } else {
        r == Ok::<P::T, P::E>(xs)
    }
}

/// Packed and unpacked attention agree on which key-value head a query head reads.
pub proof fn heads_agree(h: int, kv: int, i: int)
    requires
        0 < kv < h,
        h % kv == 0,
        h <= usize::MAX,
        0 <= i < h,
    ensures
        shared_places(h, kv).len() == h,
        shared_places(h, kv)[i] == kernel_ref::kv_head(h, kv, i),
        kernel_ref::kv_head(h, kv, i) == i / (h / kv),
        0 <= kernel_ref::kv_head(h, kv, i) < kv,
{
    let times = h / kv;
    assert(kv * times == h && times >= 1) by (nonlinear_arith)
        requires
            times == h / kv,
            h % kv == 0,
            0 < kv < h,
    ;
    assert(0 <= i / times < kv) by (nonlinear_arith)
        requires
            0 <= i < kv * times,
            times >= 1,
            0 < kv,
    ;
}

/// Unpacked attention hands every query head the key-value head that packed attention reads.
pub proof fn shared_heads_agree<P: Pass>(
    p: &P,
    h: usize,
    kv: usize,
    xs: P::T,
    r: Result<P::T, P::E>,
)
    requires
        0 < kv < h,
        h % kv == 0,
        is_shared(p, h, kv, xs, r),
    ensures
        exists|places: Vec<usize>|
            {
                &&& #[trigger] call_ensures(P::pick_heads, (p, &xs, &places), r)
                &&& places@.len() == h
                &&& forall|i: int|
                    0 <= i < h ==> #[trigger] places@[i] == kernel_ref::kv_head(
                        h as int,
                        kv as int,
                        i,
                    )
            },
{
    let places = choose|places: Vec<usize>| #[trigger]
        call_ensures(P::pick_heads, (p, &xs, &places), r) && places@ == shared_places(
            h as int,
            kv as int,
        );
    heads_agree(h as int, kv as int, 0);
    assert forall|i: int| 0 <= i < h implies #[trigger] places@[i] == kernel_ref::kv_head(
        h as int,
        kv as int,
        i,
    ) by {
        heads_agree(h as int, kv as int, i);
    }
}

fn places_of(h: usize, kv: usize) -> (r: Vec<usize>)
    requires
        0 < kv < h,
    ensures
        r@ == shared_places(h as int, kv as int),
{
    let times: usize = h / kv;
    assert(kv * times <= h && times >= 1) by (nonlinear_arith)
        requires
            times == h / kv,
            0 < kv < h,
    ;
    let n: usize = kv * times;
    let mut places: Vec<usize> = Vec::new();
    let mut i: usize = 0;
    while i < n
        invariant
            i <= n,
            times >= 1,
            times == h / kv,
            0 < kv,
            n == kv * times,
            places@.len() == i,
            forall|k: int| 0 <= k < i ==> #[trigger] places@[k] == k / times as int,
        decreases n - i,
    {
        places.push(i / times);
        i = i + 1;
    }
    assert(places@ =~= shared_places(h as int, kv as int));
    places
}

fn shared<P: Pass>(pass: &P, h: usize, kv: usize, xs: P::T) -> (r: Result<P::T, P::E>)
    requires
        kv < h ==> kv > 0,
    ensures
        is_shared(pass, h, kv, xs, r),
{
    if kv < h {
        let places = places_of(h, kv);
        let r = pass.pick_heads(&xs, &places);
        assert(call_ensures(P::pick_heads, (pass, &xs, &places), r));
        r
    } else {
        Ok(xs)
    }
}

/// `r` are the values as the query heads read them, laid out in order.
pub open spec fn are_shared_values<P: Pass>(
    p: &P,
    h: usize,
    kv: usize,
    xs: P::T,
    r: Result<P::T, P::E>,
) -> bool {
    if kv < h {
        is_shared(p, h, kv, xs, r)
    } else {
        call_ensures(P::contiguous, (p, &xs), r)
    }
}

fn shared_values<P: Pass>(pass: &P, h: usize, kv: usize, xs: P::T) -> (r: Result<P::T, P::E>)
    requires
        kv < h ==> kv > 0,
    ensures
        are_shared_values(pass, h, kv, xs, r),
{
    if kv < h {
        shared(pass, h, kv, xs)
    } else {
        pass.contiguous(&xs)
    }
}

/// Scores take a mask where there is one.
pub open spec fn is_masked<P: Pass>(
    p: &P,
    scores: P::T,
    mask: Option<&P::T>,
    r: Result<P::T, P::E>,
) -> bool {
    match mask {
        Some(m) => call_ensures(P::masked, (p, &scores, m), r),
        None => r == Ok::<P::T, P::E>(scores),
    }
}

fn with_mask<P: Pass>(pass: &P, scores: P::T, mask: Option<&P::T>) -> (r: Result<P::T, P::E>)
    ensures
        is_masked(pass, scores, mask, r),
{
    match mask {
        Some(m) => pass.masked(&scores, m),
        None => Ok(scores),
    }
}

/// The values on the way through a projection into heads.
pub struct HeadsRun<T> {
    pub flat: T,
    pub split: T,
    pub heads: T,
}

/// Operation `i` of a projection into heads gave the value that `run` lists, or failed.
pub open spec fn is_heads_op<P: Pass>(
    p: &P,
    lin: MaybeTernaryLinear<P::N>,
    part: Part,
    xs: &P::T,
    dims: (usize, usize, usize),
    count: usize,
    head_dim: usize,
    run: HeadsRun<P::T>,
    i: int,
    failure: Option<P::E>,
) -> bool {
    if i == 0 {
        is_linear_out(p, lin, Site::Attention, part, xs, outcome::returned(run.flat, failure))
    } else if i == 1 {
        call_ensures(
            P::reshape4,
            (p, &run.flat, (dims.0, dims.1, count, head_dim)),
            outcome::returned(run.split, failure),
        )
    } else {
        call_ensures(
            P::transpose,
            (p, &run.split, 1usize, 2usize),
            outcome::returned(run.heads, failure),
        )
    }
}

/// The first `k` operations of a projection into heads gave the values that `run` lists.
pub open spec fn are_heads_ops<P: Pass>(
    p: &P,
    lin: MaybeTernaryLinear<P::N>,
    part: Part,
    xs: &P::T,
    dims: (usize, usize, usize),
    count: usize,
    head_dim: usize,
    run: HeadsRun<P::T>,
    k: int,
) -> bool {
    forall|i: int|
        0 <= i < k ==> #[trigger] is_heads_op(
            p,
            lin,
            part,
            xs,
            dims,
            count,
            head_dim,
            run,
            i,
            None::<P::E>,
        )
}

/// `r` is a projection split into heads, of batch, head, position and entry, or the first failure
/// on the way.
pub open spec fn is_heads_run<P: Pass>(
    p: &P,
    lin: MaybeTernaryLinear<P::N>,
    part: Part,
    xs: &P::T,
    dims: (usize, usize, usize),
    count: usize,
    head_dim: usize,
    r: Result<P::T, P::E>,
) -> bool {
    exists|run: HeadsRun<P::T>, k: int|
        {
            &&& #[trigger] are_heads_ops(p, lin, part, xs, dims, count, head_dim, run, k)
            &&& match r {
                Ok(t) => k == 3 && t == run.heads,
                Err(e) => 0 <= k < 3 && is_heads_op(
                    p,
                    lin,
                    part,
                    xs,
                    dims,
                    count,
                    head_dim,
                    run,
                    k,
                    Some(e),
                ),
            }
        }
}

fn run_heads<P: Pass>(
    pass: &P,
    lin: &MaybeTernaryLinear<P::N>,
    part: Part,
    xs: &P::T,
    dims: (usize, usize, usize),
    count: usize,
    head_dim: usize,
) -> (r: Result<P::T, P::E>)
    ensures
        is_heads_run(pass, *lin, part, xs, dims, count, head_dim, r),
{
    let ghost mut run: HeadsRun<P::T> = arbitrary();
    let flat = match linear(pass, lin, Site::Attention, part, xs) {
        Ok(v) => v,
        Err(e) => {
            assert(is_heads_op(pass, *lin, part, xs, dims, count, head_dim, run, 0, Some(e)));
            assert(are_heads_ops(pass, *lin, part, xs, dims, count, head_dim, run, 0));
            return Err(e);
        },
    };
    proof {
        run.flat = flat;
    }
    let split = match pass.reshape4(&flat, (dims.0, dims.1, count, head_dim)) {
        Ok(v) => v,
        Err(e) => {
            assert(is_heads_op(pass, *lin, part, xs, dims, count, head_dim, run, 1, Some(e)));
            assert(are_heads_ops(pass, *lin, part, xs, dims, count, head_dim, run, 1));
            return Err(e);
        },
    };
    proof {
        run.split = split;
    }
    let heads = match pass.transpose(&split, 1, 2) {
        Ok(v) => v,
        Err(e) => {
            assert(is_heads_op(pass, *lin, part, xs, dims, count, head_dim, run, 2, Some(e)));
            assert(are_heads_ops(pass, *lin, part, xs, dims, count, head_dim, run, 2));
            return Err(e);
        },
    };
    proof {
        run.heads = heads;
    }
    assert(are_heads_ops(pass, *lin, part, xs, dims, count, head_dim, run, 3));
    Ok(heads)
}

/// The values on the way through a rotation.
pub struct TurnRun<T> {
    pub dims: (usize, usize, usize, usize),
    pub x1: T,
    pub x2: T,
    pub cos_table: T,
    pub cos_rows: T,
    pub cos: T,
    pub sin_table: T,
    pub sin_rows: T,
    pub sin: T,
    pub x1c: T,
    pub x2s: T,
    pub x1s: T,
    pub x2c: T,
    pub first: T,
    pub second: T,
    pub out: T,
}

/// Operation `i` of a rotation gave the value that `run` lists, or failed.
pub open spec fn is_turn_op<P: Pass>(
    p: &P,
    xs: &P::T,
    rope: RopeCache<P::N>,
    run: TurnRun<P::T>,
    i: int,
    failure: Option<P::E>,
) -> bool {
    if i == 0 {
        call_ensures(P::dims4, (p, xs), outcome::returned(run.dims, failure))
    } else if i == 1 {
        call_ensures(
            P::narrow,
            (p, xs, 3usize, 0usize, run.dims.3 / 2),
            outcome::returned(run.x1, failure),
        )
    } else if i == 2 {
        call_ensures(
            P::narrow,
            (p, xs, 3usize, run.dims.3 / 2, run.dims.3 / 2),
            outcome::returned(run.x2, failure),
        )
    } else if i == 3 {
        call_ensures(
            P::table,
            (p, &rope.cos, rope.max_seq, rope.half),
            outcome::returned(run.cos_table, failure),
        )
    } else if i == 4 {
        call_ensures(
            P::narrow,
            (p, &run.cos_table, 0usize, 0usize, run.dims.2),
            outcome::returned(run.cos_rows, failure),
        )
    } else if i == 5 {
        call_ensures(
            P::reshape4,
            (p, &run.cos_rows, (1usize, 1usize, run.dims.2, run.dims.3 / 2)),
            outcome::returned(run.cos, failure),
        )
    } else if i == 6 {
        call_ensures(
            P::table,
            (p, &rope.sin, rope.max_seq, rope.half),
            outcome::returned(run.sin_table, failure),
        )
    } else if i == 7 {
        call_ensures(
            P::narrow,
            (p, &run.sin_table, 0usize, 0usize, run.dims.2),
            outcome::returned(run.sin_rows, failure),
        )
    } else if i == 8 {
        call_ensures(
            P::reshape4,
            (p, &run.sin_rows, (1usize, 1usize, run.dims.2, run.dims.3 / 2)),
            outcome::returned(run.sin, failure),
        )
    } else if i == 9 {
        call_ensures(P::times, (p, &run.x1, &run.cos), outcome::returned(run.x1c, failure))
    } else if i == 10 {
        call_ensures(P::times, (p, &run.x2, &run.sin), outcome::returned(run.x2s, failure))
    } else if i == 11 {
        call_ensures(P::times, (p, &run.x1, &run.sin), outcome::returned(run.x1s, failure))
    } else if i == 12 {
        call_ensures(P::times, (p, &run.x2, &run.cos), outcome::returned(run.x2c, failure))
    } else if i == 13 {
        call_ensures(P::minus, (p, &run.x1c, &run.x2s), outcome::returned(run.first, failure))
    } else if i == 14 {
        call_ensures(P::plus, (p, &run.x1s, &run.x2c), outcome::returned(run.second, failure))
    } else {
        call_ensures(P::joined, (p, &run.first, &run.second), outcome::returned(run.out, failure))
    }
}

/// The first `k` operations of a rotation gave the values that `run` lists.
pub open spec fn are_turn_ops<P: Pass>(
    p: &P,
    xs: &P::T,
    rope: RopeCache<P::N>,
    run: TurnRun<P::T>,
    k: int,
) -> bool {
    forall|i: int|
        0 <= i < k ==> #[trigger] is_turn_op(p, xs, rope, run, i, None::<P::E>)
}

/// `r` are queries or keys turned by the angles of their positions, or the first failure on the
/// way: the halves `x1` and `x2` of an entry become `x1 * cos - x2 * sin` and
/// `x1 * sin + x2 * cos`.
pub open spec fn is_turn_run<P: Pass>(
    p: &P,
    xs: &P::T,
    rope: RopeCache<P::N>,
    r: Result<P::T, P::E>,
) -> bool {
    exists|run: TurnRun<P::T>, k: int|
        {
            &&& #[trigger] are_turn_ops(p, xs, rope, run, k)
            &&& match r {
                Ok(t) => k == 16 && t == run.out,
                Err(e) => 0 <= k < 16 && is_turn_op(p, xs, rope, run, k, Some(e)),
            }
        }
}

#[verifier::rlimit(60)]
fn run_turn<P: Pass>(
    pass: &P,
    xs: &P::T,
    rope: &RopeCache<P::N>,
) -> (r: Result<P::T, P::E>)
    ensures
        is_turn_run(pass, xs, *rope, r),
{
    let ghost mut run: TurnRun<P::T> = arbitrary();
    let dims = match pass.dims4(xs) {
        Ok(v) => v,
        Err(e) => {
            assert(is_turn_op(pass, xs, *rope, run, 0, Some(e)));
            assert(are_turn_ops(pass, xs, *rope, run, 0));
            return Err(e);
        },
    };
    proof {
        run.dims = dims;
    }
    let x1 = match pass.narrow(xs, 3, 0, dims.3 / 2) {
        Ok(v) => v,
        Err(e) => {
            assert(is_turn_op(pass, xs, *rope, run, 1, Some(e)));
            assert(are_turn_ops(pass, xs, *rope, run, 1));
            return Err(e);
        },
    };
    proof {
        run.x1 = x1;
    }
    let x2 = match pass.narrow(xs, 3, dims.3 / 2, dims.3 / 2) {
        Ok(v) => v,
        Err(e) => {
            assert(is_turn_op(pass, xs, *rope, run, 2, Some(e)));
            assert(are_turn_ops(pass, xs, *rope, run, 2));
            return Err(e);
        },
    };
    proof {
        run.x2 = x2;
    }
    let cos_table = match pass.table(&rope.cos, rope.max_seq, rope.half) {
        Ok(v) => v,
        Err(e) => {
            assert(is_turn_op(pass, xs, *rope, run, 3, Some(e)));
            assert(are_turn_ops(pass, xs, *rope, run, 3));
            return Err(e);
        },
    };
    proof {
        run.cos_table = cos_table;
    }
    let cos_rows = match pass.narrow(&cos_table, 0, 0, dims.2) {
        Ok(v) => v,
        Err(e) => {
            assert(is_turn_op(pass, xs, *rope, run, 4, Some(e)));
            assert(are_turn_ops(pass, xs, *rope, run, 4));
            return Err(e);
        },
    };
    proof {
        run.cos_rows = cos_rows;
    }
    let cos = match pass.reshape4(&cos_rows, (1, 1, dims.2, dims.3 / 2)) {
        Ok(v) => v,
        Err(e) => {
            assert(is_turn_op(pass, xs, *rope, run, 5, Some(e)));
            assert(are_turn_ops(pass, xs, *rope, run, 5));
            return Err(e);
        },
    };
    proof {
        run.cos = cos;
    }
    let sin_table = match pass.table(&rope.sin, rope.max_seq, rope.half) {
        Ok(v) => v,
        Err(e) => {
            assert(is_turn_op(pass, xs, *rope, run, 6, Some(e)));
            assert(are_turn_ops(pass, xs, *rope, run, 6));
            return Err(e);
        },
    };
    proof {
        run.sin_table = sin_table;
    }
    let sin_rows = match pass.narrow(&sin_table, 0, 0, dims.2) {
        Ok(v) => v,
        Err(e) => {
            assert(is_turn_op(pass, xs, *rope, run, 7, Some(e)));
            assert(are_turn_ops(pass, xs, *rope, run, 7));
            return Err(e);
        },
    };
    proof {
        run.sin_rows = sin_rows;
    }
    let sin = match pass.reshape4(&sin_rows, (1, 1, dims.2, dims.3 / 2)) {
        Ok(v) => v,
        Err(e) => {
            assert(is_turn_op(pass, xs, *rope, run, 8, Some(e)));
            assert(are_turn_ops(pass, xs, *rope, run, 8));
            return Err(e);
        },
    };
    proof {
        run.sin = sin;
    }
    let x1c = match pass.times(&x1, &cos) {
        Ok(v) => v,
        Err(e) => {
            assert(is_turn_op(pass, xs, *rope, run, 9, Some(e)));
            assert(are_turn_ops(pass, xs, *rope, run, 9));
            return Err(e);
        },
    };
    proof {
        run.x1c = x1c;
    }
    let x2s = match pass.times(&x2, &sin) {
        Ok(v) => v,
        Err(e) => {
            assert(is_turn_op(pass, xs, *rope, run, 10, Some(e)));
            assert(are_turn_ops(pass, xs, *rope, run, 10));
            return Err(e);
        },
    };
    proof {
        run.x2s = x2s;
    }
    let x1s = match pass.times(&x1, &sin) {
        Ok(v) => v,
        Err(e) => {
            assert(is_turn_op(pass, xs, *rope, run, 11, Some(e)));
            assert(are_turn_ops(pass, xs, *rope, run, 11));
            return Err(e);
        },
    };
    proof {
        run.x1s = x1s;
    }
    let x2c = match pass.times(&x2, &cos) {
        Ok(v) => v,
        Err(e) => {
            assert(is_turn_op(pass, xs, *rope, run, 12, Some(e)));
            assert(are_turn_ops(pass, xs, *rope, run, 12));
            return Err(e);
        },
    };
    proof {
        run.x2c = x2c;
    }
    let first = match pass.minus(&x1c, &x2s) {
        Ok(v) => v,
        Err(e) => {
            assert(is_turn_op(pass, xs, *rope, run, 13, Some(e)));
            assert(are_turn_ops(pass, xs, *rope, run, 13));
            return Err(e);
        },
    };
    proof {
        run.first = first;
    }
    let second = match pass.plus(&x1s, &x2c) {
        Ok(v) => v,
        Err(e) => {
            assert(is_turn_op(pass, xs, *rope, run, 14, Some(e)));
            assert(are_turn_ops(pass, xs, *rope, run, 14));
            return Err(e);
        },
    };
    proof {
        run.second = second;
    }
    let out = match pass.joined(&first, &second) {
        Ok(v) => v,
        Err(e) => {
            assert(is_turn_op(pass, xs, *rope, run, 15, Some(e)));
            assert(are_turn_ops(pass, xs, *rope, run, 15));
            return Err(e);
        },
    };
    proof {
        run.out = out;
    }
    assert(are_turn_ops(pass, xs, *rope, run, 16));
    Ok(out)
}

/// The values on the way through the scores.
pub struct ScoreRun<T> {
    pub turned: T,
    pub keys: T,
    pub products: T,
    pub out: T,
}

/// Operation `i` of the scores gave the value that `run` lists, or failed.
pub open spec fn is_score_op<P: Pass>(
    p: &P,
    queries: &P::T,
    by_head: &P::T,
    head_dim: usize,
    run: ScoreRun<P::T>,
    i: int,
    failure: Option<P::E>,
) -> bool {
    if i == 0 {
        call_ensures(
            P::transpose,
            (p, by_head, 2usize, 3usize),
            outcome::returned(run.turned, failure),
        )
    } else if i == 1 {
        call_ensures(P::contiguous, (p, &run.turned), outcome::returned(run.keys, failure))
    } else if i == 2 {
        call_ensures(P::matmul, (p, queries, &run.keys), outcome::returned(run.products, failure))
    } else {
        call_ensures(P::scaled, (p, &run.products, head_dim), outcome::returned(run.out, failure))
    }
}

/// The first `k` operations of the scores gave the values that `run` lists.
pub open spec fn are_score_ops<P: Pass>(
    p: &P,
    queries: &P::T,
    by_head: &P::T,
    head_dim: usize,
    run: ScoreRun<P::T>,
    k: int,
) -> bool {
    forall|i: int|
        0 <= i < k ==> #[trigger] is_score_op(p, queries, by_head, head_dim, run, i, None::<P::E>)
}

/// `r` are the products of queries and keys over the root of the head width, or the first failure
/// on the way.
pub open spec fn is_score_run<P: Pass>(
    p: &P,
    queries: &P::T,
    by_head: &P::T,
    head_dim: usize,
    r: Result<P::T, P::E>,
) -> bool {
    exists|run: ScoreRun<P::T>, k: int|
        {
            &&& #[trigger] are_score_ops(p, queries, by_head, head_dim, run, k)
            &&& match r {
                Ok(t) => k == 4 && t == run.out,
                Err(e) => 0 <= k < 4 && is_score_op(p, queries, by_head, head_dim, run, k, Some(e)),
            }
        }
}

fn run_score<P: Pass>(
    pass: &P,
    queries: &P::T,
    by_head: &P::T,
    head_dim: usize,
) -> (r: Result<P::T, P::E>)
    ensures
        is_score_run(pass, queries, by_head, head_dim, r),
{
    let ghost mut run: ScoreRun<P::T> = arbitrary();
    let turned = match pass.transpose(by_head, 2, 3) {
        Ok(v) => v,
        Err(e) => {
            assert(is_score_op(pass, queries, by_head, head_dim, run, 0, Some(e)));
            assert(are_score_ops(pass, queries, by_head, head_dim, run, 0));
            return Err(e);
        },
    };
    proof {
        run.turned = turned;
    }
    let keys = match pass.contiguous(&turned) {
        Ok(v) => v,
        Err(e) => {
            assert(is_score_op(pass, queries, by_head, head_dim, run, 1, Some(e)));
            assert(are_score_ops(pass, queries, by_head, head_dim, run, 1));
            return Err(e);
        },
    };
    proof {
        run.keys = keys;
    }
    let products = match pass.matmul(queries, &keys) {
        Ok(v) => v,
        Err(e) => {
            assert(is_score_op(pass, queries, by_head, head_dim, run, 2, Some(e)));
            assert(are_score_ops(pass, queries, by_head, head_dim, run, 2));
            return Err(e);
        },
    };
    proof {
        run.products = products;
    }
    let out = match pass.scaled(&products, head_dim) {
        Ok(v) => v,
        Err(e) => {
            assert(is_score_op(pass, queries, by_head, head_dim, run, 3, Some(e)));
            assert(are_score_ops(pass, queries, by_head, head_dim, run, 3));
            return Err(e);
        },
    };
    proof {
        run.out = out;
    }
    assert(are_score_ops(pass, queries, by_head, head_dim, run, 4));
    Ok(out)
}

/// The values on the way through the context.
pub struct ContextRun<T> {
    pub weights: T,
    pub mixed: T,
    pub rows: T,
    pub out: T,
}

/// Operation `i` of the context gave the value that `run` lists, or failed.
pub open spec fn is_context_op<P: Pass>(
    p: &P,
    scores: &P::T,
    v: &P::T,
    dims: (usize, usize, usize),
    run: ContextRun<P::T>,
    i: int,
    failure: Option<P::E>,
) -> bool {
    if i == 0 {
        call_ensures(P::softmax, (p, scores), outcome::returned(run.weights, failure))
    } else if i == 1 {
        call_ensures(P::matmul, (p, &run.weights, v), outcome::returned(run.mixed, failure))
    } else if i == 2 {
        call_ensures(
            P::transpose,
            (p, &run.mixed, 1usize, 2usize),
            outcome::returned(run.rows, failure),
        )
    } else {
        call_ensures(P::reshape3, (p, &run.rows, dims), outcome::returned(run.out, failure))
    }
}

/// The first `k` operations of the context gave the values that `run` lists.
pub open spec fn are_context_ops<P: Pass>(
    p: &P,
    scores: &P::T,
    v: &P::T,
    dims: (usize, usize, usize),
    run: ContextRun<P::T>,
    k: int,
) -> bool {
    forall|i: int|
        0 <= i < k ==> #[trigger] is_context_op(p, scores, v, dims, run, i, None::<P::E>)
}

/// `r` are the values weighed by the softmax of the scores, with the heads joined again, or the
/// first failure on the way.
pub open spec fn is_context_run<P: Pass>(
    p: &P,
    scores: &P::T,
    v: &P::T,
    dims: (usize, usize, usize),
    r: Result<P::T, P::E>,
) -> bool {
    exists|run: ContextRun<P::T>, k: int|
        {
            &&& #[trigger] are_context_ops(p, scores, v, dims, run, k)
            &&& match r {
                Ok(t) => k == 4 && t == run.out,
                Err(e) => 0 <= k < 4 && is_context_op(p, scores, v, dims, run, k, Some(e)),
            }
        }
}

fn run_context<P: Pass>(
    pass: &P,
    scores: &P::T,
    v: &P::T,
    dims: (usize, usize, usize),
) -> (r: Result<P::T, P::E>)
    ensures
        is_context_run(pass, scores, v, dims, r),
{
    let ghost mut run: ContextRun<P::T> = arbitrary();
    let weights = match pass.softmax(scores) {
        Ok(v) => v,
        Err(e) => {
            assert(is_context_op(pass, scores, v, dims, run, 0, Some(e)));
            assert(are_context_ops(pass, scores, v, dims, run, 0));
            return Err(e);
        },
    };
    proof {
        run.weights = weights;
    }
    let mixed = match pass.matmul(&weights, v) {
        Ok(v) => v,
        Err(e) => {
            assert(is_context_op(pass, scores, v, dims, run, 1, Some(e)));
            assert(are_context_ops(pass, scores, v, dims, run, 1));
            return Err(e);
        },
    };
    proof {
        run.mixed = mixed;
    }
    let rows = match pass.transpose(&mixed, 1, 2) {
        Ok(v) => v,
        Err(e) => {
            assert(is_context_op(pass, scores, v, dims, run, 2, Some(e)));
            assert(are_context_ops(pass, scores, v, dims, run, 2));
            return Err(e);
        },
    };
    proof {
        run.rows = rows;
    }
    let out = match pass.reshape3(&rows, dims) {
        Ok(v) => v,
        Err(e) => {
            assert(is_context_op(pass, scores, v, dims, run, 3, Some(e)));
            assert(are_context_ops(pass, scores, v, dims, run, 3));
            return Err(e);
        },
    };
    proof {
        run.out = out;
    }
    assert(are_context_ops(pass, scores, v, dims, run, 4));
    Ok(out)
}

/// The values on the way through attention.
pub struct AttnRun<T> {
    pub dims: (usize, usize, usize),
    pub q_heads: T,
    pub k_heads: T,
    pub v_heads: T,
    pub q_turned: T,
    pub q: T,
    pub k_turned: T,
    pub k_own: T,
    pub k: T,
    pub v: T,
    pub scores: T,
    pub masked: T,
    pub context: T,
    pub out: T,
}

/// Operation `i` of attention gave the value that `run` lists, or failed.
pub open spec fn is_attn_op<P: Pass>(
    p: &P,
    a: MultiHeadSelfAttention<P::N>,
    rope: RopeCache<P::N>,
    xs: &P::T,
    mask: Option<&P::T>,
    run: AttnRun<P::T>,
    i: int,
    failure: Option<P::E>,
) -> bool {
    if i == 0 {
        call_ensures(P::dims3, (p, xs), outcome::returned(run.dims, failure))
    } else if i == 1 {
        is_heads_run(
            p,
            a.q_proj,
            Part::Query,
            xs,
            run.dims,
            a.n_heads,
            a.head_dim,
            outcome::returned(run.q_heads, failure),
        )
    } else if i == 2 {
        is_heads_run(
            p,
            a.k_proj,
            Part::Key,
            xs,
            run.dims,
            a.n_kv_heads,
            a.head_dim,
            outcome::returned(run.k_heads, failure),
        )
    } else if i == 3 {
        is_heads_run(
            p,
            a.v_proj,
            Part::Value,
            xs,
            run.dims,
            a.n_kv_heads,
            a.head_dim,
            outcome::returned(run.v_heads, failure),
        )
    } else if i == 4 {
        is_turn_run(p, &run.q_heads, rope, outcome::returned(run.q_turned, failure))
    } else if i == 5 {
        call_ensures(P::contiguous, (p, &run.q_turned), outcome::returned(run.q, failure))
    } else if i == 6 {
        is_turn_run(p, &run.k_heads, rope, outcome::returned(run.k_turned, failure))
    } else if i == 7 {
        call_ensures(P::contiguous, (p, &run.k_turned), outcome::returned(run.k_own, failure))
    } else if i == 8 {
        is_shared(p, a.n_heads, a.n_kv_heads, run.k_own, outcome::returned(run.k, failure))
    } else if i == 9 {
        are_shared_values(
            p,
            a.n_heads,
            a.n_kv_heads,
            run.v_heads,
            outcome::returned(run.v, failure),
        )
    } else if i == 10 {
        is_score_run(p, &run.q, &run.k, a.head_dim, outcome::returned(run.scores, failure))
    } else if i == 11 {
        is_masked(p, run.scores, mask, outcome::returned(run.masked, failure))
    } else if i == 12 {
        is_context_run(p, &run.masked, &run.v, run.dims, outcome::returned(run.context, failure))
    } else {
        is_linear_out(
            p,
            a.o_proj,
            Site::Attention,
            Part::Output,
            &run.context,
            outcome::returned(run.out, failure),
        )
    }
}

/// The first `k` operations of attention gave the values that `run` lists.
pub open spec fn are_attn_ops<P: Pass>(
    p: &P,
    a: MultiHeadSelfAttention<P::N>,
    rope: RopeCache<P::N>,
    xs: &P::T,
    mask: Option<&P::T>,
    run: AttnRun<P::T>,
    k: int,
) -> bool {
    forall|i: int|
        0 <= i < k ==> #[trigger] is_attn_op(p, a, rope, xs, mask, run, i, None::<P::E>)
}

/// `r` comes out of attention by the tensor operations, or is the first failure on the way.
pub open spec fn is_attn_run<P: Pass>(
    p: &P,
    a: MultiHeadSelfAttention<P::N>,
    rope: RopeCache<P::N>,
    xs: &P::T,
    mask: Option<&P::T>,
    r: Result<P::T, P::E>,
) -> bool {
    exists|run: AttnRun<P::T>, k: int|
        {
            &&& #[trigger] are_attn_ops(p, a, rope, xs, mask, run, k)
            &&& match r {
                Ok(t) => k == 14 && t == run.out,
                Err(e) => 0 <= k < 14 && is_attn_op(p, a, rope, xs, mask, run, k, Some(e)),
            }
        }
}

#[verifier::rlimit(60)]
fn run_attn<P: Pass>(
    pass: &P,
    a: &MultiHeadSelfAttention<P::N>,
    rope: &RopeCache<P::N>,
    xs: &P::T,
    mask: Option<&P::T>,
) -> (r: Result<P::T, P::E>)
    requires
        a.n_kv_heads < a.n_heads ==> a.n_kv_heads > 0,
    ensures
        is_attn_run(pass, *a, *rope, xs, mask, r),
{
    let ghost mut run: AttnRun<P::T> = arbitrary();
    let dims = match pass.dims3(xs) {
        Ok(v) => v,
        Err(e) => {
            assert(is_attn_op(pass, *a, *rope, xs, mask, run, 0, Some(e)));
            assert(are_attn_ops(pass, *a, *rope, xs, mask, run, 0));
            return Err(e);
        },
    };
    proof {
        run.dims = dims;
    }
    let q_heads = match run_heads(pass, &a.q_proj, Part::Query, xs, dims, a.n_heads, a.head_dim) {
        Ok(v) => v,
        Err(e) => {
            assert(is_attn_op(pass, *a, *rope, xs, mask, run, 1, Some(e)));
            assert(are_attn_ops(pass, *a, *rope, xs, mask, run, 1));
            return Err(e);
        },
    };
    proof {
        run.q_heads = q_heads;
    }
    let k_heads = match run_heads(pass, &a.k_proj, Part::Key, xs, dims, a.n_kv_heads, a.head_dim) {
        Ok(v) => v,
        Err(e) => {
            assert(is_attn_op(pass, *a, *rope, xs, mask, run, 2, Some(e)));
            assert(are_attn_ops(pass, *a, *rope, xs, mask, run, 2));
            return Err(e);
        },
    };
    proof {
        run.k_heads = k_heads;
    }
    let v_heads = match run_heads(
        pass,
        &a.v_proj,
        Part::Value,
        xs,
        dims,
        a.n_kv_heads,
        a.head_dim,
    ) {
        Ok(v) => v,
        Err(e) => {
            assert(is_attn_op(pass, *a, *rope, xs, mask, run, 3, Some(e)));
            assert(are_attn_ops(pass, *a, *rope, xs, mask, run, 3));
            return Err(e);
        },
    };
    proof {
        run.v_heads = v_heads;
    }
    let q_turned = match run_turn(pass, &q_heads, rope) {
        Ok(v) => v,
        Err(e) => {
            assert(is_attn_op(pass, *a, *rope, xs, mask, run, 4, Some(e)));
            assert(are_attn_ops(pass, *a, *rope, xs, mask, run, 4));
            return Err(e);
        },
    };
    proof {
        run.q_turned = q_turned;
    }
    let q = match pass.contiguous(&q_turned) {
        Ok(v) => v,
        Err(e) => {
            assert(is_attn_op(pass, *a, *rope, xs, mask, run, 5, Some(e)));
            assert(are_attn_ops(pass, *a, *rope, xs, mask, run, 5));
            return Err(e);
        },
    };
    proof {
        run.q = q;
    }
    let k_turned = match run_turn(pass, &k_heads, rope) {
        Ok(v) => v,
        Err(e) => {
            assert(is_attn_op(pass, *a, *rope, xs, mask, run, 6, Some(e)));
            assert(are_attn_ops(pass, *a, *rope, xs, mask, run, 6));
            return Err(e);
        },
    };
    proof {
        run.k_turned = k_turned;
    }
    let k_own = match pass.contiguous(&k_turned) {
        Ok(v) => v,
        Err(e) => {
            assert(is_attn_op(pass, *a, *rope, xs, mask, run, 7, Some(e)));
            assert(are_attn_ops(pass, *a, *rope, xs, mask, run, 7));
            return Err(e);
        },
    };
    proof {
        run.k_own = k_own;
    }
    let k = match shared(pass, a.n_heads, a.n_kv_heads, k_own) {
        Ok(v) => v,
        Err(e) => {
            assert(is_attn_op(pass, *a, *rope, xs, mask, run, 8, Some(e)));
            assert(are_attn_ops(pass, *a, *rope, xs, mask, run, 8));
            return Err(e);
        },
    };
    proof {
        run.k = k;
    }
    let v = match shared_values(pass, a.n_heads, a.n_kv_heads, v_heads) {
        Ok(v) => v,
        Err(e) => {
            assert(is_attn_op(pass, *a, *rope, xs, mask, run, 9, Some(e)));
            assert(are_attn_ops(pass, *a, *rope, xs, mask, run, 9));
            return Err(e);
        },
    };
    proof {
        run.v = v;
    }
    let scores = match run_score(pass, &q, &k, a.head_dim) {
        Ok(v) => v,
        Err(e) => {
            assert(is_attn_op(pass, *a, *rope, xs, mask, run, 10, Some(e)));
            assert(are_attn_ops(pass, *a, *rope, xs, mask, run, 10));
            return Err(e);
        },
    };
    proof {
        run.scores = scores;
    }
    let masked = match with_mask(pass, scores, mask) {
        Ok(v) => v,
        Err(e) => {
            assert(is_attn_op(pass, *a, *rope, xs, mask, run, 11, Some(e)));
            assert(are_attn_ops(pass, *a, *rope, xs, mask, run, 11));
            return Err(e);
        },
    };
    proof {
        run.masked = masked;
    }
    let context = match run_context(pass, &masked, &v, dims) {
        Ok(v) => v,
        Err(e) => {
            assert(is_attn_op(pass, *a, *rope, xs, mask, run, 12, Some(e)));
            assert(are_attn_ops(pass, *a, *rope, xs, mask, run, 12));
            return Err(e);
        },
    };
    proof {
        run.context = context;
    }
    let out = match linear(pass, &a.o_proj, Site::Attention, Part::Output, &context) {
        Ok(v) => v,
        Err(e) => {
            assert(is_attn_op(pass, *a, *rope, xs, mask, run, 13, Some(e)));
            assert(are_attn_ops(pass, *a, *rope, xs, mask, run, 13));
            return Err(e);
        },
    };
    proof {
        run.out = out;
    }
    assert(are_attn_ops(pass, *a, *rope, xs, mask, run, 14));
    Ok(out)
}

/// The elements of an optional tensor.
pub open spec fn flat<N>(t: Option<DenseTensor<N>>) -> Option<Seq<N>> {
    match t {
        Some(t) => Some(t.data@),
        None => None,
    }
}

/// `r` is the plain value of a mask, where there is one.
pub open spec fn is_plain_mask<P: Pass>(
    p: &P,
    mask: Option<&P::T>,
    r: Result<Option<DenseTensor<P::N>>, P::E>,
) -> bool {
    match mask {
        None => r == Ok::<Option<DenseTensor<P::N>>, P::E>(None),
        Some(m) => exists|x: Result<DenseTensor<P::N>, P::E>| #[trigger]
            call_ensures(P::plain, (p, m), x) && r == match x {
                Ok(x) => Ok::<Option<DenseTensor<P::N>>, P::E>(Some(x)),
                Err(e) => Err(e),
            },
    }
}

fn plain_mask<P: Pass>(pass: &P, mask: Option<&P::T>) -> (r: Result<
    Option<DenseTensor<P::N>>,
    P::E,
>)
    ensures
        is_plain_mask(pass, mask, r),
{
    match mask {
        None => Ok(None),
        Some(m) => {
            let x = pass.plain(m);
            assert(call_ensures(P::plain, (pass, m), x));
            match x {
                Ok(x) => Ok(Some(x)),
                Err(e) => Err(e),
            }
        },
    }
}

/// `r` is what the packed kernels make of a plain tensor and mask with the layer's own
/// projections, head counts and angles.
pub open spec fn is_packed_attention_on<P: Pass>(
    p: &P,
    a: MultiHeadSelfAttention<P::N>,
    rope: RopeCache<P::N>,
    x: DenseTensor<P::N>,
    mask: Option<DenseTensor<P::N>>,
    r: Result<P::T, P::E>,
) -> bool {
    exists|ar: &P::A, bank: &P::B, q: Result<DenseTensor<P::N>, DispatchError>|
        {
            &&& names_kernels(p, ar, bank)
            &&& #[trigger] kernel_dispatch::is_mha_answer(
                ar,
                bank,
                x,
                a.q_proj,
                a.k_proj,
                a.v_proj,
                a.o_proj,
                a.n_heads,
                a.n_kv_heads,
                a.head_dim,
                rope,
                flat(mask),
                kernel_dispatch::result_model(q),
            )
            &&& is_carried(p, q, r)
        }
}

/// `r` is what the packed kernels make of a plain tensor and a mask.
pub open spec fn is_packed_attention_masked<P: Pass>(
    p: &P,
    a: MultiHeadSelfAttention<P::N>,
    rope: RopeCache<P::N>,
    x: DenseTensor<P::N>,
    mask: Option<&P::T>,
    r: Result<P::T, P::E>,
) -> bool {
    exists|m: Result<Option<DenseTensor<P::N>>, P::E>| #[trigger]
        is_plain_mask(p, mask, m) && match m {
            Ok(m) => is_packed_attention_on(p, a, rope, x, m, r),
            Err(e) => r == Err::<P::T, P::E>(e),
        }
}

/// `r` is what the packed kernels make of a tensor and a mask.
pub open spec fn is_packed_attention_out<P: Pass>(
    p: &P,
    a: MultiHeadSelfAttention<P::N>,
    rope: RopeCache<P::N>,
    xs: &P::T,
    mask: Option<&P::T>,
    r: Result<P::T, P::E>,
) -> bool {
    exists|x: Result<DenseTensor<P::N>, P::E>| #[trigger]
        call_ensures(P::plain, (p, xs), x) && match x {
            Ok(x) => is_packed_attention_masked(p, a, rope, x, mask, r),
            Err(e) => r == Err::<P::T, P::E>(e),
        }
}

/// `r` comes out of attention: of the packed kernels where it is packed, else of the tensor
/// operations.
pub open spec fn is_attention_out<P: Pass>(
    p: &P,
    a: MultiHeadSelfAttention<P::N>,
    rope: RopeCache<P::N>,
    xs: &P::T,
    mask: Option<&P::T>,
    r: Result<P::T, P::E>,
) -> bool {
    if a.all_packed() {
        is_packed_attention_out(p, a, rope, xs, mask, r)
    } else {
        is_attn_run(p, a, rope, xs, mask, r)
    }
}

impl<N: Copy> MultiHeadSelfAttention<N> {
    /// Runs the layer.
    pub fn forward<P: Pass<N = N>>(
        &self,
        pass: &P,
        rope: &RopeCache<N>,
        xs: &P::T,
        mask: Option<&P::T>,
    ) -> (r: Result<P::T, P::E>)
        requires
            self.n_kv_heads < self.n_heads ==> self.n_kv_heads > 0,
        ensures
            is_attention_out(pass, *self, *rope, xs, mask, r),
    {
        if !self.is_packed() {
            return run_attn(pass, self, rope, xs, mask);
        }
        let x = pass.plain(xs);
        assert(call_ensures(P::plain, (pass, xs), x));
        match x {
            Ok(x) => {
                let m = plain_mask(pass, mask);
                assert(is_plain_mask(pass, mask, m));
                let r = match m {
                    Ok(m) => {
                        let ar = pass.arith();
                        let bank = pass.bank();
                        assert(names_kernels(pass, ar, bank));
                        let flat_mask = match &m {
                            Some(t) => Some(t.data.as_slice()),
                            None => None,
                        };
                        let q = answer_mha(
                            ar,
                            bank,
                            &x,
                            &self.q_proj,
                            &self.k_proj,
                            &self.v_proj,
                            &self.o_proj,
                            self.n_heads,
                            self.n_kv_heads,
                            self.head_dim,
                            rope,
                            flat_mask,
                        );
                        let ghost held = q;
                        assert(kernel_ref::held(flat_mask) == flat(m));
                        let r = carry(pass, q);
                        assert(kernel_dispatch::is_mha_answer(
                            ar,
                            bank,
                            x,
                            self.q_proj,
                            self.k_proj,
                            self.v_proj,
                            self.o_proj,
                            self.n_heads,
                            self.n_kv_heads,
                            self.head_dim,
                            *rope,
                            flat(m),
                            kernel_dispatch::result_model(held),
                        ));
                        assert(is_packed_attention_on(pass, *self, *rope, x, m, r));
                        r
                    },
                    Err(e) => Err(e),
                };
                assert(is_packed_attention_masked(pass, *self, *rope, x, mask, r));
                r
            },
            Err(e) => Err(e),
        }
    }
}

/// The values on the way through a transformer block.
pub struct BlockRun<T> {
    pub attn_in: T,
    pub attn_out: T,
    pub x: T,
    pub ffn_in: T,
    pub ffn_out: T,
    pub out: T,
}

/// Operation `i` of a transformer block gave the value that `run` lists, or failed.
pub open spec fn is_block_op<P: Pass>(
    p: &P,
    b: TransformerBlock<P::N>,
    rope: RopeCache<P::N>,
    xs: &P::T,
    mask: Option<&P::T>,
    run: BlockRun<P::T>,
    i: int,
    failure: Option<P::E>,
) -> bool {
    if i == 0 {
        is_norm_out(
            p,
            b.ln_attn,
            b.attn.all_packed(),
            Site::Attention,
            xs,
            outcome::returned(run.attn_in, failure),
        )
    } else if i == 1 {
        is_attention_out(
            p,
            b.attn,
            rope,
            &run.attn_in,
            mask,
            outcome::returned(run.attn_out, failure),
        )
    } else if i == 2 {
        call_ensures(P::plus, (p, xs, &run.attn_out), outcome::returned(run.x, failure))
    } else if i == 3 {
        is_norm_out(
            p,
            b.ln_ffn,
            b.ffn.all_packed(),
            Site::FeedForward,
            &run.x,
            outcome::returned(run.ffn_in, failure),
        )
    } else if i == 4 {
        is_ffn_out(
            p,
            b.ffn,
            Site::FeedForward,
            &run.ffn_in,
            outcome::returned(run.ffn_out, failure),
        )
    } else {
        call_ensures(P::plus, (p, &run.x, &run.ffn_out), outcome::returned(run.out, failure))
    }
}

/// The first `k` operations of a transformer block gave the values that `run` lists.
pub open spec fn are_block_ops<P: Pass>(
    p: &P,
    b: TransformerBlock<P::N>,
    rope: RopeCache<P::N>,
    xs: &P::T,
    mask: Option<&P::T>,
    run: BlockRun<P::T>,
    k: int,
) -> bool {
    forall|i: int|
        0 <= i < k ==> #[trigger] is_block_op(p, b, rope, xs, mask, run, i, None::<P::E>)
}

/// `r` comes out of a transformer block: `x = xs + attention(norm(xs))`, then `x + ffn(norm(x))`.
/// It is the first failure on the way, if there is one. A norm before a packed layer runs on the
/// device where it can.
pub open spec fn is_block_run<P: Pass>(
    p: &P,
    b: TransformerBlock<P::N>,
    rope: RopeCache<P::N>,
    xs: &P::T,
    mask: Option<&P::T>,
    r: Result<P::T, P::E>,
) -> bool {
    exists|run: BlockRun<P::T>, k: int|
        {
            &&& #[trigger] are_block_ops(p, b, rope, xs, mask, run, k)
            &&& match r {
                Ok(t) => k == 6 && t == run.out,
                Err(e) => 0 <= k < 6 && is_block_op(p, b, rope, xs, mask, run, k, Some(e)),
            }
        }
}

fn run_block<P: Pass>(
    pass: &P,
    b: &TransformerBlock<P::N>,
    rope: &RopeCache<P::N>,
    xs: &P::T,
    mask: Option<&P::T>,
) -> (r: Result<P::T, P::E>)
    requires
        b.attn.n_kv_heads < b.attn.n_heads ==> b.attn.n_kv_heads > 0,
    ensures
        is_block_run(pass, *b, *rope, xs, mask, r),
{
    let ghost mut run: BlockRun<P::T> = arbitrary();
    let attn_in = match norm(pass, &b.ln_attn, b.attn.is_packed(), Site::Attention, xs) {
        Ok(v) => v,
        Err(e) => {
            assert(is_block_op(pass, *b, *rope, xs, mask, run, 0, Some(e)));
            assert(are_block_ops(pass, *b, *rope, xs, mask, run, 0));
            return Err(e);
        },
    };
    proof {
        run.attn_in = attn_in;
    }
    let attn_out = match b.attn.forward(pass, rope, &attn_in, mask) {
        Ok(v) => v,
        Err(e) => {
            assert(is_block_op(pass, *b, *rope, xs, mask, run, 1, Some(e)));
            assert(are_block_ops(pass, *b, *rope, xs, mask, run, 1));
            return Err(e);
        },
    };
    proof {
        run.attn_out = attn_out;
    }
    let x = match pass.plus(xs, &attn_out) {
        Ok(v) => v,
        Err(e) => {
            assert(is_block_op(pass, *b, *rope, xs, mask, run, 2, Some(e)));
            assert(are_block_ops(pass, *b, *rope, xs, mask, run, 2));
            return Err(e);
        },
    };
    proof {
        run.x = x;
    }
    let ffn_in = match norm(pass, &b.ln_ffn, b.ffn.is_packed(), Site::FeedForward, &x) {
        Ok(v) => v,
        Err(e) => {
            assert(is_block_op(pass, *b, *rope, xs, mask, run, 3, Some(e)));
            assert(are_block_ops(pass, *b, *rope, xs, mask, run, 3));
            return Err(e);
        },
    };
    proof {
        run.ffn_in = ffn_in;
    }
    let ffn_out = match b.ffn.forward(pass, Site::FeedForward, &ffn_in) {
        Ok(v) => v,
        Err(e) => {
            assert(is_block_op(pass, *b, *rope, xs, mask, run, 4, Some(e)));
            assert(are_block_ops(pass, *b, *rope, xs, mask, run, 4));
            return Err(e);
        },
    };
    proof {
        run.ffn_out = ffn_out;
    }
    let out = match pass.plus(&x, &ffn_out) {
        Ok(v) => v,
        Err(e) => {
            assert(is_block_op(pass, *b, *rope, xs, mask, run, 5, Some(e)));
            assert(are_block_ops(pass, *b, *rope, xs, mask, run, 5));
            return Err(e);
        },
    };
    proof {
        run.out = out;
    }
    assert(are_block_ops(pass, *b, *rope, xs, mask, run, 6));
    Ok(out)
}

impl<N: Copy> TransformerBlock<N> {
    /// Runs the block.
    pub fn forward<P: Pass<N = N>>(
        &self,
        pass: &P,
        rope: &RopeCache<N>,
        xs: &P::T,
        mask: Option<&P::T>,
    ) -> (r: Result<P::T, P::E>)
        requires
            self.attn.n_kv_heads < self.attn.n_heads ==> self.attn.n_kv_heads > 0,
        ensures
            is_block_run(pass, *self, *rope, xs, mask, r),
    {
        run_block(pass, self, rope, xs, mask)
    }
}

/// Why a pass through the network failed.
#[derive(Debug, Clone, Copy)]
pub enum ForwardError<E> {
    /// A mixer block was given a sequence of another length.
    SeqLen(SeqLenMismatch),
    /// A tensor operation failed.
    Tensor(E),
}

/// A result of tensor operations as a result of the network.
pub open spec fn lifted<T, E>(r: Result<T, E>) -> Result<T, ForwardError<E>> {
    match r {
        Ok(t) => Ok(t),
        Err(e) => Err(ForwardError::Tensor(e)),
    }
}

fn lift<T, E>(r: Result<T, E>) -> (out: Result<T, ForwardError<E>>)
    ensures
        out == lifted(r),
{
    match r {
        Ok(t) => Ok(t),
        Err(e) => Err(ForwardError::Tensor(e)),
    }
}

/// The values on the way through a mixer block.
pub struct MixerRun<T> {
    pub normed: T,
    pub folded: T,
    pub mixed: T,
    pub unfolded: T,
    pub x: T,
    pub ffn_in: T,
    pub ffn_out: T,
    pub out: T,
}

/// Operation `i` of a mixer block gave the value that `run` lists, or failed.
pub open spec fn is_mixer_op<P: Pass>(
    p: &P,
    b: MixerBlock<P::N>,
    xs: &P::T,
    dims: (usize, usize, usize),
    run: MixerRun<P::T>,
    i: int,
    failure: Option<P::E>,
) -> bool {
    if i == 0 {
        is_norm_out(
            p,
            b.ln_token,
            b.token_ffn.all_packed(),
            Site::Token,
            xs,
            outcome::returned(run.normed, failure),
        )
    } else if i == 1 {
        call_ensures(P::fold, (p, &run.normed, dims), outcome::returned(run.folded, failure))
    } else if i == 2 {
        is_ffn_out(p, b.token_ffn, Site::Token, &run.folded, outcome::returned(run.mixed, failure))
    } else if i == 3 {
        call_ensures(P::unfold, (p, &run.mixed, dims), outcome::returned(run.unfolded, failure))
    } else if i == 4 {
        call_ensures(P::plus, (p, xs, &run.unfolded), outcome::returned(run.x, failure))
    } else if i == 5 {
        is_norm_out(
            p,
            b.ln_channel,
            b.channel_ffn.all_packed(),
            Site::Channel,
            &run.x,
            outcome::returned(run.ffn_in, failure),
        )
    } else if i == 6 {
        is_ffn_out(
            p,
            b.channel_ffn,
            Site::Channel,
            &run.ffn_in,
            outcome::returned(run.ffn_out, failure),
        )
    } else {
        call_ensures(P::plus, (p, &run.x, &run.ffn_out), outcome::returned(run.out, failure))
    }
}

/// The first `k` operations of a mixer block gave the values that `run` lists.
pub open spec fn are_mixer_ops<P: Pass>(
    p: &P,
    b: MixerBlock<P::N>,
    xs: &P::T,
    dims: (usize, usize, usize),
    run: MixerRun<P::T>,
    k: int,
) -> bool {
    forall|i: int|
        0 <= i < k ==> #[trigger] is_mixer_op(p, b, xs, dims, run, i, None::<P::E>)
}

/// `r` comes out of a mixer block on an input of these sizes: `x = xs + mix(norm(xs))` over
/// positions, then `x + ffn(norm(x))`. It is the first failure on the way, if there is one.
pub open spec fn is_mixer_run<P: Pass>(
    p: &P,
    b: MixerBlock<P::N>,
    xs: &P::T,
    dims: (usize, usize, usize),
    r: Result<P::T, P::E>,
) -> bool {
    exists|run: MixerRun<P::T>, k: int|
        {
            &&& #[trigger] are_mixer_ops(p, b, xs, dims, run, k)
            &&& match r {
                Ok(t) => k == 8 && t == run.out,
                Err(e) => 0 <= k < 8 && is_mixer_op(p, b, xs, dims, run, k, Some(e)),
            }
        }
}

fn run_mixer<P: Pass>(
    pass: &P,
    b: &MixerBlock<P::N>,
    xs: &P::T,
    dims: (usize, usize, usize),
) -> (r: Result<P::T, P::E>)
    ensures
        is_mixer_run(pass, *b, xs, dims, r),
{
    let ghost mut run: MixerRun<P::T> = arbitrary();
    let normed = match norm(pass, &b.ln_token, b.token_ffn.is_packed(), Site::Token, xs) {
        Ok(v) => v,
        Err(e) => {
            assert(is_mixer_op(pass, *b, xs, dims, run, 0, Some(e)));
            assert(are_mixer_ops(pass, *b, xs, dims, run, 0));
            return Err(e);
        },
    };
    proof {
        run.normed = normed;
    }
    let folded = match pass.fold(&normed, dims) {
        Ok(v) => v,
        Err(e) => {
            assert(is_mixer_op(pass, *b, xs, dims, run, 1, Some(e)));
            assert(are_mixer_ops(pass, *b, xs, dims, run, 1));
            return Err(e);
        },
    };
    proof {
        run.folded = folded;
    }
    let mixed = match b.token_ffn.forward(pass, Site::Token, &folded) {
        Ok(v) => v,
        Err(e) => {
            assert(is_mixer_op(pass, *b, xs, dims, run, 2, Some(e)));
            assert(are_mixer_ops(pass, *b, xs, dims, run, 2));
            return Err(e);
        },
    };
    proof {
        run.mixed = mixed;
    }
    let unfolded = match pass.unfold(&mixed, dims) {
        Ok(v) => v,
        Err(e) => {
            assert(is_mixer_op(pass, *b, xs, dims, run, 3, Some(e)));
            assert(are_mixer_ops(pass, *b, xs, dims, run, 3));
            return Err(e);
        },
    };
    proof {
        run.unfolded = unfolded;
    }
    let x = match pass.plus(xs, &unfolded) {
        Ok(v) => v,
        Err(e) => {
            assert(is_mixer_op(pass, *b, xs, dims, run, 4, Some(e)));
            assert(are_mixer_ops(pass, *b, xs, dims, run, 4));
            return Err(e);
        },
    };
    proof {
        run.x = x;
    }
    let ffn_in = match norm(pass, &b.ln_channel, b.channel_ffn.is_packed(), Site::Channel, &x) {
        Ok(v) => v,
        Err(e) => {
            assert(is_mixer_op(pass, *b, xs, dims, run, 5, Some(e)));
            assert(are_mixer_ops(pass, *b, xs, dims, run, 5));
            return Err(e);
        },
    };
    proof {
        run.ffn_in = ffn_in;
    }
    let ffn_out = match b.channel_ffn.forward(pass, Site::Channel, &ffn_in) {
        Ok(v) => v,
        Err(e) => {
            assert(is_mixer_op(pass, *b, xs, dims, run, 6, Some(e)));
            assert(are_mixer_ops(pass, *b, xs, dims, run, 6));
            return Err(e);
        },
    };
    proof {
        run.ffn_out = ffn_out;
    }
    let out = match pass.plus(&x, &ffn_out) {
        Ok(v) => v,
        Err(e) => {
            assert(is_mixer_op(pass, *b, xs, dims, run, 7, Some(e)));
            assert(are_mixer_ops(pass, *b, xs, dims, run, 7));
            return Err(e);
        },
    };
    proof {
        run.out = out;
    }
    assert(are_mixer_ops(pass, *b, xs, dims, run, 8));
    Ok(out)
}

/// A mixer block on an input of these sizes. Another sequence length than the block's own is
/// refused.
pub open spec fn is_mixed<P: Pass>(
    p: &P,
    b: MixerBlock<P::N>,
    xs: &P::T,
    dims: (usize, usize, usize),
    r: Result<P::T, ForwardError<P::E>>,
) -> bool {
    if dims.1 != b.seq_len {
        r == Err::<P::T, ForwardError<P::E>>(
            ForwardError::SeqLen(SeqLenMismatch { required: b.seq_len, got: dims.1 }),
        )
    } else {
        exists|q: Result<P::T, P::E>| #[trigger]
            is_mixer_run(p, b, xs, dims, q) && r == lifted(q)
    }
}

/// `r` comes out of a mixer block.
pub open spec fn is_mixer_out<P: Pass>(
    p: &P,
    b: MixerBlock<P::N>,
    xs: &P::T,
    r: Result<P::T, ForwardError<P::E>>,
) -> bool {
    exists|d: Result<(usize, usize, usize), P::E>| #[trigger]
        call_ensures(P::dims3, (p, xs), d) && match d {
            Ok(d) => is_mixed(p, b, xs, d, r),
            Err(e) => r == Err::<P::T, ForwardError<P::E>>(ForwardError::Tensor(e)),
        }
}

impl<N: Copy> MixerBlock<N> {
    /// Runs the block.
    pub fn forward<P: Pass<N = N>>(&self, pass: &P, xs: &P::T) -> (r: Result<
        P::T,
        ForwardError<P::E>,
    >)
        ensures
            is_mixer_out(pass, *self, xs, r),
    {
        let d = pass.dims3(xs);
        assert(call_ensures(P::dims3, (pass, xs), d));
        match d {
            Ok(dims) => {
                match self.check_seq(dims.1) {
                    Ok(()) => {
                        let q = run_mixer(pass, self, xs, dims);
                        assert(is_mixer_run(pass, *self, xs, dims, q));
                        let out = lift(q);
                        assert(is_mixed(pass, *self, xs, dims, out));
                        out
                    },
                    Err(m) => Err(ForwardError::SeqLen(m)),
                }
            },
            Err(e) => Err(ForwardError::Tensor(e)),
        }
    }
}

/// The tensor operations of a network, block by block. Nothing is demanded of them beyond that
/// they return.
pub trait Layers<N: Copy> {
    type P: Pass<N = N>;

    /// The operations of a block.
    fn block(&self, i: usize) -> &Self::P;

    /// A second tensor with the same contents.
    fn copy(&self, xs: &<Self::P as Pass>::T) -> <Self::P as Pass>::T;
}

/// `r` comes out of a block.
pub open spec fn is_block_out<P: Pass>(
    p: &P,
    b: Block<P::N>,
    rope: RopeCache<P::N>,
    h: &P::T,
    mask: Option<&P::T>,
    r: Result<P::T, ForwardError<P::E>>,
) -> bool {
    match b {
        Block::Transformer(t) => exists|q: Result<P::T, P::E>| #[trigger]
            is_block_run(p, t, rope, h, mask, q) && r == lifted(q),
        Block::Mixer(m) => is_mixer_out(p, m, h, r),
    }
}

/// `r` comes out of block `i`.
pub open spec fn is_step<N: Copy, L: Layers<N>>(
    l: &L,
    blocks: Seq<Block<N>>,
    rope: RopeCache<N>,
    i: int,
    mask: Option<&<L::P as Pass>::T>,
    h: <L::P as Pass>::T,
    r: Result<<L::P as Pass>::T, ForwardError<<L::P as Pass>::E>>,
) -> bool {
    exists|p: &L::P| #[trigger]
        call_ensures(L::block, (l, i as usize), p) && is_block_out(
            p,
            blocks[i],
            rope,
            &h,
            mask,
            r,
        )
}

/// `hs` are the tensors before and after the first blocks.
pub open spec fn are_steps<N: Copy, L: Layers<N>>(
    l: &L,
    blocks: Seq<Block<N>>,
    rope: RopeCache<N>,
    mask: Option<&<L::P as Pass>::T>,
    hs: Seq<<L::P as Pass>::T>,
) -> bool {
    forall|i: int|
        0 <= i < hs.len() - 1 ==> is_step::<N, L>(
            l,
            blocks,
            rope,
            i,
            mask,
            #[trigger] hs[i],
            Ok::<<L::P as Pass>::T, ForwardError<<L::P as Pass>::E>>(hs[i + 1]),
        )
}

/// `r` comes out of the blocks, one after the other.
pub open spec fn is_blocks_out<N: Copy, L: Layers<N>>(
    l: &L,
    blocks: Seq<Block<N>>,
    rope: RopeCache<N>,
    xs: &<L::P as Pass>::T,
    mask: Option<&<L::P as Pass>::T>,
    r: Result<<L::P as Pass>::T, ForwardError<<L::P as Pass>::E>>,
) -> bool {
    exists|hs: Seq<<L::P as Pass>::T>|
        {
            &&& #[trigger] are_steps::<N, L>(l, blocks, rope, mask, hs)
            &&& hs.len() > 0
            &&& call_ensures(L::copy, (l, xs), hs[0])
            &&& match r {
                Ok(h) => hs.len() == blocks.len() + 1 && h == hs.last(),
                Err(e) => hs.len() <= blocks.len() && is_step::<N, L>(
                    l,
                    blocks,
                    rope,
                    hs.len() - 1,
                    mask,
                    hs.last(),
                    Err::<<L::P as Pass>::T, ForwardError<<L::P as Pass>::E>>(e),
                ),
            }
        }
}

/// The layers that the packed stack is given are those of the blocks.
pub open spec fn are_layers<N>(
    blocks: Seq<Block<N>>,
    zero: N,
    bufs: Seq<PackedLayerBufs<N>>,
) -> bool {
    &&& bufs.len() == blocks.len()
    &&& forall|i: int|
        0 <= i < bufs.len() ==> network::is_block_bufs(blocks[i], zero, #[trigger] bufs[i])
}

/// `r` is what the packed stack makes of a plain tensor and mask.
pub open spec fn is_stack_on<P: Pass>(
    p: &P,
    bufs: &Vec<PackedLayerBufs<P::N>>,
    rope: RopeCache<P::N>,
    x: DenseTensor<P::N>,
    mask: Option<DenseTensor<P::N>>,
    r: Result<P::T, P::E>,
) -> bool {
    exists|bank: &P::B, q: Result<DenseTensor<P::N>, DispatchError>|
        {
            &&& call_ensures(P::bank, (p,), bank)
            &&& #[trigger] kernel_dispatch::is_stack_answer(
                bank,
                x,
                bufs,
                rope,
                flat(mask),
                kernel_dispatch::result_model(q),
            )
            &&& is_carried(p, q, r)
        }
}

/// `r` is what the packed stack makes of a plain tensor and a mask.
pub open spec fn is_stack_masked<P: Pass>(
    p: &P,
    bufs: &Vec<PackedLayerBufs<P::N>>,
    rope: RopeCache<P::N>,
    x: DenseTensor<P::N>,
    mask: Option<&P::T>,
    r: Result<P::T, P::E>,
) -> bool {
    exists|m: Result<Option<DenseTensor<P::N>>, P::E>| #[trigger]
        is_plain_mask(p, mask, m) && match m {
            Ok(m) => is_stack_on(p, bufs, rope, x, m, r),
            Err(e) => r == Err::<P::T, P::E>(e),
        }
}

/// `r` is what the packed stack makes of a tensor and a mask.
pub open spec fn is_stack_out<P: Pass>(
    p: &P,
    bufs: &Vec<PackedLayerBufs<P::N>>,
    rope: RopeCache<P::N>,
    xs: &P::T,
    mask: Option<&P::T>,
    r: Result<P::T, P::E>,
) -> bool {
    exists|x: Result<DenseTensor<P::N>, P::E>| #[trigger]
        call_ensures(P::plain, (p, xs), x) && match x {
            Ok(x) => is_stack_masked(p, bufs, rope, x, mask, r),
            Err(e) => r == Err::<P::T, P::E>(e),
        }
}

fn run_stack<P: Pass>(
    pass: &P,
    bufs: &Vec<PackedLayerBufs<P::N>>,
    rope: &RopeCache<P::N>,
    xs: &P::T,
    mask: Option<&P::T>,
) -> (r: Result<P::T, P::E>)
    ensures
        is_stack_out(pass, bufs, *rope, xs, mask, r),
{
    let x = pass.plain(xs);
    assert(call_ensures(P::plain, (pass, xs), x));
    match x {
        Ok(x) => {
            let m = plain_mask(pass, mask);
            assert(is_plain_mask(pass, mask, m));
            let r = match m {
                Ok(m) => {
                    let bank = pass.bank();
                    assert(call_ensures(P::bank, (pass,), bank));
                    let flat_mask = match &m {
                        Some(t) => Some(t.data.as_slice()),
                        None => None,
                    };
                    let q = answer_stack(bank, &x, bufs, rope, flat_mask);
                    let ghost held = q;
                    assert(kernel_ref::held(flat_mask) == flat(m));
                    let r = carry(pass, q);
                    assert(kernel_dispatch::is_stack_answer(
                        bank,
                        x,
                        bufs,
                        *rope,
                        flat(m),
                        kernel_dispatch::result_model(held),
                    ));
                    assert(is_stack_on(pass, bufs, *rope, x, m, r));
                    r
                },
                Err(e) => Err(e),
            };
            assert(is_stack_masked(pass, bufs, *rope, x, mask, r));
            r
        },
        Err(e) => Err(e),
    }
}

/// `s` comes out of the packed stack of the blocks, on the operations of the first one.
pub open spec fn is_network_stack<N: Copy, L: Layers<N>>(
    l: &L,
    blocks: Seq<Block<N>>,
    rope: RopeCache<N>,
    zero: N,
    xs: &<L::P as Pass>::T,
    mask: Option<&<L::P as Pass>::T>,
    s: Result<<L::P as Pass>::T, <L::P as Pass>::E>,
) -> bool {
    exists|p: &L::P, bufs: Vec<PackedLayerBufs<N>>|
        {
            &&& call_ensures(L::block, (l, 0usize), p)
            &&& are_layers(blocks, zero, bufs@)
            &&& #[trigger] is_stack_out(p, &bufs, rope, xs, mask, s)
        }
}

/// `r` comes out of the network: of the packed stack where every block is packed and the stack
/// can be run, else of the blocks.
pub open spec fn is_network_out<N: Copy, F, L: Layers<N>>(
    l: &L,
    net: SharedNetwork<N, F>,
    zero: N,
    xs: &<L::P as Pass>::T,
    mask: Option<&<L::P as Pass>::T>,
    r: Result<<L::P as Pass>::T, ForwardError<<L::P as Pass>::E>>,
) -> bool {
    let rope = net.rope->Some_0;
    if net.stack_packed() {
        exists|s: Result<<L::P as Pass>::T, <L::P as Pass>::E>| #[trigger]
            is_network_stack::<N, L>(l, net.blocks@, rope, zero, xs, mask, s) && match s {
                Ok(h) => r == Ok::<<L::P as Pass>::T, ForwardError<<L::P as Pass>::E>>(h),
                Err(_) => is_blocks_out::<N, L>(l, net.blocks@, rope, xs, mask, r),
            }
    } else {
        is_blocks_out::<N, L>(l, net.blocks@, rope, xs, mask, r)
    }
}

/// A block whose attention can be run.
pub open spec fn can_attend<N>(b: Block<N>) -> bool {
    b matches Block::Transformer(t) ==> t.attn.n_kv_heads < t.attn.n_heads ==> t.attn.n_kv_heads > 0
}

impl<N: Copy, F: Copy> SharedNetwork<N, F> {
    /// The blocks are of the network's kind, and a transformer has its rotary cache.
    pub open spec fn is_whole(self) -> bool {
        &&& self.cfg.variant == NetworkVariant::Transformer ==> self.rope is Some
        &&& forall|i: int|
            0 <= i < self.blocks@.len() ==> can_attend(#[trigger] self.blocks@[i]) && ((
            self.blocks@[i] is Transformer) <==> self.cfg.variant == NetworkVariant::Transformer)
    }

    fn run_one<L: Layers<N>>(
        &self,
        layers: &L,
        i: usize,
        h: &<L::P as Pass>::T,
        mask: Option<&<L::P as Pass>::T>,
    ) -> (r: Result<<L::P as Pass>::T, ForwardError<<L::P as Pass>::E>>)
        requires
            self.is_whole(),
            i < self.blocks@.len(),
        ensures
            is_step::<N, L>(layers, self.blocks@, self.rope->Some_0, i as int, mask, *h, r),
    {
        let pass = layers.block(i);
        assert(call_ensures(L::block, (layers, i), pass));
        assert(can_attend(self.blocks@[i as int]));
        let out = match &self.blocks[i] {
            Block::Transformer(t) => {
                let rope = self.rope.as_ref().unwrap();
                let q = t.forward(pass, rope, h, mask);
                assert(is_block_run(pass, *t, *rope, h, mask, q));
                lift(q)
            },
            Block::Mixer(m) => m.forward(pass, h),
        };
        assert(is_block_out(pass, self.blocks@[i as int], self.rope->Some_0, h, mask, out));
        out
    }

    fn run_blocks<L: Layers<N>>(
        &self,
        layers: &L,
        xs: &<L::P as Pass>::T,
        mask: Option<&<L::P as Pass>::T>,
    ) -> (r: Result<<L::P as Pass>::T, ForwardError<<L::P as Pass>::E>>)
        requires
            self.is_whole(),
        ensures
            is_blocks_out::<N, L>(layers, self.blocks@, self.rope->Some_0, xs, mask, r),
    {
        let ghost rope = self.rope->Some_0;
        let mut h = layers.copy(xs);
        let ghost mut hs: Seq<<L::P as Pass>::T> = seq![h];
        let mut i: usize = 0;
        while i < self.blocks.len()
            invariant
                i <= self.blocks@.len(),
                self.is_whole(),
                rope == self.rope->Some_0,
                hs.len() == i + 1,
                hs.last() == h,
                call_ensures(L::copy, (layers, xs), hs[0]),
                are_steps::<N, L>(layers, self.blocks@, rope, mask, hs),
            decreases self.blocks@.len() - i,
        {
            let out = self.run_one(layers, i, &h, mask);
            match out {
                Ok(next) => {
                    let ghost before = hs;
                    proof {
                        hs = hs.push(next);
                        assert forall|k: int| 0 <= k < hs.len() - 1 implies is_step::<N, L>(
                            layers,
                            self.blocks@,
                            rope,
                            k,
                            mask,
                            #[trigger] hs[k],
                            Ok::<<L::P as Pass>::T, ForwardError<<L::P as Pass>::E>>(hs[k + 1]),
                        ) by {
                            assert(hs[k] == before[k]);
                            if k < before.len() - 1 {
                                assert(hs[k + 1] == before[k + 1]);
                            }
                        }
                    }
                    h = next;
                },
                Err(e) => {
                    return Err(e);
                },
            }
            i = i + 1;
        }
        Ok(h)
    }

    /// Runs the network.
    pub fn forward<L: Layers<N>>(
        &self,
        layers: &L,
        zero: N,
        xs: &<L::P as Pass>::T,
        mask: Option<&<L::P as Pass>::T>,
    ) -> (r: Result<<L::P as Pass>::T, ForwardError<<L::P as Pass>::E>>)
        requires
            self.is_whole(),
        ensures
            is_network_out::<N, F, L>(layers, *self, zero, xs, mask, r),
    {
        if let Some(bufs) = self.packed_stack_bufs(zero) {
            let rope = self.rope.as_ref().unwrap();
            let pass = layers.block(0);
            assert(call_ensures(L::block, (layers, 0usize), pass));
            assert(are_layers(self.blocks@, zero, bufs@));
            let s = run_stack(pass, &bufs, rope, xs, mask);
            assert(is_stack_out(pass, &bufs, *rope, xs, mask, s));
            assert(is_network_stack::<N, L>(layers, self.blocks@, *rope, zero, xs, mask, s));
            match s {
                Ok(out) => {
                    return Ok(out);
                },
                Err(_) => {
                    return self.run_blocks(layers, xs, mask);
                },
            }
        }
        self.run_blocks(layers, xs, mask)
    }
}

/// Every network that is built can be run.
pub proof fn built_network_is_whole<N: Copy, F: Copy, E, M, L>(
    make: M,
    make_ln: L,
    prefix: Seq<char>,
    hidden: usize,
    net: SharedNetwork<N, F>,
) where M: Fn(&str, usize, usize) -> Result<Linear<N>, E>, L: Fn(&str, usize) -> Result<Norm<N>, E>
    requires
        net.cfg.num_heads > 0,
        net.cfg.num_kv_heads != Some(0usize),
        net.cfg.variant == NetworkVariant::Transformer ==> net.rope is Some,
        forall|i: int|
            0 <= i < net.blocks@.len() ==> network::is_network_block(
                make,
                make_ln,
                network::block_name(prefix, i as nat),
                net.cfg,
                hidden,
                #[trigger] net.blocks@[i],
            ),
    ensures
        net.is_whole(),
{
    assert forall|i: int| 0 <= i < net.blocks@.len() implies can_attend(#[trigger] net.blocks@[i])
        && (
            (net.blocks@[i] is Transformer) <==> net.cfg.variant == NetworkVariant::Transformer
        ) by {
        assert(network::is_network_block(
            make,
            make_ln,
            network::block_name(prefix, i as nat),
            net.cfg,
            hidden,
            net.blocks@[i],
        ));
    }
}

/// A network that can be run can still be run when its own weights have been packed.
pub proof fn packing_keeps_whole<N: Copy, F: Copy, Q>(
    before: SharedNetwork<N, F>,
    after: SharedNetwork<N, F>,
    quantize: Q,
) where Q: Fn(&DenseTensor<N>) -> TernaryPacked<N>
    requires
        before.is_whole(),
        after.rope == before.rope,
        after.cfg == (NetworkConfig { use_ternary_kernels: true, ..before.cfg }),
        after.blocks@.len() == before.blocks@.len(),
        forall|i: int|
            0 <= i < before.blocks@.len() ==> network::any_block_packed(
                #[trigger] before.blocks@[i],
                after.blocks@[i],
                quantize,
                Ok::<(), DispatchError>(()),
            ),
    ensures
        after.is_whole(),
{
    assert forall|i: int| 0 <= i < after.blocks@.len() implies can_attend(
        #[trigger] after.blocks@[i],
    ) && (
        (after.blocks@[i] is Transformer) <==> after.cfg.variant == NetworkVariant::Transformer
    ) by {
        assert(can_attend(before.blocks@[i]));
    }
}

/// A network that can be run can still be run when packs have been applied to it.
pub proof fn applying_keeps_whole<N: Copy, F: Copy>(
    before: SharedNetwork<N, F>,
    after: SharedNetwork<N, F>,
    prefix: Seq<char>,
    packs: Seq<(Seq<char>, PackModel<N>)>,
)
    requires
        before.is_whole(),
        after.rope == before.rope,
        after.cfg == (NetworkConfig { use_ternary_kernels: true, ..before.cfg }),
        after.blocks@.len() == before.blocks@.len(),
        forall|i: int|
            0 <= i < before.blocks@.len() ==> network::any_block_applied(
                #[trigger] before.blocks@[i],
                after.blocks@[i],
                network::block_name(prefix, i as nat),
                packs,
            ),
    ensures
        after.is_whole(),
{
    assert forall|i: int| 0 <= i < after.blocks@.len() implies can_attend(
        #[trigger] after.blocks@[i],
    ) && (
        (after.blocks@[i] is Transformer) <==> after.cfg.variant == NetworkVariant::Transformer
    ) by {
        assert(can_attend(before.blocks@[i]));
    }
}

} // verus!
