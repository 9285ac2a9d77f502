//! What dispatched layers give: the answer of a device as it is, and without a device what the
//! kernels and the host compute.

use crate::arith::Arith;
use crate::exact;
use crate::kernel_dispatch;
use crate::kernel_dispatch::{Bank, DispatchError, Host, LayerError, Linear, NoBank, Norm};
use crate::kernel_laws;
use crate::kernel_ref;
use crate::named;
use crate::quantize::{PackModel, TernaryPacked};
use crate::tensor;
use crate::tensor::DenseTensor;
use vstd::prelude::*;

verus! {

/// Without a device, the gated product of two tensors of one shape has that shape, and every
/// entry times `1 + e^-gate` is gate times value. Tensors of different shapes are refused.
pub proof fn gating_without_a_device<A: Arith>(
    ar: &A,
    of: spec_fn(A::Num) -> real,
    e: spec_fn(real) -> real,
    bank: &NoBank,
    gate: &DenseTensor<A::Num>,
    up: &DenseTensor<A::Num>,
    r: Result<DenseTensor<A::Num>, DispatchError>,
    i: int,
)
    requires
        exact::is_real(ar, of),
        exact::has_powers(ar, of, e),
        gate@.wf(),
        up@.wf(),
        call_ensures(kernel_dispatch::swiglu_tensors::<A, NoBank>, (ar, bank, gate, up), r),
        0 <= i < gate.data@.len(),
    ensures
        gate.dims@ != up.dims@ <==> r is Err,
        r matches Ok(out) ==> {
            &&& out.dims@ == gate.dims@
            &&& out.data@.len() == gate.data@.len()
            &&& of(out.data@[i]) * (1real + e(0real - of(gate.data@[i]))) == of(gate.data@[i])
                * of(up.data@[i])
        },
{
    if gate.dims@ == up.dims@ {
        let (g, u, out) = choose|g: &[A::Num], u: &[A::Num], out: Seq<A::Num>|
            {
                &&& g@ == gate.data@
                &&& u@ == up.data@
                &&& #[trigger] kernel_dispatch::is_swiglu_f32(ar, bank, g, u, out)
                &&& kernel_dispatch::result_model(r) == kernel_dispatch::shaped(gate.dims@, out)
            };
        assert(kernel_ref::is_swiglu_table(ar, g@, u@, out));
        kernel_laws::gate_weighs_by_the_logistic(ar, of, e, g@, u@, out, i);
    }
}

/// The device's answer to a gated product is taken as it is.
pub proof fn device_gates_are_taken<A: Arith, B: Bank<A::Num>>(
    ar: &A,
    bank: &B,
    gate: &[A::Num],
    up: &[A::Num],
    r: Vec<A::Num>,
)
    requires
        gate@.len() == up@.len(),
        call_ensures(kernel_dispatch::swiglu_f32::<A, B>, (ar, bank, gate, up), r),
        forall|dev: Option<Vec<A::Num>>| #[trigger]
            call_ensures(B::swiglu, (bank, gate, up), dev) ==> dev is Some,
    ensures
        exists|dev: Option<Vec<A::Num>>| #[trigger]
            call_ensures(B::swiglu, (bank, gate, up), dev) && r@ == dev->Some_0@,
{
}

/// A layer without packed weights is the host's, device or not.
pub proof fn unpacked_layer_is_the_hosts<A: Arith, B: Bank<A::Num>, H: Host<A::Num>>(
    ar: &A,
    bank: &B,
    host: &H,
    xs: &DenseTensor<A::Num>,
    lin: &Linear<A::Num>,
    r: Result<DenseTensor<A::Num>, LayerError<H::E>>,
) -> (h: Result<DenseTensor<A::Num>, H::E>)
    requires
        call_ensures(
            kernel_dispatch::linear_maybe_ternary::<A, B, H>,
            (ar, bank, host, xs, lin, None::<&TernaryPacked<A::Num>>),
            r,
        ),
    ensures
        call_ensures(H::linear, (host, xs, lin), h),
        match (h, r) {
            (Ok(a), Ok(b)) => a@ == b@,
            (Err(a), Err(b)) => b == LayerError::<H::E>::Host(a),
            _ => false,
        },
{
    let q = kernel_dispatch::layer_model(r);
    let h = choose|h: Result<DenseTensor<A::Num>, H::E>| #[trigger]
        call_ensures(H::linear, (host, xs, lin), h) && q == kernel_dispatch::host_model(h);
    h
}

/// Without a device, a layer with packed weights keeps all dimensions of its input but the last,
/// which becomes the number of outputs, and gives for token `t` and output `o` the scaled sum of
/// the row, plus the bias. An input of another width is refused, and so is a bias of another
/// length.
pub proof fn packed_layer_without_a_device<A: Arith, H: Host<A::Num>>(
    ar: &A,
    of: spec_fn(A::Num) -> real,
    bank: &NoBank,
    host: &H,
    xs: &DenseTensor<A::Num>,
    lin: &Linear<A::Num>,
    pack: &TernaryPacked<A::Num>,
    r: Result<DenseTensor<A::Num>, LayerError<H::E>>,
    t: int,
    o: int,
)
    requires
        exact::is_real(ar, of),
        kernel_dispatch::takes(*xs, Some(*pack)),
        pack.in_dim % 4 == 0,
        pack.in_dim > 0,
        xs.dims@.len() > 0,
        xs.data@.len() <= usize::MAX,
        call_ensures(
            kernel_dispatch::linear_maybe_ternary::<A, NoBank, H>,
            (ar, bank, host, xs, lin, Some(pack)),
            r,
        ),
        0 <= t * pack.in_dim,
        (t + 1) * pack.in_dim <= xs.data@.len(),
        0 <= o < pack.out_dim,
    ensures
        xs.dims@.last() != pack.in_dim ==> r is Err,
        (lin.bias matches Some(b) && b@.len() != pack.out_dim) ==> r is Err,
        r matches Ok(out) ==> {
            &&& out.dims@ == xs.dims@.drop_last().push(pack.out_dim)
            &&& of(out.data@[t * pack.out_dim + o]) == exact::sum(
                Seq::new(
                    pack.in_dim as nat,
                    |i: int|
                        kernel_laws::under(
                            kernel_laws::bits(pack@, o, i),
                            of(xs.data@[t * pack.in_dim + i]),
                        ),
                ),
            ) * of(pack.alphas@[o]) + match lin.bias {
                Some(b) => of(b@[o]),
                None => 0real,
            }
        },
{
    let bias = kernel_dispatch::owned(lin.bias);
    let m = kernel_dispatch::layer_model(r);
    let q = choose|q: Result<tensor::DenseModel<A::Num>, DispatchError>| #[trigger]
        kernel_dispatch::is_packed_linear(ar, bank, xs@, *pack, bias, q) && m
            == kernel_dispatch::dispatched::<A::Num, H::E>(q);
    if let Ok(got) = r {
        let w = pack.in_dim as int;
        let n = xs.data@.len() as int;
        let tokens = kernel_dispatch::token_count(xs.data@.len(), pack.in_dim);
        let (input, b, out) = choose|input: &[A::Num], b: Option<&[A::Num]>, out: Seq<A::Num>|
            {
                &&& input@ == xs@.data
                &&& kernel_ref::held(b) == bias
                &&& #[trigger] kernel_dispatch::is_linear_f32(
                    ar,
                    bank,
                    input,
                    pack,
                    b,
                    tokens as usize,
                    out,
                )
                &&& q == kernel_dispatch::shaped(
                    kernel_dispatch::with_last(xs@.dims, pack.out_dim),
                    out,
                )
            };
        tokens_fill(xs, w as usize);
        vstd::arithmetic::div_mod::lemma_fundamental_div_mod(n, w);
        assert(tokens == n / w) by {
            if w == 1 {
                assert(n / 1 == n);
            }
        }
        assert(n == tokens * w) by (nonlinear_arith)
            requires
                n == w * tokens + 0,
        ;
        assert(0 <= t < tokens) by (nonlinear_arith)
            requires
                0 <= t * w,
                (t + 1) * w <= n,
                n == tokens * w,
                w > 0,
        ;
        assert(tokens <= n) by (nonlinear_arith)
            requires
                n == tokens * w,
                w >= 1,
                tokens >= 0,
        ;
        kernel_laws::packed_layer_adds_its_bias(
            ar,
            of,
            input@,
            pack@,
            kernel_ref::held(b),
            tokens,
            out,
            t,
            o,
        );
        assert(got.data@ == out);
        assert(kernel_dispatch::with_last(xs@.dims, pack.out_dim)
            =~= xs.dims@.drop_last().push(pack.out_dim));
    }
}

proof fn tokens_fill<N>(xs: &DenseTensor<N>, w: usize)
    requires
        xs@.wf(),
        xs.dims@.len() > 0,
        xs.dims@.last() == w,
        w > 0,
    ensures
        xs.data@.len() as int % w as int == 0,
{
    let d = xs.dims@;
    let k = tensor::elem_count(d.drop_last()) as int;
    assert(tensor::elem_count(d) == k * w);
    vstd::arithmetic::div_mod::lemma_mod_multiples_basic(k, w as int);
}

/// Without a device, a layer norm is the host's.
pub proof fn norm_without_a_device<N: Copy, H: Host<N>>(
    bank: &NoBank,
    host: &H,
    xs: &DenseTensor<N>,
    ln: &Norm<N>,
    zero: N,
    r: Result<DenseTensor<N>, LayerError<H::E>>,
) -> (h: Result<DenseTensor<N>, H::E>)
    requires
        call_ensures(
            kernel_dispatch::layer_norm_module::<N, NoBank, H>,
            (bank, host, xs, ln, zero),
            r,
        ),
    ensures
        call_ensures(H::layer_norm, (host, xs, ln), h),
        match (h, r) {
            (Ok(a), Ok(b)) => a@ == b@,
            (Err(a), Err(b)) => b == LayerError::<H::E>::Host(a),
            _ => false,
        },
{
    let q = kernel_dispatch::layer_model(r);
    let dev = choose|dev: Option<Result<tensor::DenseModel<N>, DispatchError>>| #[trigger]
        kernel_dispatch::is_device_answer(bank, *xs, *ln, zero, dev) && match dev {
            Some(a) => q == kernel_dispatch::dispatched::<N, H::E>(a),
            None => kernel_dispatch::is_host_norm(host, xs, ln, q),
        };
    assert(dev is None);
    let h = choose|h: Result<DenseTensor<N>, H::E>| #[trigger]
        call_ensures(H::layer_norm, (host, xs, ln), h) && q == kernel_dispatch::host_model(h);
    h
}

/// Packing a layer's own weights: a matrix whose width is a multiple of four is packed as the
/// quantizer made it, one of another width is left unpacked, and what is no matrix is refused and
/// stays as it was.
pub proof fn width_decides_what_is_packed<N, Q>(
    weight: DenseTensor<N>,
    quantize: Q,
    before: Option<TernaryPacked<N>>,
    after: Option<TernaryPacked<N>>,
    r: Result<(), DispatchError>,
) where Q: Fn(&DenseTensor<N>) -> TernaryPacked<N>
    requires
        kernel_dispatch::pack_result(weight, quantize, before, after, r),
    ensures
        ({
            let dims = weight.dims@;
            &&& dims.len() != 2 ==> r is Err && after == before
            &&& dims.len() == 2 ==> r is Ok
            &&& dims.len() == 2 ==> (after is Some <==> dims[1] % 4 == 0)
            &&& dims.len() == 2 && after is Some ==> call_ensures(
                quantize,
                (&weight,),
                after->Some_0,
            )
        }),
{
}

/// A layer takes the pack that is listed for its weights, and keeps what it has where none is.
pub proof fn listed_packs_are_taken<N>(
    name: Seq<char>,
    packs: Seq<(Seq<char>, PackModel<N>)>,
    before: Option<PackModel<N>>,
    i: int,
)
    requires
        named::sorted(packs),
    ensures
        0 <= i < packs.len() && packs[i].0 == name + ".weight"@ ==> kernel_dispatch::named_pack(
            name,
            packs,
            before,
        ) == Some(packs[i].1),
        (forall|j: int| 0 <= j < packs.len() ==> (#[trigger] packs[j]).0 != name + ".weight"@)
            ==> kernel_dispatch::named_pack(name, packs, before) == before,
{
    let key = name + ".weight"@;
    named::found_at(packs, key);
}

} // verus!
