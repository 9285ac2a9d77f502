//! Dispatch of packed kernels: a device bank where one is live, otherwise the reference
//! kernels. Packed kernels serve inference only.

use crate::arith::Arith;
use crate::copy::copy_vec;
use crate::kernel_ref;
use crate::named;
use crate::named::NameMap;
use crate::quantize::{PackModel, TernaryPacked};
use crate::tensor;
use crate::tensor::{DenseModel, DenseTensor};
use crate::text;
use vstd::prelude::*;

verus! {

/// Where packed kernels run.
#[derive(Debug, Clone, Copy, PartialEq, Eq, Structural)]
pub enum KernelBackend {
    CpuRef,
    Cuda,
}

/// The backend in use: the device where its kernel bank has started, else the reference.
pub fn active_backend(bank_ready: bool) -> (r: KernelBackend)
    ensures
        r == (if bank_ready {
            KernelBackend::Cuda
        } else {
            KernelBackend::CpuRef
        }),
{
    if bank_ready {
        KernelBackend::Cuda
    } else {
        KernelBackend::CpuRef
    }
}

/// The copy counters of a kernel bank.
#[derive(Debug, Clone, Copy, PartialEq, Eq, Structural)]
pub struct CopyCounters {
    pub htod_calls: u64,
    pub dtoh_calls: u64,
    pub htod_bytes: u64,
    pub dtoh_bytes: u64,
}

/// A reading of the copy counters. `F` is the type that megabytes are given in.
#[derive(Debug, Clone, Copy)]
pub struct GpuCopyStats<F> {
    pub htod_calls: u64,
    pub dtoh_calls: u64,
    pub htod_bytes: u64,
    pub dtoh_bytes: u64,
    pub htod_mb: F,
    pub dtoh_mb: F,
}

/// Sets the counters of the bank to zero, if there is one.
pub fn reset_copy_stats(bank: &mut Option<CopyCounters>)
    ensures
        *final(bank) == (match *old(bank) {
            Some(_) => Some(
                CopyCounters { htod_calls: 0, dtoh_calls: 0, htod_bytes: 0, dtoh_bytes: 0 },
            ),
            None => None,
        }),
{
    if bank.is_some() {
        *bank = Some(CopyCounters { htod_calls: 0, dtoh_calls: 0, htod_bytes: 0, dtoh_bytes: 0 });
    }
}

/// Reads the counters of the bank, if there is one.
pub fn snapshot_copy_stats<F, M: Fn(u64) -> F>(bank: &Option<CopyCounters>, megabytes: &M) -> (r:
    Option<GpuCopyStats<F>>)
    requires
        bank matches Some(c) ==> call_requires(*megabytes, (c.htod_bytes,)) && call_requires(
            *megabytes,
            (c.dtoh_bytes,),
        ),
    ensures
        match (*bank, r) {
            (Some(c), Some(s)) => {
                &&& s.htod_calls == c.htod_calls
                &&& s.dtoh_calls == c.dtoh_calls
                &&& s.htod_bytes == c.htod_bytes
                &&& s.dtoh_bytes == c.dtoh_bytes
                &&& call_ensures(*megabytes, (c.htod_bytes,), s.htod_mb)
                &&& call_ensures(*megabytes, (c.dtoh_bytes,), s.dtoh_mb)
            },
            (None, None) => true,
            _ => false,
        },
{
    match bank {
        Some(c) => Some(
            GpuCopyStats {
                htod_calls: c.htod_calls,
                dtoh_calls: c.dtoh_calls,
                htod_bytes: c.htod_bytes,
                dtoh_bytes: c.dtoh_bytes,
                htod_mb: megabytes(c.htod_bytes),
                dtoh_mb: megabytes(c.dtoh_bytes),
            },
        ),
        None => None,
    }
}

/// A bank of device kernels. Each call returns nothing where the bank is not live, lacks the
/// kernel or fails.
pub trait Bank<N> {
    fn swiglu(&self, gate: &[N], up: &[N]) -> Option<Vec<N>>;

    fn linear(
        &self,
        input: &[N],
        pack: &TernaryPacked<N>,
        bias: Option<&[N]>,
        tokens: usize,
    ) -> Option<Vec<N>>;

    fn swiglu_ffn(
        &self,
        xs: &[N],
        tokens: usize,
        gate: &TernaryPacked<N>,
        gate_bias: Option<&[N]>,
        value: &TernaryPacked<N>,
        value_bias: Option<&[N]>,
        down: &TernaryPacked<N>,
        down_bias: Option<&[N]>,
    ) -> Option<Vec<N>>;

    /// Whether the bank is live and has a layer norm for such weights.
    fn has_layer_norm(&self, gamma: &[N]) -> bool;

    fn layer_norm(&self, input: &[N], gamma: &[N], beta: &[N], rows: usize, cols: usize) -> Option<
        Vec<N>,
    >;

    fn mha(&self, call: &MhaCall<N>) -> Option<Vec<N>>;

    fn stack(&self, call: &StackCall<N>) -> Option<Vec<N>>;
}

/// The operands of packed multi-head attention.
pub struct MhaCall<'a, N> {
    pub xs: &'a [N],
    pub b: usize,
    pub s: usize,
    pub q: &'a TernaryPacked<N>,
    pub q_bias: Option<&'a [N]>,
    pub k: &'a TernaryPacked<N>,
    pub k_bias: Option<&'a [N]>,
    pub v: &'a TernaryPacked<N>,
    pub v_bias: Option<&'a [N]>,
    pub o: &'a TernaryPacked<N>,
    pub o_bias: Option<&'a [N]>,
    pub n_heads: usize,
    pub n_kv: usize,
    pub head_dim: usize,
    pub rope_cos: &'a [N],
    pub rope_sin: &'a [N],
    pub mask: Option<&'a [N]>,
}

/// Owned norms and biases plus the packs of one transformer block.
pub struct PackedLayerBufs<'a, N> {
    pub ln_attn_g: Vec<N>,
    pub ln_attn_b: Vec<N>,
    pub ln_ffn_g: Vec<N>,
    pub ln_ffn_b: Vec<N>,
    pub q: &'a TernaryPacked<N>,
    pub q_bias: Option<Vec<N>>,
    pub k: &'a TernaryPacked<N>,
    pub k_bias: Option<Vec<N>>,
    pub v: &'a TernaryPacked<N>,
    pub v_bias: Option<Vec<N>>,
    pub o: &'a TernaryPacked<N>,
    pub o_bias: Option<Vec<N>>,
    pub gate: &'a TernaryPacked<N>,
    pub gate_bias: Option<Vec<N>>,
    pub value: &'a TernaryPacked<N>,
    pub value_bias: Option<Vec<N>>,
    pub down: &'a TernaryPacked<N>,
    pub down_bias: Option<Vec<N>>,
    pub n_heads: usize,
    pub n_kv: usize,
    pub head_dim: usize,
}

/// The operands of a packed transformer stack.
pub struct StackCall<'a, N> {
    pub xs: &'a [N],
    pub b: usize,
    pub s: usize,
    pub d: usize,
    pub layers: &'a Vec<PackedLayerBufs<'a, N>>,
    pub rope_cos: &'a [N],
    pub rope_sin: &'a [N],
    pub mask: Option<&'a [N]>,
}

/// No device: every call is left to the reference kernels.
pub struct NoBank;

impl<N> Bank<N> for NoBank {
    fn swiglu(&self, gate: &[N], up: &[N]) -> (r: Option<Vec<N>>)
        ensures
            r is None,
    {
        None
    }

    fn linear(
        &self,
        input: &[N],
        pack: &TernaryPacked<N>,
        bias: Option<&[N]>,
        tokens: usize,
    ) -> (r: Option<Vec<N>>)
        ensures
            r is None,
    {
        None
    }

    fn swiglu_ffn(
        &self,
        xs: &[N],
        tokens: usize,
        gate: &TernaryPacked<N>,
        gate_bias: Option<&[N]>,
        value: &TernaryPacked<N>,
        value_bias: Option<&[N]>,
        down: &TernaryPacked<N>,
        down_bias: Option<&[N]>,
    ) -> (r: Option<Vec<N>>)
        ensures
            r is None,
    {
        None
    }

    fn has_layer_norm(&self, gamma: &[N]) -> (r: bool)
        ensures
            !r,
    {
        false
    }

    fn layer_norm(&self, input: &[N], gamma: &[N], beta: &[N], rows: usize, cols: usize) -> (r:
        Option<Vec<N>>)
        ensures
            r is None,
    {
        None
    }

    fn mha(&self, call: &MhaCall<N>) -> (r: Option<Vec<N>>)
        ensures
            r is None,
    {
        None
    }

    fn stack(&self, call: &StackCall<N>) -> (r: Option<Vec<N>>)
        ensures
            r is None,
    {
        None
    }
}

/// A layer of the network that can be packed.
#[derive(Debug, Clone, Copy, PartialEq, Eq, Structural)]
pub enum Part {
    Query,
    Key,
    Value,
    Output,
    Gate,
    FfnValue,
    Down,
}

/// Why a packed call was refused.
#[derive(Debug, Clone, Copy, PartialEq, Eq, Structural)]
pub enum DispatchError {
    /// The tensor is not as wide as the pack.
    InDim { tensor: usize, pack: usize },
    /// The bias does not have one entry for each output.
    BiasLen { len: usize, out_dim: usize },
    /// Gate and value tensors of different shapes.
    SwigluShape,
    /// The tensor does not have three dimensions.
    Rank { rank: usize },
    /// The layer has no packed weights.
    NotPacked { part: Part },
    /// The rotary cache has fewer positions than the sequence.
    RopeRows { rows: usize, seq: usize },
    /// The rotary cache is too narrow for the head.
    RopeTooShort { seq: usize },
    /// The mask fits neither one sequence nor the batch.
    MaskLen { len: usize },
    /// A stack without layers.
    EmptyStack,
    /// No device took the stack.
    Unavailable,
    /// The elements do not fill the shape.
    Shape,
    /// The operands do not fit each other.
    Unfit,
}

/// A tensor of these dimensions and elements, refused where they do not match.
pub open spec fn shaped<N>(dims: Seq<usize>, data: Seq<N>) -> Result<DenseModel<N>, DispatchError> {
    if tensor::elem_count(dims) == data.len() {
        Ok(DenseModel { dims, data })
    } else {
        Err(DispatchError::Shape)
    }
}

/// What a tensor result holds.
pub open spec fn result_model<N>(r: Result<DenseTensor<N>, DispatchError>) -> Result<
    DenseModel<N>,
    DispatchError,
> {
    match r {
        Ok(t) => Ok(t@),
        Err(e) => Err(e),
    }
}

fn from_vec<N>(data: Vec<N>, dims: Vec<usize>) -> (r: Result<DenseTensor<N>, DispatchError>)
    ensures
        result_model(r) == shaped(dims@, data@),
{
    if tensor::fills(&dims, data.len()) {
        Ok(DenseTensor { dims, data })
    } else {
        Err(DispatchError::Shape)
    }
}

/// `silu(gate) * up`: the device's answer, or the reference kernel's where it gives none.
pub open spec fn is_swiglu_f32<A: Arith, B: Bank<A::Num>>(
    ar: &A,
    bank: &B,
    gate: &[A::Num],
    up: &[A::Num],
    out: Seq<A::Num>,
) -> bool {
    exists|dev: Option<Vec<A::Num>>| #[trigger]
        call_ensures(B::swiglu, (bank, gate, up), dev) && match dev {
            Some(v) => out == v@,
            None => kernel_ref::is_swiglu_table(ar, gate@, up@, out),
        }
}

/// `silu(gate) * up`, element by element.
pub fn swiglu_f32<A: Arith, B: Bank<A::Num>>(
    ar: &A,
    bank: &B,
    gate: &[A::Num],
    up: &[A::Num],
) -> (r: Vec<A::Num>)
    requires
        gate@.len() == up@.len(),
    ensures
        is_swiglu_f32(ar, bank, gate, up, r@),
{
    let dev = bank.swiglu(gate, up);
    assert(call_ensures(B::swiglu, (bank, gate, up), dev));
    match dev {
        Some(out) => out,
        None => kernel_ref::swiglu_fused(ar, gate, up),
    }
}

/// `silu(gate) * up` on tensors, which must have the same shape.
pub fn swiglu_tensors<A: Arith, B: Bank<A::Num>>(
    ar: &A,
    bank: &B,
    gate: &DenseTensor<A::Num>,
    up: &DenseTensor<A::Num>,
) -> (r: Result<DenseTensor<A::Num>, DispatchError>)
    requires
        gate@.wf(),
        up@.wf(),
    ensures
        if gate.dims@ != up.dims@ {
            r == Err::<DenseTensor<A::Num>, DispatchError>(DispatchError::SwigluShape)
        } else {
            exists|g: &[A::Num], u: &[A::Num], out: Seq<A::Num>|
                {
                    &&& g@ == gate.data@
                    &&& u@ == up.data@
                    &&& #[trigger] is_swiglu_f32(ar, bank, g, u, out)
                    &&& result_model(r) == shaped(gate.dims@, out)
                }
        },
{
    if !tensor::same_dims(&gate.dims, &up.dims) {
        return Err(DispatchError::SwigluShape);
    }
    let g = gate.data.as_slice();
    let u = up.data.as_slice();
    let out = swiglu_f32(ar, bank, g, u);
    assert(is_swiglu_f32(ar, bank, g, u, out@));
    from_vec(out, copy_vec(&gate.dims))
}

/// A packed linear layer: the device's answer, or the reference kernel's where it gives none.
pub open spec fn is_linear_f32<A: Arith, B: Bank<A::Num>>(
    ar: &A,
    bank: &B,
    input: &[A::Num],
    pack: &TernaryPacked<A::Num>,
    bias: Option<&[A::Num]>,
    tokens: usize,
    out: Seq<A::Num>,
) -> bool {
    exists|dev: Option<Vec<A::Num>>| #[trigger]
        call_ensures(B::linear, (bank, input, pack, bias, tokens), dev) && match dev {
            Some(v) => out == v@,
            None => kernel_ref::is_linear(
                ar,
                input@,
                pack@,
                kernel_ref::held(bias),
                tokens as int,
                out,
            ),
        }
}

/// Applies a packed linear layer without a bias.
pub fn ternary_linear_f32<A: Arith, B: Bank<A::Num>>(
    ar: &A,
    bank: &B,
    input: &[A::Num],
    pack: &TernaryPacked<A::Num>,
    tokens: usize,
) -> (r: Vec<A::Num>)
    requires
        input@.len() >= tokens * pack.in_dim,
        kernel_ref::applicable(pack@, tokens as int),
    ensures
        is_linear_f32(ar, bank, input, pack, None, tokens, r@),
{
    packed_linear_f32(ar, bank, input, pack, None, tokens)
}

/// Applies a packed linear layer.
pub fn packed_linear_f32<A: Arith, B: Bank<A::Num>>(
    ar: &A,
    bank: &B,
    input: &[A::Num],
    pack: &TernaryPacked<A::Num>,
    bias: Option<&[A::Num]>,
    tokens: usize,
) -> (r: Vec<A::Num>)
    requires
        input@.len() >= tokens * pack.in_dim,
        kernel_ref::applicable(pack@, tokens as int),
        kernel_ref::bias_fits(kernel_ref::held(bias), pack@),
    ensures
        is_linear_f32(ar, bank, input, pack, bias, tokens, r@),
{
    let dev = bank.linear(input, pack, bias, tokens);
    assert(call_ensures(B::linear, (bank, input, pack, bias, tokens), dev));
    match dev {
        Some(out) => out,
        None => kernel_ref::linear_with_bias(ar, input, pack, bias, tokens),
    }
}

/// The last dimension, or 0 where there is none.
pub open spec fn last_dim(dims: Seq<usize>) -> usize {
    if dims.len() == 0 {
        0
    } else {
        dims.last()
    }
}

/// How many tokens of that width `count` elements make.
pub open spec fn token_count(count: nat, width: usize) -> int {
    count as int / (if width > 1 {
        width as int
    } else {
        1
    })
}

/// The dimensions with the last one replaced.
pub open spec fn with_last(dims: Seq<usize>, n: usize) -> Seq<usize> {
    if dims.len() == 0 {
        dims
    } else {
        dims.update(dims.len() - 1, n)
    }
}

fn last_of(dims: &Vec<usize>) -> (r: usize)
    ensures
        r == last_dim(dims@),
{
    if dims.len() == 0 {
        0
    } else {
        dims[dims.len() - 1]
    }
}

fn replace_last(dims: &Vec<usize>, n: usize) -> (r: Vec<usize>)
    ensures
        r@ == with_last(dims@, n),
{
    let mut out = copy_vec(dims);
    if out.len() > 0 {
        let at: usize = out.len() - 1;
        out.set(at, n);
    }
    out
}

fn tokens_of(count: usize, width: usize) -> (r: usize)
    ensures
        r == token_count(count as nat, width),
{
    if width > 1 {
        count / width
    } else {
        count
    }
}

proof fn last_dim_divides(dims: Seq<usize>)
    requires
        dims.len() > 0,
    ensures
        tensor::elem_count(dims) == token_count(tensor::elem_count(dims), last_dim(dims))
            * last_dim(dims),
{
    let p = tensor::elem_count(dims.drop_last()) as int;
    let w = dims.last() as int;
    let count = tensor::elem_count(dims) as int;
    assert(count == p * w);
    if w > 1 {
        vstd::arithmetic::div_mod::lemma_div_multiples_vanish(p, w);
        assert(p * w == w * p) by (nonlinear_arith);
    } else if w == 0 {
        assert(p * 0 == 0) by (nonlinear_arith);
        assert(count / 1 * 0 == 0) by (nonlinear_arith);
    } else {
        assert(w == 1);
        assert(count / 1 == count && count * 1 == count) by (nonlinear_arith);
    }
}

/// Why a packed linear layer does not take a tensor, if it does not.
pub open spec fn linear_refusal<N>(
    dims: Seq<usize>,
    pack: PackModel<N>,
    bias: Option<Seq<N>>,
) -> Option<DispatchError> {
    if last_dim(dims) != pack.in_dim {
        Some(DispatchError::InDim { tensor: last_dim(dims), pack: pack.in_dim })
    } else {
        match bias {
            Some(b) => if b.len() != pack.out_dim {
                Some(DispatchError::BiasLen { len: b.len() as usize, out_dim: pack.out_dim })
            } else {
                None
            },
            None => None,
        }
    }
}

/// A packed linear layer on a tensor.
pub open spec fn is_packed_linear<A: Arith, B: Bank<A::Num>>(
    ar: &A,
    bank: &B,
    xs: DenseModel<A::Num>,
    pack: TernaryPacked<A::Num>,
    bias: Option<Seq<A::Num>>,
    r: Result<DenseModel<A::Num>, DispatchError>,
) -> bool {
    match linear_refusal(xs.dims, pack@, bias) {
        Some(e) => r == Err::<DenseModel<A::Num>, DispatchError>(e),
        None => exists|input: &[A::Num], b: Option<&[A::Num]>, out: Seq<A::Num>|
            {
                &&& input@ == xs.data
                &&& kernel_ref::held(b) == bias
                &&& #[trigger] is_linear_f32(
                    ar,
                    bank,
                    input,
                    &pack,
                    b,
                    token_count(xs.data.len(), pack.in_dim) as usize,
                    out,
                )
                &&& r == shaped(with_last(xs.dims, pack.out_dim), out)
            },
    }
}

/// Applies a packed linear layer to a tensor whose last dimension is the input width.
pub fn packed_linear<A: Arith, B: Bank<A::Num>>(
    ar: &A,
    bank: &B,
    xs: &DenseTensor<A::Num>,
    pack: &TernaryPacked<A::Num>,
    bias: Option<&[A::Num]>,
) -> (r: Result<DenseTensor<A::Num>, DispatchError>)
    requires
        xs@.wf(),
        last_dim(xs.dims@) == pack.in_dim ==> kernel_ref::applicable(
            pack@,
            token_count(xs.data@.len(), pack.in_dim),
        ),
    ensures
        is_packed_linear(ar, bank, xs@, *pack, kernel_ref::held(bias), result_model(r)),
{
    let in_dim: usize = last_of(&xs.dims);
    if in_dim != pack.in_dim {
        return Err(DispatchError::InDim { tensor: in_dim, pack: pack.in_dim });
    }
    let tokens: usize = tokens_of(xs.data.len(), in_dim);
    if let Some(b) = bias {
        if b.len() != pack.out_dim {
            return Err(DispatchError::BiasLen { len: b.len(), out_dim: pack.out_dim });
        }
    }
    proof {
        if xs.dims@.len() > 0 {
            last_dim_divides(xs.dims@);
        } else {
            assert(tokens * 0 == 0) by (nonlinear_arith);
        }
    }
    let input = xs.data.as_slice();
    let out = packed_linear_f32(ar, bank, input, pack, bias, tokens);
    assert(is_linear_f32(
        ar,
        bank,
        input,
        pack,
        bias,
        token_count(xs.data@.len(), pack.in_dim) as usize,
        out@,
    ));
    from_vec(out, replace_last(&xs.dims, pack.out_dim))
}

/// A tensor whose width is not zero comes out of the reference kernel in the shape that is
/// asked for: only its last dimension changes.
pub proof fn linear_keeps_leading_dims<N>(dims: Seq<usize>, out_dim: usize, out: Seq<N>)
    requires
        dims.len() > 0,
        last_dim(dims) > 0,
        out.len() == token_count(tensor::elem_count(dims), last_dim(dims)) * out_dim,
    ensures
        shaped(with_last(dims, out_dim), out) is Ok,
{
    let p = tensor::elem_count(dims.drop_last()) as int;
    let w = dims.last() as int;
    assert(with_last(dims, out_dim).drop_last() =~= dims.drop_last());
    assert(tensor::elem_count(dims) == p * w);
    vstd::arithmetic::div_mod::lemma_div_multiples_vanish(p, w);
    assert(p * w == w * p) by (nonlinear_arith);
    if w == 1 {
        assert(p * 1 == p) by (nonlinear_arith);
    }
}

/// The weights of a linear layer as the tensor library holds them.
#[derive(Debug, Clone)]
pub struct Linear<N> {
    pub weight: DenseTensor<N>,
    pub bias: Option<Vec<N>>,
}

/// The weights of a layer norm.
#[derive(Debug, Clone)]
pub struct Norm<N> {
    pub weight: Vec<N>,
    pub bias: Option<Vec<N>>,
}

/// What an optional vector holds.
pub open spec fn owned<N>(o: Option<Vec<N>>) -> Option<Seq<N>> {
    match o {
        Some(v) => Some(v@),
        None => None,
    }
}

/// An optional vector as an optional slice.
pub fn as_slices<'a, N>(o: &'a Option<Vec<N>>) -> (r: Option<&'a [N]>)
    ensures
        kernel_ref::held(r) == owned(*o),
{
    match o {
        Some(v) => Some(v.as_slice()),
        None => None,
    }
}

/// A linear layer plus packed weights, where it has been packed.
#[derive(Debug, Clone)]
pub struct MaybeTernaryLinear<N> {
    inner: Linear<N>,
    packed: Option<TernaryPacked<N>>,
}

impl<N> MaybeTernaryLinear<N> {
    /// The layer that was wrapped.
    pub closed spec fn lin(self) -> Linear<N> {
        self.inner
    }

    /// Its packed weights.
    pub closed spec fn pack(self) -> Option<TernaryPacked<N>> {
        self.packed
    }

    /// A layer that is not packed.
    pub fn new(inner: Linear<N>) -> (r: Self)
        ensures
            r.lin() == inner,
            r.pack() is None,
    {
        MaybeTernaryLinear { inner, packed: None }
    }

    /// The wrapped layer.
    pub fn inner(&self) -> (r: &Linear<N>)
        ensures
            *r == self.lin(),
    {
        &self.inner
    }

    /// The packed weights.
    pub fn packed(&self) -> (r: Option<&TernaryPacked<N>>)
        ensures
            match r {
                Some(p) => self.pack() == Some(*p),
                None => self.pack() is None,
            },
    {
        match &self.packed {
            Some(p) => Some(p),
            None => None,
        }
    }

    /// Whether the layer is packed.
    pub fn is_packed(&self) -> (r: bool)
        ensures
            r == (self.pack() is Some),
    {
        self.packed.is_some()
    }

    /// Packs the layer's own weights through `quantize`. A layer whose input width is not a
    /// multiple of four is left unpacked; weights that are no matrix are refused.
    pub fn pack_from_weight<Q>(&mut self, quantize: &Q) -> (r: Result<(), DispatchError>) where
        Q: Fn(&DenseTensor<N>) -> TernaryPacked<N>,

        requires
            call_requires(*quantize, (&old(self).lin().weight,)),
        ensures
            final(self).lin() == old(self).lin(),
            pack_result(old(self).lin().weight, *quantize, old(self).pack(), final(self).pack(), r),
    {
        let dims = &self.inner.weight.dims;
        if dims.len() != 2 {
            return Err(DispatchError::Rank { rank: dims.len() });
        }
        if dims[1] % 4 != 0 {
            self.packed = None;
            return Ok(());
        }
        self.packed = Some(quantize(&self.inner.weight));
        Ok(())
    }

    /// Sets the packed weights.
    pub fn set_packed(&mut self, pack: TernaryPacked<N>)
        ensures
            final(self).lin() == old(self).lin(),
            final(self).pack() == Some(pack),
    {
        self.packed = Some(pack);
    }
}

impl<N: Copy> MaybeTernaryLinear<N> {
    /// Takes the packed weights listed under `prefix.weight`, where there are any.
    pub fn apply_named(&mut self, prefix: &str, packs: &NameMap<TernaryPacked<N>>)
        requires
            packs.wf(),
        ensures
            final(self).lin() == old(self).lin(),
            pack_model(final(self).pack()) == named_pack(
                prefix@,
                named::modelled(packs@),
                pack_model(old(self).pack()),
            ),
    {
        let key = text::joined(prefix, ".weight");
        proof {
            named::modelled_found(packs@, key@);
        }
        if let Some(p) = packs.get(key.as_str()) {
            self.packed = Some(p.duplicate());
        }
    }
}

/// What an optional pack holds.
pub open spec fn pack_model<N>(p: Option<TernaryPacked<N>>) -> Option<PackModel<N>> {
    match p {
        Some(p) => Some(p@),
        None => None,
    }
}

/// The pack listed under `prefix.weight`, or `before` where there is none.
pub open spec fn named_pack<N>(
    prefix: Seq<char>,
    packs: Seq<(Seq<char>, PackModel<N>)>,
    before: Option<PackModel<N>>,
) -> Option<PackModel<N>> {
    match named::found(packs, prefix + ".weight"@) {
        Some(p) => Some(p),
        None => before,
    }
}

/// What packing a layer's own weights does: refused where they are no matrix, unpacked where
/// the width is not a multiple of four, else packed by `quantize`.
pub open spec fn pack_result<N, Q>(
    weight: DenseTensor<N>,
    quantize: Q,
    before: Option<TernaryPacked<N>>,
    after: Option<TernaryPacked<N>>,
    r: Result<(), DispatchError>,
) -> bool where Q: Fn(&DenseTensor<N>) -> TernaryPacked<N> {
    if weight.dims@.len() != 2 {
        after == before && r == Err::<(), DispatchError>(
            DispatchError::Rank { rank: weight.dims@.len() as usize },
        )
    } else if weight.dims@[1] % 4 != 0 {
        after is None && r is Ok
    } else {
        r is Ok && after is Some && call_ensures(quantize, (&weight,), after->Some_0)
    }
}

/// The gated feed-forward layer: the device's answer, or the reference kernel's where it gives
/// none.
pub open spec fn is_swiglu_ffn_f32<A: Arith, B: Bank<A::Num>>(
    ar: &A,
    bank: &B,
    xs: &[A::Num],
    tokens: usize,
    gate: &TernaryPacked<A::Num>,
    gate_bias: Option<&[A::Num]>,
    value: &TernaryPacked<A::Num>,
    value_bias: Option<&[A::Num]>,
    down: &TernaryPacked<A::Num>,
    down_bias: Option<&[A::Num]>,
    out: Seq<A::Num>,
) -> bool {
    exists|dev: Option<Vec<A::Num>>| #[trigger]
        call_ensures(
            B::swiglu_ffn,
            (bank, xs, tokens, gate, gate_bias, value, value_bias, down, down_bias),
            dev,
        ) && match dev {
            Some(v) => out == v@,
            None => kernel_ref::is_swiglu_ffn(
                ar,
                xs@,
                tokens as int,
                gate@,
                kernel_ref::held(gate_bias),
                value@,
                kernel_ref::held(value_bias),
                down@,
                kernel_ref::held(down_bias),
                out,
            ),
        }
}

/// The projections of a gated feed-forward layer fit each other and the input.
pub open spec fn ffn_ready<N>(
    xs_len: int,
    tokens: int,
    gate: PackModel<N>,
    gate_bias: Option<Seq<N>>,
    value: PackModel<N>,
    value_bias: Option<Seq<N>>,
    down: PackModel<N>,
    down_bias: Option<Seq<N>>,
) -> bool {
    &&& xs_len == tokens * gate.in_dim
    &&& xs_len == tokens * value.in_dim
    &&& tokens * gate.out_dim == tokens * value.out_dim
    &&& tokens * gate.out_dim == tokens * down.in_dim
    &&& kernel_ref::applicable(gate, tokens)
    &&& kernel_ref::applicable(value, tokens)
    &&& kernel_ref::applicable(down, tokens)
    &&& kernel_ref::bias_fits(gate_bias, gate)
    &&& kernel_ref::bias_fits(value_bias, value)
    &&& kernel_ref::bias_fits(down_bias, down)
}

/// Applies a packed gated feed-forward layer.
pub fn packed_swiglu_ffn_f32<A: Arith, B: Bank<A::Num>>(
    ar: &A,
    bank: &B,
    xs: &[A::Num],
    tokens: usize,
    gate: &TernaryPacked<A::Num>,
    gate_bias: Option<&[A::Num]>,
    value: &TernaryPacked<A::Num>,
    value_bias: Option<&[A::Num]>,
    down: &TernaryPacked<A::Num>,
    down_bias: Option<&[A::Num]>,
) -> (r: Vec<A::Num>)
    requires
        ffn_ready(
            xs@.len() as int,
            tokens as int,
            gate@,
            kernel_ref::held(gate_bias),
            value@,
            kernel_ref::held(value_bias),
            down@,
            kernel_ref::held(down_bias),
        ),
    ensures
        is_swiglu_ffn_f32(
            ar,
            bank,
            xs,
            tokens,
            gate,
            gate_bias,
            value,
            value_bias,
            down,
            down_bias,
            r@,
        ),
{
    let dev = bank.swiglu_ffn(
        xs,
        tokens,
        gate,
        gate_bias,
        value,
        value_bias,
        down,
        down_bias,
    );
    assert(call_ensures(
        B::swiglu_ffn,
        (bank, xs, tokens, gate, gate_bias, value, value_bias, down, down_bias),
        dev,
    ));
    match dev {
        Some(out) => out,
        None => kernel_ref::packed_swiglu_ffn(
            ar,
            xs,
            tokens,
            gate,
            gate_bias,
            value,
            value_bias,
            down,
            down_bias,
        ),
    }
}

/// Why a packed feed-forward layer does not take a tensor, if it does not.
pub open spec fn ffn_refusal<N>(
    dims: Seq<usize>,
    gate: Option<TernaryPacked<N>>,
    value: Option<TernaryPacked<N>>,
    down: Option<TernaryPacked<N>>,
) -> Option<DispatchError> {
    if gate is None {
        Some(DispatchError::NotPacked { part: Part::Gate })
    } else if value is None {
        Some(DispatchError::NotPacked { part: Part::FfnValue })
    } else if down is None {
        Some(DispatchError::NotPacked { part: Part::Down })
    } else if last_dim(dims) != gate->Some_0.in_dim {
        Some(DispatchError::InDim { tensor: last_dim(dims), pack: gate->Some_0.in_dim })
    } else {
        None
    }
}

/// The projections of a packed feed-forward layer fit each other and the tensor, where it is
/// taken.
pub open spec fn ffn_fits<N>(
    xs: DenseTensor<N>,
    gate: MaybeTernaryLinear<N>,
    value: MaybeTernaryLinear<N>,
    down: MaybeTernaryLinear<N>,
) -> bool {
    ffn_refusal(xs.dims@, gate.pack(), value.pack(), down.pack()) is None ==> ffn_ready(
        xs.data@.len() as int,
        token_count(xs.data@.len(), last_dim(xs.dims@)),
        gate.pack()->Some_0@,
        owned(gate.lin().bias),
        value.pack()->Some_0@,
        owned(value.lin().bias),
        down.pack()->Some_0@,
        owned(down.lin().bias),
    )
}

/// A packed feed-forward layer on a tensor.
pub open spec fn is_packed_ffn<A: Arith, B: Bank<A::Num>>(
    ar: &A,
    bank: &B,
    xs: DenseTensor<A::Num>,
    gate: MaybeTernaryLinear<A::Num>,
    value: MaybeTernaryLinear<A::Num>,
    down: MaybeTernaryLinear<A::Num>,
    r: Result<DenseModel<A::Num>, DispatchError>,
) -> bool {
    match ffn_refusal(xs.dims@, gate.pack(), value.pack(), down.pack()) {
        Some(e) => r == Err::<DenseModel<A::Num>, DispatchError>(e),
        None => exists|
            input: &[A::Num],
            gb: Option<&[A::Num]>,
            vb: Option<&[A::Num]>,
            db: Option<&[A::Num]>,
            out: Seq<A::Num>,
        |
            {
                &&& input@ == xs.data@
                &&& kernel_ref::held(gb) == owned(gate.lin().bias)
                &&& kernel_ref::held(vb) == owned(value.lin().bias)
                &&& kernel_ref::held(db) == owned(down.lin().bias)
                &&& #[trigger] is_swiglu_ffn_f32(
                    ar,
                    bank,
                    input,
                    token_count(xs.data@.len(), last_dim(xs.dims@)) as usize,
                    &gate.pack()->Some_0,
                    gb,
                    &value.pack()->Some_0,
                    vb,
                    &down.pack()->Some_0,
                    db,
                    out,
                )
                &&& r == shaped(with_last(xs.dims@, down.pack()->Some_0.out_dim), out)
            },
    }
}

/// Applies a packed gated feed-forward layer to a tensor.
pub fn packed_swiglu_ffn<A: Arith, B: Bank<A::Num>>(
    ar: &A,
    bank: &B,
    xs: &DenseTensor<A::Num>,
    gate: &MaybeTernaryLinear<A::Num>,
    value: &MaybeTernaryLinear<A::Num>,
    down: &MaybeTernaryLinear<A::Num>,
) -> (r: Result<DenseTensor<A::Num>, DispatchError>)
    requires
        ffn_fits(*xs, *gate, *value, *down),
    ensures
        is_packed_ffn(ar, bank, *xs, *gate, *value, *down, result_model(r)),
{
    let gpack = match gate.packed() {
        Some(p) => p,
        None => {
            return Err(DispatchError::NotPacked { part: Part::Gate });
        },
    };
    let vpack = match value.packed() {
        Some(p) => p,
        None => {
            return Err(DispatchError::NotPacked { part: Part::FfnValue });
        },
    };
    let dpack = match down.packed() {
        Some(p) => p,
        None => {
            return Err(DispatchError::NotPacked { part: Part::Down });
        },
    };
    let in_dim: usize = last_of(&xs.dims);
    if in_dim != gpack.in_dim {
        return Err(DispatchError::InDim { tensor: in_dim, pack: gpack.in_dim });
    }
    let tokens: usize = tokens_of(xs.data.len(), in_dim);
    let gb = as_slices(&gate.inner().bias);
    let vb = as_slices(&value.inner().bias);
    let db = as_slices(&down.inner().bias);
    let input = xs.data.as_slice();
    let ghost t = token_count(xs.data@.len(), last_dim(xs.dims@)) as usize;
    let out = packed_swiglu_ffn_f32(ar, bank, input, tokens, gpack, gb, vpack, vb, dpack, db);
    assert(is_swiglu_ffn_f32(
        ar,
        bank,
        input,
        t,
        &gate.pack()->Some_0,
        gb,
        &value.pack()->Some_0,
        vb,
        &down.pack()->Some_0,
        db,
        out@,
    ));
    from_vec(out, replace_last(&xs.dims, dpack.out_dim))
}

/// Rotary angles: cosines and sines for `max_seq` positions, `half` to a position.
#[derive(Debug, Clone)]
pub struct RopeCache<N> {
    pub max_seq: usize,
    pub half: usize,
    pub cos: Vec<N>,
    pub sin: Vec<N>,
}

impl<N> RopeCache<N> {
    /// Every position has its angles.
    pub open spec fn wf(self) -> bool {
        self.cos@.len() == self.max_seq * self.half && self.sin@.len() == self.max_seq * self.half
    }
}

/// `b` copies of `m`, one after the other.
pub open spec fn repeated<N>(m: Seq<N>, b: int) -> Seq<N> {
    Seq::new((b * m.len()) as nat, |i: int| m[i % m.len() as int])
}

/// The mask of a batch: taken as it is where it covers the batch, repeated for each sequence
/// where it covers one, else refused.
pub open spec fn mask_for<N>(mask: Option<Seq<N>>, b: int, s: int) -> Result<
    Option<Seq<N>>,
    DispatchError,
> {
    match mask {
        None => Ok(None),
        Some(m) => if m.len() == b * s * s {
            Ok(Some(m))
        } else if m.len() == s * s {
            Ok(Some(repeated(m, b)))
        } else {
            Err(DispatchError::MaskLen { len: m.len() as usize })
        },
    }
}

fn expand_mask<N: Copy>(mask: Option<&[N]>, b: usize, s: usize) -> (r: Result<
    Option<Vec<N>>,
    DispatchError,
>)
    requires
        b * s * s <= usize::MAX,
        b * s <= usize::MAX,
        s * s <= usize::MAX,
    ensures
        match r {
            Ok(m) => mask_for(kernel_ref::held(mask), b as int, s as int) == Ok::<
                Option<Seq<N>>,
                DispatchError,
            >(owned(m)),
            Err(e) => mask_for(kernel_ref::held(mask), b as int, s as int) == Err::<
                Option<Seq<N>>,
                DispatchError,
            >(e),
        },
{
    let flat = match mask {
        Some(m) => m,
        None => {
            return Ok(None);
        },
    };
    if flat.len() == b * s * s {
        return Ok(Some(crate::copy::copy_slice(flat)));
    }
    if flat.len() != s * s {
        return Err(DispatchError::MaskLen { len: flat.len() });
    }
    let mut out: Vec<N> = Vec::new();
    let n: usize = flat.len();
    let mut bi: usize = 0;
    assert(0 * n == 0) by (nonlinear_arith);
    while bi < b
        invariant
            bi <= b,
            n == flat@.len(),
            out@.len() == bi * n,
            forall|i: int| 0 <= i < out@.len() ==> #[trigger] out@[i] == flat@[i % n as int],
        decreases b - bi,
    {
        let mut i: usize = 0;
        while i < n
            invariant
                i <= n,
                bi < b,
                n == flat@.len(),
                out@.len() == bi * n + i,
                forall|j: int| 0 <= j < out@.len() ==> #[trigger] out@[j] == flat@[j % n as int],
            decreases n - i,
        {
            proof {
                crate::grid::cell_place(b as int, n as int, bi as int, i as int);
            }
            out.push(flat[i]);
            i = i + 1;
        }
        assert((bi + 1) * n == bi * n + n) by (nonlinear_arith);
        bi = bi + 1;
    }
    assert(out@ =~= repeated(flat@, b as int));
    Ok(Some(out))
}

/// The projections, angles and mask of packed attention fit each other and the input, so that
/// the reference kernel can serve it.
pub open spec fn mha_fits<N>(
    xs_len: int,
    b: int,
    s: int,
    q: PackModel<N>,
    q_bias: Option<Seq<N>>,
    k: PackModel<N>,
    k_bias: Option<Seq<N>>,
    v: PackModel<N>,
    v_bias: Option<Seq<N>>,
    o: PackModel<N>,
    o_bias: Option<Seq<N>>,
    n_heads: int,
    n_kv: int,
    head_dim: int,
) -> bool {
    &&& b * s <= usize::MAX
    &&& b * n_heads * s <= usize::MAX
    &&& b * n_kv * s <= usize::MAX
    &&& kernel_ref::projects(xs_len, q, q_bias, b * s, n_heads, head_dim)
    &&& kernel_ref::projects(xs_len, k, k_bias, b * s, n_kv, head_dim)
    &&& kernel_ref::projects(xs_len, v, v_bias, b * s, n_kv, head_dim)
    &&& forall|hi: int|
        0 <= hi < n_heads ==> #[trigger] kernel_ref::kv_head(n_heads, n_kv, hi) < n_kv
    &&& b * s * n_heads * head_dim == b * s * o.in_dim
    &&& kernel_ref::applicable(o, b * s)
    &&& kernel_ref::bias_fits(o_bias, o)
}

/// The reference kernel can serve the call.
pub open spec fn mha_ready<N>(c: MhaCall<N>) -> bool {
    &&& mha_fits(
        c.xs@.len() as int,
        c.b as int,
        c.s as int,
        c.q@,
        kernel_ref::held(c.q_bias),
        c.k@,
        kernel_ref::held(c.k_bias),
        c.v@,
        kernel_ref::held(c.v_bias),
        c.o@,
        kernel_ref::held(c.o_bias),
        c.n_heads as int,
        c.n_kv as int,
        c.head_dim as int,
    )
    &&& c.rope_cos@.len() >= c.s * (c.head_dim / 2)
    &&& c.rope_sin@.len() >= c.s * (c.head_dim / 2)
    &&& match c.mask {
        Some(m) => m@.len() >= c.b * c.s * c.s,
        None => true,
    }
}

/// Packed multi-head attention: the device's answer, or the reference kernel's where it gives
/// none.
pub open spec fn is_mha_f32<A: Arith, B: Bank<A::Num>>(
    ar: &A,
    bank: &B,
    c: &MhaCall<A::Num>,
    out: Seq<A::Num>,
) -> bool {
    exists|dev: Option<Vec<A::Num>>| #[trigger]
        call_ensures(B::mha, (bank, c), dev) && match dev {
            Some(v) => out == v@,
            None => kernel_ref::is_mha(
                ar,
                c.xs@,
                c.b as int,
                c.s as int,
                c.q@,
                kernel_ref::held(c.q_bias),
                c.k@,
                kernel_ref::held(c.k_bias),
                c.v@,
                kernel_ref::held(c.v_bias),
                c.o@,
                kernel_ref::held(c.o_bias),
                c.n_heads as int,
                c.n_kv as int,
                c.head_dim as int,
                c.rope_cos@,
                c.rope_sin@,
                kernel_ref::held(c.mask),
                out,
            ),
        }
}

/// Applies packed multi-head attention.
pub fn packed_mha_f32<A: Arith, B: Bank<A::Num>>(ar: &A, bank: &B, c: &MhaCall<A::Num>) -> (r: Vec<
    A::Num,
>)
    requires
        mha_ready(*c),
    ensures
        is_mha_f32(ar, bank, c, r@),
{
    let dev = bank.mha(c);
    assert(call_ensures(B::mha, (bank, c), dev));
    match dev {
        Some(out) => out,
        None => kernel_ref::packed_mha(
            ar,
            c.xs,
            c.b,
            c.s,
            c.q,
            c.q_bias,
            c.k,
            c.k_bias,
            c.v,
            c.v_bias,
            c.o,
            c.o_bias,
            c.n_heads,
            c.n_kv,
            c.head_dim,
            c.rope_cos,
            c.rope_sin,
            c.mask,
        ),
    }
}

/// Why rotary angles do not serve a sequence of heads that wide, if they do not.
pub open spec fn rope_refusal<N>(rope: RopeCache<N>, s: usize, head_dim: usize) -> Option<
    DispatchError,
> {
    if s > rope.max_seq {
        Some(DispatchError::RopeRows { rows: rope.max_seq, seq: s })
    } else if s * rope.half < s * (head_dim / 2) {
        Some(DispatchError::RopeTooShort { seq: s })
    } else {
        None
    }
}

/// Why packed attention does not take a tensor, if it does not.
pub open spec fn mha_refusal<N>(
    dims: Seq<usize>,
    q: Option<TernaryPacked<N>>,
    k: Option<TernaryPacked<N>>,
    v: Option<TernaryPacked<N>>,
    o: Option<TernaryPacked<N>>,
    head_dim: usize,
    rope: RopeCache<N>,
    mask: Option<Seq<N>>,
) -> Option<DispatchError> {
    if dims.len() != 3 {
        Some(DispatchError::Rank { rank: dims.len() as usize })
    } else if q is None {
        Some(DispatchError::NotPacked { part: Part::Query })
    } else if k is None {
        Some(DispatchError::NotPacked { part: Part::Key })
    } else if v is None {
        Some(DispatchError::NotPacked { part: Part::Value })
    } else if o is None {
        Some(DispatchError::NotPacked { part: Part::Output })
    } else if rope_refusal(rope, dims[1], head_dim) is Some {
        rope_refusal(rope, dims[1], head_dim)
    } else {
        match mask_for(mask, dims[0] as int, dims[1] as int) {
            Ok(_) => None,
            Err(e) => Some(e),
        }
    }
}

/// `c` is the call that packed attention makes for a tensor of three dimensions.
pub open spec fn is_mha_call<N>(
    c: MhaCall<N>,
    xs: DenseTensor<N>,
    q: MaybeTernaryLinear<N>,
    k: MaybeTernaryLinear<N>,
    v: MaybeTernaryLinear<N>,
    o: MaybeTernaryLinear<N>,
    n_heads: usize,
    n_kv: usize,
    head_dim: usize,
    rope: RopeCache<N>,
    mask: Option<Seq<N>>,
) -> bool {
    let b = xs.dims@[0];
    let s = xs.dims@[1];
    &&& c.xs@ == xs.data@
    &&& c.b == b
    &&& c.s == s
    &&& Some(*c.q) == q.pack()
    &&& Some(*c.k) == k.pack()
    &&& Some(*c.v) == v.pack()
    &&& Some(*c.o) == o.pack()
    &&& kernel_ref::held(c.q_bias) == owned(q.lin().bias)
    &&& kernel_ref::held(c.k_bias) == owned(k.lin().bias)
    &&& kernel_ref::held(c.v_bias) == owned(v.lin().bias)
    &&& kernel_ref::held(c.o_bias) == owned(o.lin().bias)
    &&& c.n_heads == n_heads
    &&& c.n_kv == n_kv
    &&& c.head_dim == head_dim
    &&& c.rope_cos@ == rope.cos@.take(s * rope.half)
    &&& c.rope_sin@ == rope.sin@.take(s * rope.half)
    &&& mask_for(mask, b as int, s as int) == Ok::<Option<Seq<N>>, DispatchError>(
        kernel_ref::held(c.mask),
    )
}

fn copy_front<N: Copy>(v: &Vec<N>, n: usize) -> (r: Vec<N>)
    requires
        n <= v@.len(),
    ensures
        r@ == v@.take(n as int),
{
    let mut out: Vec<N> = Vec::new();
    let mut i: usize = 0;
    while i < n
        invariant
            i <= n <= v@.len(),
            out@ == v@.take(i as int),
        decreases n - i,
    {
        out.push(v[i]);
        assert(out@ =~= v@.take(i + 1));
        i = i + 1;
    }
    out
}

/// The angles of the first `s` positions, cosines and sines.
fn narrow_rope<N: Copy>(rope: &RopeCache<N>, s: usize, head_dim: usize) -> (r: Result<
    (Vec<N>, Vec<N>),
    DispatchError,
>)
    requires
        rope.wf(),
        s * (head_dim / 2) <= usize::MAX,
    ensures
        match r {
            Ok((c, n)) => rope_refusal(*rope, s, head_dim) is None && c@ == rope.cos@.take(
                s * rope.half,
            ) && n@ == rope.sin@.take(s * rope.half),
            Err(e) => rope_refusal(*rope, s, head_dim) == Some(e),
        },
{
    if s > rope.max_seq {
        return Err(DispatchError::RopeRows { rows: rope.max_seq, seq: s });
    }
    let total: usize = rope.cos.len();
    assert(s * rope.half <= rope.max_seq * rope.half) by (nonlinear_arith)
        requires
            s <= rope.max_seq,
    ;
    let n: usize = s * rope.half;
    if n < s * (head_dim / 2) {
        return Err(DispatchError::RopeTooShort { seq: s });
    }
    Ok((copy_front(&rope.cos, n), copy_front(&rope.sin, n)))
}

/// The sizes that packed attention multiplies fit a machine word.
pub open spec fn sizes_fit(b: int, s: int, head_dim: int) -> bool {
    &&& b * s <= usize::MAX
    &&& s * s <= usize::MAX
    &&& b * s * s <= usize::MAX
    &&& s * (head_dim / 2) <= usize::MAX
}

/// Angles, projections and mask of packed attention fit the tensor, where it is taken.
pub open spec fn mha_admitted<N>(
    xs: DenseTensor<N>,
    q: MaybeTernaryLinear<N>,
    k: MaybeTernaryLinear<N>,
    v: MaybeTernaryLinear<N>,
    o: MaybeTernaryLinear<N>,
    n_heads: usize,
    n_kv: usize,
    head_dim: usize,
    rope: RopeCache<N>,
    mask: Option<Seq<N>>,
) -> bool {
    &&& rope.wf()
    &&& xs.dims@.len() == 3 ==> sizes_fit(xs.dims@[0] as int, xs.dims@[1] as int, head_dim as int)
    &&& mha_refusal(
        xs.dims@,
        q.pack(),
        k.pack(),
        v.pack(),
        o.pack(),
        head_dim,
        rope,
        mask,
    ) is None ==> mha_fits(
        xs.data@.len() as int,
        xs.dims@[0] as int,
        xs.dims@[1] as int,
        q.pack()->Some_0@,
        owned(q.lin().bias),
        k.pack()->Some_0@,
        owned(k.lin().bias),
        v.pack()->Some_0@,
        owned(v.lin().bias),
        o.pack()->Some_0@,
        owned(o.lin().bias),
        n_heads as int,
        n_kv as int,
        head_dim as int,
    )
}

/// Packed attention on a tensor.
pub open spec fn is_packed_mha<A: Arith, B: Bank<A::Num>>(
    ar: &A,
    bank: &B,
    xs: DenseTensor<A::Num>,
    q: MaybeTernaryLinear<A::Num>,
    k: MaybeTernaryLinear<A::Num>,
    v: MaybeTernaryLinear<A::Num>,
    o: MaybeTernaryLinear<A::Num>,
    n_heads: usize,
    n_kv: usize,
    head_dim: usize,
    rope: RopeCache<A::Num>,
    mask: Option<Seq<A::Num>>,
    r: Result<DenseModel<A::Num>, DispatchError>,
) -> bool {
    match mha_refusal(
        xs.dims@,
        q.pack(),
        k.pack(),
        v.pack(),
        o.pack(),
        head_dim,
        rope,
        mask,
    ) {
        Some(e) => r == Err::<DenseModel<A::Num>, DispatchError>(e),
        None => exists|c: MhaCall<A::Num>, out: Seq<A::Num>|
            {
                &&& is_mha_call(c, xs, q, k, v, o, n_heads, n_kv, head_dim, rope, mask)
                &&& #[trigger] is_mha_f32(ar, bank, &c, out)
                &&& r == shaped(
                    seq![xs.dims@[0], xs.dims@[1], o.pack()->Some_0.out_dim],
                    out,
                )
            },
    }
}

/// Applies packed multi-head attention to a tensor of batch, sequence and width.
pub fn packed_mha<A: Arith, B: Bank<A::Num>>(
    ar: &A,
    bank: &B,
    xs: &DenseTensor<A::Num>,
    q: &MaybeTernaryLinear<A::Num>,
    k: &MaybeTernaryLinear<A::Num>,
    v: &MaybeTernaryLinear<A::Num>,
    o: &MaybeTernaryLinear<A::Num>,
    n_heads: usize,
    n_kv: usize,
    head_dim: usize,
    rope: &RopeCache<A::Num>,
    mask: Option<&[A::Num]>,
) -> (r: Result<DenseTensor<A::Num>, DispatchError>)
    requires
        mha_admitted(
            *xs,
            *q,
            *k,
            *v,
            *o,
            n_heads,
            n_kv,
            head_dim,
            *rope,
            kernel_ref::held(mask),
        ),
    ensures
        is_packed_mha(
            ar,
            bank,
            *xs,
            *q,
            *k,
            *v,
            *o,
            n_heads,
            n_kv,
            head_dim,
            *rope,
            kernel_ref::held(mask),
            result_model(r),
        ),
{
    if xs.dims.len() != 3 {
        return Err(DispatchError::Rank { rank: xs.dims.len() });
    }
    let b: usize = xs.dims[0];
    let s: usize = xs.dims[1];
    let qpack = match q.packed() {
        Some(p) => p,
        None => {
            return Err(DispatchError::NotPacked { part: Part::Query });
        },
    };
    let kpack = match k.packed() {
        Some(p) => p,
        None => {
            return Err(DispatchError::NotPacked { part: Part::Key });
        },
    };
    let vpack = match v.packed() {
        Some(p) => p,
        None => {
            return Err(DispatchError::NotPacked { part: Part::Value });
        },
    };
    let opack = match o.packed() {
        Some(p) => p,
        None => {
            return Err(DispatchError::NotPacked { part: Part::Output });
        },
    };
    let (cos, sin) = match narrow_rope(rope, s, head_dim) {
        Ok(v) => v,
        Err(e) => {
            return Err(e);
        },
    };
    let mask_v = match expand_mask(mask, b, s) {
        Ok(m) => m,
        Err(e) => {
            return Err(e);
        },
    };
    let call = MhaCall {
        xs: xs.data.as_slice(),
        b,
        s,
        q: qpack,
        q_bias: as_slices(&q.inner().bias),
        k: kpack,
        k_bias: as_slices(&k.inner().bias),
        v: vpack,
        v_bias: as_slices(&v.inner().bias),
        o: opack,
        o_bias: as_slices(&o.inner().bias),
        n_heads,
        n_kv,
        head_dim,
        rope_cos: cos.as_slice(),
        rope_sin: sin.as_slice(),
        mask: as_slices(&mask_v),
    };
    assert(is_mha_call(
        call,
        *xs,
        *q,
        *k,
        *v,
        *o,
        n_heads,
        n_kv,
        head_dim,
        *rope,
        kernel_ref::held(mask),
    ));
    proof {
        assert(s * rope.half <= rope.max_seq * rope.half) by (nonlinear_arith)
            requires
                s <= rope.max_seq,
        ;
        match mask {
            Some(m) => {
                assert(b * (s * s) == b * s * s) by (nonlinear_arith);
            },
            None => {},
        }
    }
    let out = packed_mha_f32(ar, bank, &call);
    assert(is_mha_f32(ar, bank, &call, out@));
    let dims: Vec<usize> = vec![b, s, opack.out_dim];
    assert(dims@ =~= seq![xs.dims@[0], xs.dims@[1], o.pack()->Some_0.out_dim]);
    from_vec(out, dims)
}

/// Why a packed stack does not take a tensor, if it does not.
pub open spec fn stack_refusal<N>(
    dims: Seq<usize>,
    layers: Seq<PackedLayerBufs<N>>,
    rope: RopeCache<N>,
    mask: Option<Seq<N>>,
) -> Option<DispatchError> {
    if dims.len() != 3 {
        Some(DispatchError::Rank { rank: dims.len() as usize })
    } else if layers.len() == 0 {
        Some(DispatchError::EmptyStack)
    } else if rope_refusal(rope, dims[1], layers[0].head_dim) is Some {
        rope_refusal(rope, dims[1], layers[0].head_dim)
    } else {
        match mask_for(mask, dims[0] as int, dims[1] as int) {
            Ok(_) => None,
            Err(e) => Some(e),
        }
    }
}

/// `c` is the call that a packed stack makes for a tensor of three dimensions.
pub open spec fn is_stack_call<N>(
    c: StackCall<N>,
    xs: DenseTensor<N>,
    layers: &Vec<PackedLayerBufs<N>>,
    rope: RopeCache<N>,
    mask: Option<Seq<N>>,
) -> bool {
    let b = xs.dims@[0];
    let s = xs.dims@[1];
    &&& c.xs@ == xs.data@
    &&& c.b == b
    &&& c.s == s
    &&& c.d == xs.dims@[2]
    &&& c.layers == layers
    &&& c.rope_cos@ == rope.cos@.take(s * rope.half)
    &&& c.rope_sin@ == rope.sin@.take(s * rope.half)
    &&& mask_for(mask, b as int, s as int) == Ok::<Option<Seq<N>>, DispatchError>(
        kernel_ref::held(c.mask),
    )
}

/// The sizes that a packed stack multiplies fit a machine word.
pub open spec fn stack_admitted<N>(
    xs: DenseTensor<N>,
    layers: Seq<PackedLayerBufs<N>>,
    rope: RopeCache<N>,
) -> bool {
    &&& rope.wf()
    &&& xs.dims@.len() == 3 && layers.len() > 0 ==> sizes_fit(
        xs.dims@[0] as int,
        xs.dims@[1] as int,
        layers[0].head_dim as int,
    )
}

/// A packed stack on a tensor: the device's answer.
pub open spec fn is_packed_stack<N, B: Bank<N>>(
    bank: &B,
    xs: DenseTensor<N>,
    layers: &Vec<PackedLayerBufs<N>>,
    rope: RopeCache<N>,
    mask: Option<Seq<N>>,
    r: Result<DenseModel<N>, DispatchError>,
) -> bool {
    match stack_refusal(xs.dims@, layers@, rope, mask) {
        Some(e) => r == Err::<DenseModel<N>, DispatchError>(e),
        None => exists|c: StackCall<N>, dev: Option<Vec<N>>|
            {
                &&& is_stack_call(c, xs, layers, rope, mask)
                &&& #[trigger] call_ensures(B::stack, (bank, &c), dev)
                &&& r == match dev {
                    Some(out) => shaped(xs.dims@, out@),
                    None => Err(DispatchError::Unavailable),
                }
            },
    }
}

/// Applies a stack of packed transformer blocks with the activations kept on the device. Only a
/// device can; without one the stack is unavailable.
pub fn packed_transformer_stack<'a, N: Copy, B: Bank<N>>(
    bank: &B,
    xs: &'a DenseTensor<N>,
    layers: &'a Vec<PackedLayerBufs<'a, N>>,
    rope: &RopeCache<N>,
    mask: Option<&[N]>,
) -> (r: Result<DenseTensor<N>, DispatchError>)
    requires
        stack_admitted(*xs, layers@, *rope),
    ensures
        is_packed_stack(bank, *xs, layers, *rope, kernel_ref::held(mask), result_model(r)),
{
    if xs.dims.len() != 3 {
        return Err(DispatchError::Rank { rank: xs.dims.len() });
    }
    let b: usize = xs.dims[0];
    let s: usize = xs.dims[1];
    if layers.len() == 0 {
        return Err(DispatchError::EmptyStack);
    }
    let (cos, sin) = match narrow_rope(rope, s, layers[0].head_dim) {
        Ok(v) => v,
        Err(e) => {
            return Err(e);
        },
    };
    let mask_v = match expand_mask(mask, b, s) {
        Ok(m) => m,
        Err(e) => {
            return Err(e);
        },
    };
    let call = StackCall {
        xs: xs.data.as_slice(),
        b,
        s,
        d: xs.dims[2],
        layers,
        rope_cos: cos.as_slice(),
        rope_sin: sin.as_slice(),
        mask: as_slices(&mask_v),
    };
    assert(is_stack_call(call, *xs, layers, *rope, kernel_ref::held(mask)));
    let dev = bank.stack(&call);
    assert(call_ensures(B::stack, (bank, &call), dev));
    match dev {
        Some(out) => from_vec(out, copy_vec(&xs.dims)),
        None => Err(DispatchError::Unavailable),
    }
}

/// The layers of the tensor library itself. Nothing is demanded of them beyond that they return.
pub trait Host<N> {
    type E;

    fn linear(&self, xs: &DenseTensor<N>, lin: &Linear<N>) -> Result<DenseTensor<N>, Self::E>;

    fn layer_norm(&self, xs: &DenseTensor<N>, ln: &Norm<N>) -> Result<DenseTensor<N>, Self::E>;
}

/// Why a layer failed.
#[derive(Debug, Clone, Copy)]
pub enum LayerError<E> {
    Dispatch(DispatchError),
    Host(E),
}

/// The bias of a norm, or as many zeros as it has columns.
pub open spec fn norm_bias<N>(ln: Norm<N>, cols: usize, zero: N) -> Seq<N> {
    match ln.bias {
        Some(b) => b@,
        None => Seq::new(cols as nat, |i: int| zero),
    }
}

fn norm_bias_of<N: Copy>(ln: &Norm<N>, cols: usize, zero: N) -> (r: Vec<N>)
    ensures
        r@ == norm_bias(*ln, cols, zero),
{
    match &ln.bias {
        Some(b) => copy_vec(b),
        None => {
            let mut v: Vec<N> = Vec::new();
            let mut i: usize = 0;
            while i < cols
                invariant
                    i <= cols,
                    v@ == Seq::new(i as nat, |k: int| zero),
                decreases cols - i,
            {
                v.push(zero);
                assert(v@ =~= Seq::new((i + 1) as nat, |k: int| zero));
                i = i + 1;
            }
            v
        },
    }
}

/// What the device answers to a norm over rows of that width.
pub open spec fn is_device_norm<N, B: Bank<N>>(
    bank: &B,
    xs: Seq<N>,
    ln: Norm<N>,
    zero: N,
    cols: usize,
    dev: Option<Vec<N>>,
) -> bool {
    exists|input: &[N], gamma: &[N], beta: &[N]|
        {
            &&& #[trigger] call_ensures(
                B::layer_norm,
                (bank, input, gamma, beta, (xs.len() / cols as nat) as usize, cols),
                dev,
            )
            &&& input@ == xs
            &&& gamma@ == ln.weight@
            &&& beta@ == norm_bias(ln, cols, zero)
        }
}

/// What a host result holds.
pub open spec fn host_model<N, E>(r: Result<DenseTensor<N>, E>) -> Result<
    DenseModel<N>,
    LayerError<E>,
> {
    match r {
        Ok(t) => Ok(t@),
        Err(e) => Err(LayerError::Host(e)),
    }
}

/// What a layer's result holds.
pub open spec fn layer_model<N, E>(r: Result<DenseTensor<N>, LayerError<E>>) -> Result<
    DenseModel<N>,
    LayerError<E>,
> {
    match r {
        Ok(t) => Ok(t@),
        Err(e) => Err(e),
    }
}

/// A dispatch result as a layer's result.
pub open spec fn dispatched<N, E>(r: Result<DenseModel<N>, DispatchError>) -> Result<
    DenseModel<N>,
    LayerError<E>,
> {
    match r {
        Ok(t) => Ok(t),
        Err(e) => Err(LayerError::Dispatch(e)),
    }
}

/// The layer norm of the host.
pub open spec fn is_host_norm<N, H: Host<N>>(
    host: &H,
    xs: &DenseTensor<N>,
    ln: &Norm<N>,
    r: Result<DenseModel<N>, LayerError<H::E>>,
) -> bool {
    exists|h: Result<DenseTensor<N>, H::E>| #[trigger]
        call_ensures(H::layer_norm, (host, xs, ln), h) && r == host_model(h)
}

fn host_norm<N, H: Host<N>>(host: &H, xs: &DenseTensor<N>, ln: &Norm<N>) -> (r: Result<
    DenseTensor<N>,
    LayerError<H::E>,
>)
    ensures
        is_host_norm(host, xs, ln, layer_model(r)),
{
    let h = host.layer_norm(xs, ln);
    assert(call_ensures(H::layer_norm, (host, xs, ln), h));
    match h {
        Ok(t) => Ok(t),
        Err(e) => Err(LayerError::Host(e)),
    }
}

/// The device's answer to a layer norm: none where the tensor does not split into rows or the
/// device gives none.
pub open spec fn is_device_answer<N, B: Bank<N>>(
    bank: &B,
    xs: DenseTensor<N>,
    ln: Norm<N>,
    zero: N,
    r: Option<Result<DenseModel<N>, DispatchError>>,
) -> bool {
    let cols = last_dim(xs.dims@);
    if cols > 0 && xs.data@.len() % cols as nat == 0 {
        exists|dev: Option<Vec<N>>| #[trigger]
            is_device_norm(bank, xs.data@, ln, zero, cols, dev) && r == match dev {
                Some(v) => Some(shaped(xs.dims@, v@)),
                None => None,
            }
    } else {
        r is None
    }
}

/// What an optional tensor result holds.
pub open spec fn answer_model<N>(r: Option<Result<DenseTensor<N>, DispatchError>>) -> Option<
    Result<DenseModel<N>, DispatchError>,
> {
    match r {
        Some(r) => Some(result_model(r)),
        None => None,
    }
}

/// Normalizes the rows of a tensor on the device, where it can.
pub fn device_norm<N: Copy, B: Bank<N>>(
    bank: &B,
    xs: &DenseTensor<N>,
    ln: &Norm<N>,
    zero: N,
) -> (r: Option<Result<DenseTensor<N>, DispatchError>>)
    ensures
        is_device_answer(bank, *xs, *ln, zero, answer_model(r)),
{
    let cols: usize = last_of(&xs.dims);
    let count: usize = xs.data.len();
    if cols > 0 && count % cols == 0 {
        let rows: usize = count / cols;
        let beta = norm_bias_of(ln, cols, zero);
        let input = xs.data.as_slice();
        let gamma = ln.weight.as_slice();
        let b = beta.as_slice();
        let dev = bank.layer_norm(input, gamma, b, rows, cols);
        assert(call_ensures(
            B::layer_norm,
            (bank, input, gamma, b, (xs.data@.len() / cols as nat) as usize, cols),
            dev,
        ));
        assert(is_device_norm(bank, xs.data@, *ln, zero, cols, dev));
        match dev {
            Some(out) => Some(from_vec(out, copy_vec(&xs.dims))),
            None => None,
        }
    } else {
        None
    }
}

/// A layer norm: the device's answer where the tensor splits into rows and the device gives one,
/// else the host's.
pub open spec fn is_norm<N, B: Bank<N>, H: Host<N>>(
    bank: &B,
    host: &H,
    xs: &DenseTensor<N>,
    ln: &Norm<N>,
    zero: N,
    r: Result<DenseModel<N>, LayerError<H::E>>,
) -> bool {
    exists|dev: Option<Result<DenseModel<N>, DispatchError>>| #[trigger]
        is_device_answer(bank, *xs, *ln, zero, dev) && match dev {
            Some(q) => r == dispatched::<N, H::E>(q),
            None => is_host_norm(host, xs, ln, r),
        }
}

/// Normalizes the rows of a tensor, on the device where it can.
pub fn layer_norm_module<N: Copy, B: Bank<N>, H: Host<N>>(
    bank: &B,
    host: &H,
    xs: &DenseTensor<N>,
    ln: &Norm<N>,
    zero: N,
) -> (r: Result<DenseTensor<N>, LayerError<H::E>>)
    ensures
        is_norm(bank, host, xs, ln, zero, layer_model(r)),
{
    match device_norm(bank, xs, ln, zero) {
        Some(Ok(t)) => Ok(t),
        Some(Err(e)) => Err(LayerError::Dispatch(e)),
        None => host_norm(host, xs, ln),
    }
}

/// A linear layer of the host.
pub open spec fn is_host_linear<N, H: Host<N>>(
    host: &H,
    xs: &DenseTensor<N>,
    lin: &Linear<N>,
    r: Result<DenseModel<N>, LayerError<H::E>>,
) -> bool {
    exists|h: Result<DenseTensor<N>, H::E>| #[trigger]
        call_ensures(H::linear, (host, xs, lin), h) && r == host_model(h)
}

/// A layer takes a tensor: its packed weights can be applied to it, where it has any.
pub open spec fn takes<N>(xs: DenseTensor<N>, pack: Option<TernaryPacked<N>>) -> bool {
    match pack {
        Some(p) => {
            &&& xs@.wf()
            &&& last_dim(xs.dims@) == p.in_dim ==> kernel_ref::applicable(
                p@,
                token_count(xs.data@.len(), p.in_dim),
            )
        },
        None => true,
    }
}

/// A linear layer: the packed kernels where it is packed, else the host's layer.
pub open spec fn is_maybe_ternary<A: Arith, B: Bank<A::Num>, H: Host<A::Num>>(
    ar: &A,
    bank: &B,
    host: &H,
    xs: &DenseTensor<A::Num>,
    lin: &Linear<A::Num>,
    pack: Option<TernaryPacked<A::Num>>,
    r: Result<DenseModel<A::Num>, LayerError<H::E>>,
) -> bool {
    match pack {
        Some(p) => exists|q: Result<DenseModel<A::Num>, DispatchError>| #[trigger]
            is_packed_linear(ar, bank, xs@, p, owned(lin.bias), q) && r == dispatched::<
                A::Num,
                H::E,
            >(q),
        None => is_host_linear(host, xs, lin, r),
    }
}

/// Applies a linear layer.
pub fn linear_maybe_ternary<A: Arith, B: Bank<A::Num>, H: Host<A::Num>>(
    ar: &A,
    bank: &B,
    host: &H,
    xs: &DenseTensor<A::Num>,
    lin: &Linear<A::Num>,
    packed: Option<&TernaryPacked<A::Num>>,
) -> (r: Result<DenseTensor<A::Num>, LayerError<H::E>>)
    requires
        packed matches Some(p) ==> takes(*xs, Some(*p)),
    ensures
        is_maybe_ternary(
            ar,
            bank,
            host,
            xs,
            lin,
            match packed {
                Some(p) => Some(*p),
                None => None,
            },
            layer_model(r),
        ),
{
    match packed {
        Some(p) => {
            let bias = as_slices(&lin.bias);
            let out = packed_linear(ar, bank, xs, p, bias);
            assert(is_packed_linear(ar, bank, xs@, *p, owned(lin.bias), result_model(out)));
            match out {
                Ok(t) => Ok(t),
                Err(e) => Err(LayerError::Dispatch(e)),
            }
        },
        None => {
            let h = host.linear(xs, lin);
            assert(call_ensures(H::linear, (host, xs, lin), h));
            match h {
                Ok(t) => Ok(t),
                Err(e) => Err(LayerError::Host(e)),
            }
        },
    }
}

impl<N: Copy> MaybeTernaryLinear<N> {
    /// Applies the layer.
    pub fn forward<A: Arith<Num = N>, B: Bank<N>, H: Host<N>>(
        &self,
        ar: &A,
        bank: &B,
        host: &H,
        xs: &DenseTensor<N>,
    ) -> (r: Result<DenseTensor<N>, LayerError<H::E>>)
        requires
            takes(*xs, self.pack()),
        ensures
            is_maybe_ternary(ar, bank, host, xs, &self.lin(), self.pack(), layer_model(r)),
    {
        linear_maybe_ternary(ar, bank, host, xs, self.inner(), self.packed())
    }
}

fn product3(a: usize, b: usize, c: usize) -> (r: Option<usize>)
    ensures
        match r {
            Some(p) => p == a * b * c,
            None => a * b * c > usize::MAX,
        },
{
    if c == 0 {
        assert(a * b * 0 == 0) by (nonlinear_arith);
        return Some(0);
    }
    match a.checked_mul(b) {
        Some(ab) => ab.checked_mul(c),
        None => {
            assert(a * b * c >= a * b) by (nonlinear_arith)
                requires
                    c >= 1,
                    a * b >= 0,
            ;
            None
        },
    }
}

/// Whether a packed matrix can be applied to that many tokens.
pub fn can_apply<N>(pack: &TernaryPacked<N>, tokens: usize) -> (r: bool)
    ensures
        r == kernel_ref::applicable(pack@, tokens as int),
{
    let bytes: usize = pack.packed.len();
    let complete = match pack.out_dim.checked_mul(pack.in_dim / 4) {
        Some(n) => bytes >= n && pack.alphas.len() >= pack.out_dim,
        None => false,
    };
    (tokens == 0 || complete) && tokens.checked_mul(pack.out_dim).is_some()
}

fn bias_right<N>(lin: &MaybeTernaryLinear<N>, pack: &TernaryPacked<N>) -> (r: bool)
    ensures
        r == kernel_ref::bias_fits(owned(lin.lin().bias), pack@),
{
    match &lin.inner().bias {
        Some(b) => b.len() == pack.out_dim,
        None => true,
    }
}

/// Whether a tensor's elements fill its dimensions and the packed matrix can be applied to it.
pub fn linear_takes<N>(xs: &DenseTensor<N>, pack: &TernaryPacked<N>) -> (r: bool)
    ensures
        r == takes(*xs, Some(*pack)),
{
    let width: usize = last_of(&xs.dims);
    tensor::fills(&xs.dims, xs.data.len()) && (width != pack.in_dim || can_apply(
        pack,
        tokens_of(xs.data.len(), width),
    ))
}

/// Whether the projections of a packed feed-forward layer fit each other and the tensor, where
/// it is taken.
pub fn ffn_takes<N>(
    xs: &DenseTensor<N>,
    gate: &MaybeTernaryLinear<N>,
    value: &MaybeTernaryLinear<N>,
    down: &MaybeTernaryLinear<N>,
) -> (r: bool)
    ensures
        r == ffn_fits(*xs, *gate, *value, *down),
{
    match (gate.packed(), value.packed(), down.packed()) {
        (Some(g), Some(v), Some(d)) => {
            let width: usize = last_of(&xs.dims);
            if width != g.in_dim {
                return true;
            }
            let n: usize = xs.data.len();
            let tokens: usize = tokens_of(n, width);
            if !(can_apply(g, tokens) && can_apply(v, tokens) && can_apply(d, tokens)) {
                return false;
            }
            let hidden: usize = tokens * g.out_dim;
            tokens.checked_mul(g.in_dim) == Some(n) && tokens.checked_mul(v.in_dim) == Some(n)
                && hidden == tokens * v.out_dim && tokens.checked_mul(d.in_dim) == Some(hidden)
                && bias_right(gate, g) && bias_right(value, v) && bias_right(down, d)
        },
        _ => true,
    }
}

fn projects_right<N>(
    n: usize,
    lin: &MaybeTernaryLinear<N>,
    pack: &TernaryPacked<N>,
    tokens: usize,
    heads: usize,
    d: usize,
) -> (r: bool)
    ensures
        r == kernel_ref::projects(
            n as int,
            pack@,
            owned(lin.lin().bias),
            tokens as int,
            heads as int,
            d as int,
        ),
{
    if !(tokens.checked_mul(pack.in_dim) == Some(n) && can_apply(pack, tokens) && bias_right(
        lin,
        pack,
    )) {
        return false;
    }
    match product3(tokens, heads, d) {
        Some(need) => tokens * pack.out_dim >= need,
        None => false,
    }
}

fn heads_right(n_heads: usize, n_kv: usize) -> (r: bool)
    ensures
        r == (forall|hi: int|
            0 <= hi < n_heads ==> #[trigger] kernel_ref::kv_head(
                n_heads as int,
                n_kv as int,
                hi,
            ) < n_kv),
{
    let mut hi: usize = 0;
    while hi < n_heads
        invariant
            hi <= n_heads,
            forall|k: int|
                0 <= k < hi ==> #[trigger] kernel_ref::kv_head(n_heads as int, n_kv as int, k)
                    < n_kv,
        decreases n_heads - hi,
    {
        if kernel_ref::kv_head_of(n_heads, n_kv, hi) >= n_kv {
            assert(!(kernel_ref::kv_head(n_heads as int, n_kv as int, hi as int) < n_kv));
            return false;
        }
        hi = hi + 1;
    }
    true
}

fn sizes_right(b: usize, s: usize, head_dim: usize) -> (r: bool)
    ensures
        r == sizes_fit(b as int, s as int, head_dim as int),
{
    b.checked_mul(s).is_some() && s.checked_mul(s).is_some() && product3(b, s, s).is_some()
        && s.checked_mul(head_dim / 2).is_some()
}

fn rope_right<N>(rope: &RopeCache<N>) -> (r: bool)
    ensures
        r == rope.wf(),
{
    rope.max_seq.checked_mul(rope.half) == Some(rope.cos.len()) && rope.cos.len()
        == rope.sin.len()
}

fn rope_serves<N>(rope: &RopeCache<N>, s: usize, head_dim: usize) -> (r: bool)
    requires
        rope.wf(),
        s * (head_dim / 2) <= usize::MAX,
    ensures
        r == (rope_refusal(*rope, s, head_dim) is None),
{
    if s > rope.max_seq {
        return false;
    }
    let total: usize = rope.cos.len();
    assert(s * rope.half <= rope.max_seq * rope.half) by (nonlinear_arith)
        requires
            s <= rope.max_seq,
    ;
    s * rope.half >= s * (head_dim / 2)
}

fn mask_serves<N>(mask: Option<&[N]>, b: usize, s: usize) -> (r: bool)
    requires
        b * s <= usize::MAX,
        s * s <= usize::MAX,
        b * s * s <= usize::MAX,
    ensures
        r == (mask_for(kernel_ref::held(mask), b as int, s as int) is Ok),
{
    match mask {
        Some(m) => m.len() == b * s * s || m.len() == s * s,
        None => true,
    }
}

/// Packed attention can be run on the tensor or says why it does not take it: its operands fit
/// each other, and a machine word holds their sizes.
pub open spec fn mha_served<N>(
    xs: DenseTensor<N>,
    q: MaybeTernaryLinear<N>,
    k: MaybeTernaryLinear<N>,
    v: MaybeTernaryLinear<N>,
    o: MaybeTernaryLinear<N>,
    n_heads: usize,
    n_kv: usize,
    head_dim: usize,
    rope: RopeCache<N>,
    mask: Option<Seq<N>>,
) -> bool {
    &&& mha_admitted(xs, q, k, v, o, n_heads, n_kv, head_dim, rope, mask)
    &&& mha_refusal(
        xs.dims@,
        q.pack(),
        k.pack(),
        v.pack(),
        o.pack(),
        head_dim,
        rope,
        mask,
    ) is None ==> xs.dims@[0] * xs.dims@[1] * o.pack()->Some_0.in_dim <= usize::MAX
}

/// Whether angles, projections and mask of packed attention fit the tensor, where it is taken.
pub fn mha_takes<N>(
    xs: &DenseTensor<N>,
    q: &MaybeTernaryLinear<N>,
    k: &MaybeTernaryLinear<N>,
    v: &MaybeTernaryLinear<N>,
    o: &MaybeTernaryLinear<N>,
    n_heads: usize,
    n_kv: usize,
    head_dim: usize,
    rope: &RopeCache<N>,
    mask: Option<&[N]>,
) -> (r: bool)
    ensures
        r == mha_served(
            *xs,
            *q,
            *k,
            *v,
            *o,
            n_heads,
            n_kv,
            head_dim,
            *rope,
            kernel_ref::held(mask),
        ),
{
    if !rope_right(rope) {
        return false;
    }
    if xs.dims.len() != 3 {
        return true;
    }
    let b: usize = xs.dims[0];
    let s: usize = xs.dims[1];
    if !sizes_right(b, s, head_dim) {
        return false;
    }
    match (q.packed(), k.packed(), v.packed(), o.packed()) {
        (Some(qp), Some(kp), Some(vp), Some(op)) => {
            if !rope_serves(rope, s, head_dim) || !mask_serves(mask, b, s) {
                return true;
            }
            let n: usize = xs.data.len();
            let tokens: usize = b * s;
            let joined = match (product3(tokens, n_heads, head_dim), tokens.checked_mul(op.in_dim)) {
                (Some(x), Some(y)) => x == y,
                _ => false,
            };
            joined && product3(b, n_heads, s).is_some() && product3(b, n_kv, s).is_some()
                && projects_right(n, q, qp, tokens, n_heads, head_dim) && projects_right(
                n,
                k,
                kp,
                tokens,
                n_kv,
                head_dim,
            ) && projects_right(n, v, vp, tokens, n_kv, head_dim) && heads_right(n_heads, n_kv)
                && can_apply(op, tokens) && bias_right(o, op)
        },
        _ => true,
    }
}

/// Whether the sizes that a packed stack multiplies fit a machine word.
pub fn stack_takes<N>(
    xs: &DenseTensor<N>,
    layers: &Vec<PackedLayerBufs<N>>,
    rope: &RopeCache<N>,
) -> (r: bool)
    ensures
        r == stack_admitted(*xs, layers@, *rope),
{
    rope_right(rope) && (xs.dims.len() != 3 || layers.len() == 0 || sizes_right(
        xs.dims[0],
        xs.dims[1],
        layers[0].head_dim,
    ))
}

/// `r` answers a packed linear layer on any tensor; operands that do not fit are refused.
pub open spec fn is_linear_answer<A: Arith, B: Bank<A::Num>>(
    ar: &A,
    bank: &B,
    xs: DenseTensor<A::Num>,
    pack: TernaryPacked<A::Num>,
    bias: Option<Seq<A::Num>>,
    r: Result<DenseModel<A::Num>, DispatchError>,
) -> bool {
    if takes(xs, Some(pack)) {
        is_packed_linear(ar, bank, xs@, pack, bias, r)
    } else {
        r == Err::<DenseModel<A::Num>, DispatchError>(DispatchError::Unfit)
    }
}

/// Applies a packed linear layer to any tensor.
pub fn answer_linear<A: Arith, B: Bank<A::Num>>(
    ar: &A,
    bank: &B,
    xs: &DenseTensor<A::Num>,
    pack: &TernaryPacked<A::Num>,
    bias: &Option<Vec<A::Num>>,
) -> (r: Result<DenseTensor<A::Num>, DispatchError>)
    ensures
        is_linear_answer(ar, bank, *xs, *pack, owned(*bias), result_model(r)),
{
    if linear_takes(xs, pack) {
        packed_linear(ar, bank, xs, pack, as_slices(bias))
    } else {
        Err(DispatchError::Unfit)
    }
}

/// `r` answers a packed feed-forward layer on any tensor; operands that do not fit are refused.
pub open spec fn is_ffn_answer<A: Arith, B: Bank<A::Num>>(
    ar: &A,
    bank: &B,
    xs: DenseTensor<A::Num>,
    gate: MaybeTernaryLinear<A::Num>,
    value: MaybeTernaryLinear<A::Num>,
    down: MaybeTernaryLinear<A::Num>,
    r: Result<DenseModel<A::Num>, DispatchError>,
) -> bool {
    if ffn_fits(xs, gate, value, down) {
        is_packed_ffn(ar, bank, xs, gate, value, down, r)
    } else {
        r == Err::<DenseModel<A::Num>, DispatchError>(DispatchError::Unfit)
    }
}

/// Applies a packed feed-forward layer to any tensor.
pub fn answer_ffn<A: Arith, B: Bank<A::Num>>(
    ar: &A,
    bank: &B,
    xs: &DenseTensor<A::Num>,
    gate: &MaybeTernaryLinear<A::Num>,
    value: &MaybeTernaryLinear<A::Num>,
    down: &MaybeTernaryLinear<A::Num>,
) -> (r: Result<DenseTensor<A::Num>, DispatchError>)
    ensures
        is_ffn_answer(ar, bank, *xs, *gate, *value, *down, result_model(r)),
{
    if ffn_takes(xs, gate, value, down) {
        packed_swiglu_ffn(ar, bank, xs, gate, value, down)
    } else {
        Err(DispatchError::Unfit)
    }
}

/// `r` answers packed attention on any tensor; operands that do not fit are refused.
pub open spec fn is_mha_answer<A: Arith, B: Bank<A::Num>>(
    ar: &A,
    bank: &B,
    xs: DenseTensor<A::Num>,
    q: MaybeTernaryLinear<A::Num>,
    k: MaybeTernaryLinear<A::Num>,
    v: MaybeTernaryLinear<A::Num>,
    o: MaybeTernaryLinear<A::Num>,
    n_heads: usize,
    n_kv: usize,
    head_dim: usize,
    rope: RopeCache<A::Num>,
    mask: Option<Seq<A::Num>>,
    r: Result<DenseModel<A::Num>, DispatchError>,
) -> bool {
    if mha_served(xs, q, k, v, o, n_heads, n_kv, head_dim, rope, mask) {
        is_packed_mha(ar, bank, xs, q, k, v, o, n_heads, n_kv, head_dim, rope, mask, r)
    } else {
        r == Err::<DenseModel<A::Num>, DispatchError>(DispatchError::Unfit)
    }
}

/// Applies packed attention to any tensor.
pub fn answer_mha<A: Arith, B: Bank<A::Num>>(
    ar: &A,
    bank: &B,
    xs: &DenseTensor<A::Num>,
    q: &MaybeTernaryLinear<A::Num>,
    k: &MaybeTernaryLinear<A::Num>,
    v: &MaybeTernaryLinear<A::Num>,
    o: &MaybeTernaryLinear<A::Num>,
    n_heads: usize,
    n_kv: usize,
    head_dim: usize,
    rope: &RopeCache<A::Num>,
    mask: Option<&[A::Num]>,
) -> (r: Result<DenseTensor<A::Num>, DispatchError>)
    ensures
        is_mha_answer(
            ar,
            bank,
            *xs,
            *q,
            *k,
            *v,
            *o,
            n_heads,
            n_kv,
            head_dim,
            *rope,
            kernel_ref::held(mask),
            result_model(r),
        ),
{
    if mha_takes(xs, q, k, v, o, n_heads, n_kv, head_dim, rope, mask) {
        packed_mha(ar, bank, xs, q, k, v, o, n_heads, n_kv, head_dim, rope, mask)
    } else {
        Err(DispatchError::Unfit)
    }
}

/// `r` answers a packed stack on any tensor; sizes that do not fit are refused.
pub open spec fn is_stack_answer<N, B: Bank<N>>(
    bank: &B,
    xs: DenseTensor<N>,
    layers: &Vec<PackedLayerBufs<N>>,
    rope: RopeCache<N>,
    mask: Option<Seq<N>>,
    r: Result<DenseModel<N>, DispatchError>,
) -> bool {
    if stack_admitted(xs, layers@, rope) {
        is_packed_stack(bank, xs, layers, rope, mask, r)
    } else {
        r == Err::<DenseModel<N>, DispatchError>(DispatchError::Unfit)
    }
}

/// Applies a packed stack to any tensor.
pub fn answer_stack<'a, N: Copy, B: Bank<N>>(
    bank: &B,
    xs: &'a DenseTensor<N>,
    layers: &'a Vec<PackedLayerBufs<'a, N>>,
    rope: &RopeCache<N>,
    mask: Option<&[N]>,
) -> (r: Result<DenseTensor<N>, DispatchError>)
    ensures
        is_stack_answer(bank, *xs, layers, *rope, kernel_ref::held(mask), result_model(r)),
{
    if stack_takes(xs, layers, rope) {
        packed_transformer_stack(bank, xs, layers, rope, mask)
    } else {
        Err(DispatchError::Unfit)
    }
}

} // verus!
