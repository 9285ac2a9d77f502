//! The shared network: its configuration, its tree of linear layers and the way a forward
//! pass is routed through them.

use crate::grid;
use crate::kernel_dispatch;
use crate::kernel_dispatch::{
    DispatchError, Linear, MaybeTernaryLinear, Norm, PackedLayerBufs, Part, RopeCache,
};
use crate::named;
use crate::named::NameMap;
use crate::quantize::{PackModel, TernaryPacked};
use crate::tensor::DenseTensor;
use crate::text;
use vstd::prelude::*;

verus! {

/// How positions are encoded.
#[derive(Debug, Clone, Copy, PartialEq, Eq, Structural)]
pub enum PositionalEncodingType {
    Rope,
    TwoDGrid,
    Learned1D,
    Absent,
}

/// Which kind of block the network stacks.
#[derive(Debug, Clone, Copy, PartialEq, Eq, Structural)]
pub enum NetworkVariant {
    Transformer,
    MlpMixer,
}

/// The shape of the network. `F` is the type of its fractional settings.
#[derive(Debug, Clone, Copy)]
pub struct NetworkConfig<F> {
    pub variant: NetworkVariant,
    pub dim: usize,
    pub num_heads: usize,
    pub num_kv_heads: Option<usize>,
    pub ffn_mult: F,
    pub max_seq_len: usize,
    pub num_layers: usize,
    pub vocab_size: usize,
    pub dropout_p: F,
    pub rope_base: F,
    pub tie_embeddings: bool,
    pub pos_enc: PositionalEncodingType,
    pub allow_non_standard_depth: bool,
    pub use_inplace_layernorm: bool,
    /// When true, linear layers whose input width is a multiple of four run packed.
    pub use_ternary_kernels: bool,
}

/// Why a configuration is refused.
#[derive(Debug, Clone, Copy, PartialEq, Eq, Structural)]
pub enum ConfigError {
    /// A depth other than two that was not asked for.
    Depth { num_layers: usize },
    /// The width is not a multiple of the heads.
    Heads,
    /// The heads are not a multiple of the key-value heads.
    KvHeads,
}

/// `n` rounded up to a multiple of eight.
pub open spec fn round_up_8(n: int) -> int {
    (n + 7) / 8 * 8
}

/// How many parameters a layer holds, norms and linear weights, for a feed-forward width of
/// `hidden`.
pub open spec fn layer_params<F>(cfg: NetworkConfig<F>, hidden: int) -> int {
    let d = cfg.dim as int;
    let mixing = match cfg.variant {
        NetworkVariant::Transformer => 4 * d * d,
        NetworkVariant::MlpMixer => 3 * cfg.max_seq_len * cfg.max_seq_len,
    };
    mixing + 3 * d * hidden + 4 * d
}

impl<F> NetworkConfig<F> {
    /// The standard configuration, with the fractional settings as given.
    pub fn standard(ffn_mult: F, dropout_p: F, rope_base: F) -> (r: Self)
        ensures
            r == (NetworkConfig {
                variant: NetworkVariant::Transformer,
                dim: 256,
                num_heads: 8,
                num_kv_heads: None,
                ffn_mult,
                max_seq_len: 900,
                num_layers: 2,
                vocab_size: 11,
                dropout_p,
                rope_base,
                tie_embeddings: true,
                pos_enc: PositionalEncodingType::Rope,
                allow_non_standard_depth: false,
                use_inplace_layernorm: true,
                use_ternary_kernels: false,
            }),
    {
        NetworkConfig {
            variant: NetworkVariant::Transformer,
            dim: 256,
            num_heads: 8,
            num_kv_heads: None,
            ffn_mult,
            max_seq_len: 900,
            num_layers: 2,
            vocab_size: 11,
            dropout_p,
            rope_base,
            tie_embeddings: true,
            pos_enc: PositionalEncodingType::Rope,
            allow_non_standard_depth: false,
            use_inplace_layernorm: true,
            use_ternary_kernels: false,
        }
    }

    /// Why the configuration is refused, if it is.
    pub open spec fn refusal(self) -> Option<ConfigError> {
        if !self.allow_non_standard_depth && self.num_layers != 2 {
            Some(ConfigError::Depth { num_layers: self.num_layers })
        } else if self.dim % self.num_heads != 0 {
            Some(ConfigError::Heads)
        } else {
            match self.num_kv_heads {
                Some(kv) => if self.num_heads % kv != 0 {
                    Some(ConfigError::KvHeads)
                } else {
                    None
                },
                None => None,
            }
        }
    }

    /// Checks the depth and that heads divide evenly.
    pub fn validate(&self) -> (r: Result<(), ConfigError>)
        requires
            self.allow_non_standard_depth || self.num_layers == 2 ==> {
                &&& self.num_heads > 0
                &&& self.dim % self.num_heads == 0 ==> self.num_kv_heads != Some(0usize)
            },
        ensures
            r == match self.refusal() {
                Some(e) => Err::<(), ConfigError>(e),
                None => Ok::<(), ConfigError>(()),
            },
    {
        if !self.allow_non_standard_depth && self.num_layers != 2 {
            return Err(ConfigError::Depth { num_layers: self.num_layers });
        }
        if self.dim % self.num_heads != 0 {
            return Err(ConfigError::Heads);
        }
        if let Some(kv) = self.num_kv_heads {
            if self.num_heads % kv != 0 {
                return Err(ConfigError::KvHeads);
            }
        }
        Ok(())
    }

    /// The width of a head.
    pub fn head_dim(&self) -> (r: usize)
        requires
            self.num_heads > 0,
        ensures
            r == self.dim / self.num_heads,
    {
        self.dim / self.num_heads
    }

    /// The hidden width of the feed-forward layer: the width times its factor, as `scale` rounds
    /// it, rounded up to a multiple of eight.
    pub fn ffn_hidden<S: Fn(usize, &F) -> usize>(&self, scale: &S) -> (r: usize)
        requires
            call_requires(*scale, (self.dim, &self.ffn_mult)),
            forall|raw: usize|
                call_ensures(*scale, (self.dim, &self.ffn_mult), raw) ==> raw + 7 <= usize::MAX,
        ensures
            exists|raw: usize| #[trigger]
                call_ensures(*scale, (self.dim, &self.ffn_mult), raw) && r == round_up_8(
                    raw as int,
                ),
            exists|raw: usize| #[trigger]
                call_ensures(*scale, (self.dim, &self.ffn_mult), raw) && r % 8 == 0 && raw <= r
                    < raw + 8,
    {
        let raw: usize = scale(self.dim, &self.ffn_mult);
        (raw + 7) / 8 * 8
    }

    /// How many key-value heads there are.
    pub fn kv_heads(&self) -> (r: usize)
        ensures
            r == match self.num_kv_heads {
                Some(kv) => kv,
                None => self.num_heads,
            },
    {
        match self.num_kv_heads {
            Some(kv) => kv,
            None => self.num_heads,
        }
    }

    /// An estimate of the parameters in the layers, for a feed-forward width of `hidden`.
    pub fn param_count_estimate(&self, hidden: usize) -> (r: usize)
        requires
            layer_params(*self, hidden as int) <= usize::MAX,
            layer_params(*self, hidden as int) * self.num_layers <= usize::MAX,
        ensures
            r == layer_params(*self, hidden as int) * self.num_layers,
    {
        let d: usize = self.dim;
        match self.variant {
            NetworkVariant::Transformer => {
                proof {
                    products_fit(d as int, d as int, hidden as int, 4);
                }
                let per_layer: usize = 4 * d * d + 3 * d * hidden + 4 * d;
                per_layer * self.num_layers
            },
            NetworkVariant::MlpMixer => {
                let s: usize = self.max_seq_len;
                proof {
                    products_fit(s as int, d as int, hidden as int, 3);
                }
                let per_layer: usize = 3 * s * s + 3 * d * hidden + 4 * d;
                per_layer * self.num_layers
            },
        }
    }
}

proof fn products_fit(s: int, d: int, h: int, k: int)
    requires
        0 <= s,
        0 <= d,
        0 <= h,
        1 <= k,
        k * s * s + 3 * d * h + 4 * d <= usize::MAX,
    ensures
        k * s <= usize::MAX,
        k * s * s <= usize::MAX,
        3 * d <= usize::MAX,
        3 * d * h <= usize::MAX,
        4 * d <= usize::MAX,
        k * s * s + 3 * d * h + 4 * d <= usize::MAX,
{
    let a = k * s * s;
    let b = 3 * d * h;
    assert(0 <= a && 0 <= b) by (nonlinear_arith)
        requires
            a == k * s * s,
            b == 3 * d * h,
            0 <= s,
            0 <= d,
            0 <= h,
            1 <= k,
    ;
    assert(k * s <= a || s == 0) by (nonlinear_arith)
        requires
            a == k * s * s,
            0 <= s,
            1 <= k,
    ;
    if s == 0 {
        assert(k * 0 == 0) by (nonlinear_arith);
    }
}

/// The rotary angles for `max_seq` positions of heads that wide; `angle` gives the cosine and
/// sine for position and pair.
pub fn build_rope_cache<N, G: Fn(usize, usize) -> (N, N)>(
    max_seq: usize,
    head_dim: usize,
    angle: &G,
) -> (r: RopeCache<N>)
    requires
        max_seq * (head_dim / 2) <= usize::MAX,
        forall|p: usize, i: usize|
            p < max_seq && i < head_dim / 2 ==> call_requires(*angle, (p, i)),
    ensures
        r.wf(),
        r.max_seq == max_seq,
        r.half == head_dim / 2,
        forall|p: int, i: int|
            0 <= p < max_seq && 0 <= i < head_dim / 2 ==> call_ensures(
                *angle,
                (p as usize, i as usize),
                (
                    #[trigger] grid::cell(r.cos@, r.half as int, p, i),
                    grid::cell(r.sin@, r.half as int, p, i),
                ),
            ),
{
    let half: usize = head_dim / 2;
    let mut cos: Vec<N> = Vec::new();
    let mut sin: Vec<N> = Vec::new();
    let mut p: usize = 0;
    assert(0 * half == 0) by (nonlinear_arith);
    while p < max_seq
        invariant
            p <= max_seq,
            half == head_dim / 2,
            forall|p: usize, i: usize|
                p < max_seq && i < head_dim / 2 ==> call_requires(*angle, (p, i)),
            cos@.len() == p * half,
            sin@.len() == p * half,
            forall|q: int, i: int|
                0 <= q < p && 0 <= i < half ==> call_ensures(
                    *angle,
                    (q as usize, i as usize),
                    (
                        #[trigger] grid::cell(cos@, half as int, q, i),
                        grid::cell(sin@, half as int, q, i),
                    ),
                ),
        decreases max_seq - p,
    {
        let mut i: usize = 0;
        while i < half
            invariant
                i <= half,
                p < max_seq,
                half == head_dim / 2,
                forall|p: usize, i: usize|
                    p < max_seq && i < head_dim / 2 ==> call_requires(*angle, (p, i)),
                cos@.len() == p * half + i,
                sin@.len() == p * half + i,
                forall|q: int, k: int|
                    ((0 <= q < p && 0 <= k < half) || (q == p && 0 <= k < i)) ==> call_ensures(
                        *angle,
                        (q as usize, k as usize),
                        (
                            #[trigger] grid::cell(cos@, half as int, q, k),
                            grid::cell(sin@, half as int, q, k),
                        ),
                    ),
            decreases half - i,
        {
            let (c, s) = angle(p, i);
            let ghost c0 = cos@;
            let ghost s0 = sin@;
            cos.push(c);
            sin.push(s);
            proof {
                assert forall|q: int, k: int|
                    ((0 <= q < p && 0 <= k < half) || (q == p && 0 <= k < i + 1)) implies
                    call_ensures(
                    *angle,
                    (q as usize, k as usize),
                    (
                        #[trigger] grid::cell(cos@, half as int, q, k),
                        grid::cell(sin@, half as int, q, k),
                    ),
                ) by {
                    grid::cell_place(p + 1, half as int, q, k);
                    if q < p {
                        grid::cell_place(p as int, half as int, q, k);
                    }
                    if q < p || k < i {
                        assert(grid::cell(cos@, half as int, q, k) == grid::cell(
                            c0,
                            half as int,
                            q,
                            k,
                        ));
                        assert(grid::cell(sin@, half as int, q, k) == grid::cell(
                            s0,
                            half as int,
                            q,
                            k,
                        ));
                    }
                }
            }
            i = i + 1;
        }
        assert((p + 1) * half == p * half + half) by (nonlinear_arith);
        p = p + 1;
    }
    RopeCache { max_seq, half, cos, sin }
}

/// `lin` is what `make` built under `prefix.leaf` for that input and output width.
pub open spec fn is_made<N, E, M>(
    make: M,
    prefix: Seq<char>,
    leaf: Seq<char>,
    in_dim: usize,
    out_dim: usize,
    r: Result<Linear<N>, E>,
) -> bool where M: Fn(&str, usize, usize) -> Result<Linear<N>, E> {
    exists|name: &str| #[trigger]
        call_ensures(make, (name, in_dim, out_dim), r) && name@ == prefix + leaf
}

/// `make` built a layer under `prefix.leaf` for that input and output width.
pub open spec fn was_made<N, E, M>(
    make: M,
    prefix: Seq<char>,
    leaf: Seq<char>,
    in_dim: usize,
    out_dim: usize,
) -> bool where M: Fn(&str, usize, usize) -> Result<Linear<N>, E> {
    exists|l: Linear<N>| #[trigger]
        is_made(make, prefix, leaf, in_dim, out_dim, Ok::<Linear<N>, E>(l))
}

fn make_linear<N, E, M>(
    make: &M,
    prefix: &str,
    leaf: &str,
    in_dim: usize,
    out_dim: usize,
) -> (r: Result<MaybeTernaryLinear<N>, E>) where M: Fn(&str, usize, usize) -> Result<Linear<N>, E>
    requires
        forall|name: &str, i: usize, o: usize| call_requires(*make, (name, i, o)),
    ensures
        match r {
            Ok(l) => l.pack() is None && is_made(
                *make,
                prefix@,
                leaf@,
                in_dim,
                out_dim,
                Ok::<Linear<N>, E>(l.lin()),
            ),
            Err(e) => is_made(*make, prefix@, leaf@, in_dim, out_dim, Err::<Linear<N>, E>(e)),
        },
{
    let name = text::joined(prefix, leaf);
    let made = make(name.as_str(), in_dim, out_dim);
    match made {
        Ok(lin) => {
            assert(is_made(*make, prefix@, leaf@, in_dim, out_dim, Ok::<Linear<N>, E>(lin)));
            Ok(MaybeTernaryLinear::new(lin))
        },
        Err(e) => {
            assert(is_made(*make, prefix@, leaf@, in_dim, out_dim, Err::<Linear<N>, E>(e)));
            Err(e)
        },
    }
}

/// The gated feed-forward layer.
pub struct SwiGluFfn<N> {
    pub gate: MaybeTernaryLinear<N>,
    pub value: MaybeTernaryLinear<N>,
    pub down: MaybeTernaryLinear<N>,
}

impl<N> SwiGluFfn<N> {
    /// Builds the three projections under `prefix`: gate and value from `dim` to `hidden`, down
    /// back to `dim`.
    pub fn new<E, M>(make: &M, prefix: &str, dim: usize, hidden: usize) -> (r: Result<
        Self,
        E,
    >) where M: Fn(&str, usize, usize) -> Result<Linear<N>, E>
        requires
            forall|name: &str, i: usize, o: usize| call_requires(*make, (name, i, o)),
        ensures
            r matches Ok(f) ==> is_ffn_made(*make, prefix@, dim, hidden, f),
            r matches Err(e) ==> is_ffn_fault(*make, prefix@, dim, hidden, e),
    {
        let gate = match make_linear(make, prefix, ".gate", dim, hidden) {
            Ok(l) => l,
            Err(e) => {
                return Err(e);
            },
        };
        let value = match make_linear(make, prefix, ".value", dim, hidden) {
            Ok(l) => l,
            Err(e) => {
                return Err(e);
            },
        };
        let down = match make_linear(make, prefix, ".down", hidden, dim) {
            Ok(l) => l,
            Err(e) => {
                return Err(e);
            },
        };
        Ok(SwiGluFfn { gate, value, down })
    }

    /// All three projections are packed.
    pub open spec fn all_packed(self) -> bool {
        self.gate.pack() is Some && self.value.pack() is Some && self.down.pack() is Some
    }

    /// How many of the projections are packed.
    pub open spec fn packed_count(self) -> int {
        packed_one(self.gate) + packed_one(self.value) + packed_one(self.down)
    }

    /// Whether the layer runs packed as a whole.
    pub fn is_packed(&self) -> (r: bool)
        ensures
            r == self.all_packed(),
    {
        self.gate.is_packed() && self.value.is_packed() && self.down.is_packed()
    }

    fn count_packed(&self) -> (r: usize)
        ensures
            r == self.packed_count(),
            r <= 3,
    {
        one_if(self.gate.is_packed()) + one_if(self.value.is_packed()) + one_if(
            self.down.is_packed(),
        )
    }

    /// Packs the three projections in turn; the first one that is refused ends it.
    pub fn pack_from_weights<Q>(&mut self, quantize: &Q) -> (r: Result<(), DispatchError>) where
        Q: Fn(&DenseTensor<N>) -> TernaryPacked<N>,

        requires
            forall|w: &DenseTensor<N>| call_requires(*quantize, (w,)),
        ensures
            ffn_packed(*old(self), *final(self), *quantize, r),
    {
        match self.gate.pack_from_weight(quantize) {
            Ok(()) => {},
            Err(e) => {
                return Err(e);
            },
        }
        match self.value.pack_from_weight(quantize) {
            Ok(()) => {},
            Err(e) => {
                return Err(e);
            },
        }
        self.down.pack_from_weight(quantize)
    }
}

impl<N: Copy> SwiGluFfn<N> {
    /// Takes the packed weights listed for the three projections under `prefix`.
    pub fn apply_ternary_packs(&mut self, prefix: &str, packs: &NameMap<TernaryPacked<N>>)
        requires
            packs.wf(),
        ensures
            ffn_applied(*old(self), *final(self), prefix@, named::modelled(packs@)),
    {
        self.gate.apply_named(text::joined(prefix, ".gate").as_str(), packs);
        self.value.apply_named(text::joined(prefix, ".value").as_str(), packs);
        self.down.apply_named(text::joined(prefix, ".down").as_str(), packs);
    }
}

/// 1 for a packed layer, 0 for another.
pub open spec fn packed_one<N>(l: MaybeTernaryLinear<N>) -> int {
    if l.pack() is Some {
        1
    } else {
        0
    }
}

fn one_if(b: bool) -> (r: usize)
    ensures
        r == if b {
            1int
        } else {
            0
        },
{
    if b {
        1
    } else {
        0
    }
}

/// One layer before and after packing its own weights.
pub open spec fn layer_packed<N, Q>(
    before: MaybeTernaryLinear<N>,
    after: MaybeTernaryLinear<N>,
    quantize: Q,
    r: Result<(), DispatchError>,
) -> bool where Q: Fn(&DenseTensor<N>) -> TernaryPacked<N> {
    &&& after.lin() == before.lin()
    &&& kernel_dispatch::pack_result(
        before.lin().weight,
        quantize,
        before.pack(),
        after.pack(),
        r,
    )
}

/// A feed-forward layer before and after packing: the projections in turn, up to the first that
/// is refused.
pub open spec fn ffn_packed<N, Q>(
    before: SwiGluFfn<N>,
    after: SwiGluFfn<N>,
    quantize: Q,
    r: Result<(), DispatchError>,
) -> bool where Q: Fn(&DenseTensor<N>) -> TernaryPacked<N> {
    let ok = Ok::<(), DispatchError>(());
    ||| {
        &&& r is Err
        &&& layer_packed(before.gate, after.gate, quantize, r)
        &&& after.value == before.value
        &&& after.down == before.down
    }
    ||| {
        &&& r is Err
        &&& layer_packed(before.gate, after.gate, quantize, ok)
        &&& layer_packed(before.value, after.value, quantize, r)
        &&& after.down == before.down
    }
    ||| {
        &&& layer_packed(before.gate, after.gate, quantize, ok)
        &&& layer_packed(before.value, after.value, quantize, ok)
        &&& layer_packed(before.down, after.down, quantize, r)
    }
}

/// One layer before and after packs have been applied under its name.
pub open spec fn layer_applied<N>(
    before: MaybeTernaryLinear<N>,
    after: MaybeTernaryLinear<N>,
    name: Seq<char>,
    packs: Seq<(Seq<char>, PackModel<N>)>,
) -> bool {
    &&& after.lin() == before.lin()
    &&& kernel_dispatch::pack_model(after.pack()) == kernel_dispatch::named_pack(
        name,
        packs,
        kernel_dispatch::pack_model(before.pack()),
    )
}

/// A feed-forward layer before and after packs have been applied under `prefix`.
pub open spec fn ffn_applied<N>(
    before: SwiGluFfn<N>,
    after: SwiGluFfn<N>,
    prefix: Seq<char>,
    packs: Seq<(Seq<char>, PackModel<N>)>,
) -> bool {
    &&& layer_applied(before.gate, after.gate, prefix + ".gate"@, packs)
    &&& layer_applied(before.value, after.value, prefix + ".value"@, packs)
    &&& layer_applied(before.down, after.down, prefix + ".down"@, packs)
}

/// Multi-head self-attention with shared key-value heads.
pub struct MultiHeadSelfAttention<N> {
    pub q_proj: MaybeTernaryLinear<N>,
    pub k_proj: MaybeTernaryLinear<N>,
    pub v_proj: MaybeTernaryLinear<N>,
    pub o_proj: MaybeTernaryLinear<N>,
    pub n_heads: usize,
    pub n_kv_heads: usize,
    pub head_dim: usize,
}

/// How many key-value heads a configuration has.
pub open spec fn kv_heads_of<F>(cfg: NetworkConfig<F>) -> usize {
    match cfg.num_kv_heads {
        Some(kv) => kv,
        None => cfg.num_heads,
    }
}

/// The width of the key and value projections.
pub open spec fn kv_width<F>(cfg: NetworkConfig<F>) -> int {
    kv_heads_of(cfg) * (cfg.dim / cfg.num_heads)
}

impl<N> MultiHeadSelfAttention<N> {
    /// Builds the four projections under `prefix`: query and output as wide as the network, key
    /// and value as wide as the key-value heads.
    pub fn new<F, E, M>(make: &M, prefix: &str, cfg: &NetworkConfig<F>) -> (r: Result<
        Self,
        E,
    >) where M: Fn(&str, usize, usize) -> Result<Linear<N>, E>
        requires
            cfg.num_heads > 0,
            kv_width(*cfg) <= usize::MAX,
            forall|name: &str, i: usize, o: usize| call_requires(*make, (name, i, o)),
        ensures
            r matches Ok(a) ==> is_attn_made(*make, prefix@, *cfg, a),
            r matches Err(e) ==> is_attn_fault(*make, prefix@, *cfg, e),
    {
        let kv: usize = cfg.kv_heads();
        let head_dim: usize = cfg.head_dim();
        let width: usize = kv * head_dim;
        let q_proj = match make_linear(make, prefix, ".q_proj", cfg.dim, cfg.dim) {
            Ok(l) => l,
            Err(e) => {
                return Err(e);
            },
        };
        let k_proj = match make_linear(make, prefix, ".k_proj", cfg.dim, width) {
            Ok(l) => l,
            Err(e) => {
                return Err(e);
            },
        };
        let v_proj = match make_linear(make, prefix, ".v_proj", cfg.dim, width) {
            Ok(l) => l,
            Err(e) => {
                return Err(e);
            },
        };
        let o_proj = match make_linear(make, prefix, ".o_proj", cfg.dim, cfg.dim) {
            Ok(l) => l,
            Err(e) => {
                return Err(e);
            },
        };
        Ok(
            MultiHeadSelfAttention {
                q_proj,
                k_proj,
                v_proj,
                o_proj,
                n_heads: cfg.num_heads,
                n_kv_heads: kv,
                head_dim,
            },
        )
    }

    /// All four projections are packed.
    pub open spec fn all_packed(self) -> bool {
        &&& self.q_proj.pack() is Some
        &&& self.k_proj.pack() is Some
        &&& self.v_proj.pack() is Some
        &&& self.o_proj.pack() is Some
    }

    /// How many of the projections are packed.
    pub open spec fn packed_count(self) -> int {
        packed_one(self.q_proj) + packed_one(self.k_proj) + packed_one(self.v_proj) + packed_one(
            self.o_proj,
        )
    }

    /// Whether attention runs packed.
    pub fn is_packed(&self) -> (r: bool)
        ensures
            r == self.all_packed(),
    {
        self.q_proj.is_packed() && self.k_proj.is_packed() && self.v_proj.is_packed()
            && self.o_proj.is_packed()
    }

    fn count_packed(&self) -> (r: usize)
        ensures
            r == self.packed_count(),
            r <= 4,
    {
        one_if(self.q_proj.is_packed()) + one_if(self.k_proj.is_packed()) + one_if(
            self.v_proj.is_packed(),
        ) + one_if(self.o_proj.is_packed())
    }

    /// Packs the four projections in turn; the first one that is refused ends it.
    pub fn pack_from_weights<Q>(&mut self, quantize: &Q) -> (r: Result<(), DispatchError>) where
        Q: Fn(&DenseTensor<N>) -> TernaryPacked<N>,

        requires
            forall|w: &DenseTensor<N>| call_requires(*quantize, (w,)),
        ensures
            attn_packed(*old(self), *final(self), *quantize, r),
    {
        match self.q_proj.pack_from_weight(quantize) {
            Ok(()) => {},
            Err(e) => {
                return Err(e);
            },
        }
        match self.k_proj.pack_from_weight(quantize) {
            Ok(()) => {},
            Err(e) => {
                return Err(e);
            },
        }
        match self.v_proj.pack_from_weight(quantize) {
            Ok(()) => {},
            Err(e) => {
                return Err(e);
            },
        }
        self.o_proj.pack_from_weight(quantize)
    }
}

impl<N: Copy> MultiHeadSelfAttention<N> {
    /// Takes the packed weights listed for the four projections under `prefix`.
    pub fn apply_ternary_packs(&mut self, prefix: &str, packs: &NameMap<TernaryPacked<N>>)
        requires
            packs.wf(),
        ensures
            attn_applied(*old(self), *final(self), prefix@, named::modelled(packs@)),
    {
        self.q_proj.apply_named(text::joined(prefix, ".q_proj").as_str(), packs);
        self.k_proj.apply_named(text::joined(prefix, ".k_proj").as_str(), packs);
        self.v_proj.apply_named(text::joined(prefix, ".v_proj").as_str(), packs);
        self.o_proj.apply_named(text::joined(prefix, ".o_proj").as_str(), packs);
    }
}

/// The head counts and widths stay.
pub open spec fn same_heads<N>(
    before: MultiHeadSelfAttention<N>,
    after: MultiHeadSelfAttention<N>,
) -> bool {
    &&& after.n_heads == before.n_heads
    &&& after.n_kv_heads == before.n_kv_heads
    &&& after.head_dim == before.head_dim
}

/// Attention before and after packing: the projections in turn, up to the first that is refused.
pub open spec fn attn_packed<N, Q>(
    before: MultiHeadSelfAttention<N>,
    after: MultiHeadSelfAttention<N>,
    quantize: Q,
    r: Result<(), DispatchError>,
) -> bool where Q: Fn(&DenseTensor<N>) -> TernaryPacked<N> {
    let ok = Ok::<(), DispatchError>(());
    &&& same_heads(before, after)
    &&& {
        ||| {
            &&& r is Err
            &&& layer_packed(before.q_proj, after.q_proj, quantize, r)
            &&& after.k_proj == before.k_proj
            &&& after.v_proj == before.v_proj
            &&& after.o_proj == before.o_proj
        }
        ||| {
            &&& r is Err
            &&& layer_packed(before.q_proj, after.q_proj, quantize, ok)
            &&& layer_packed(before.k_proj, after.k_proj, quantize, r)
            &&& after.v_proj == before.v_proj
            &&& after.o_proj == before.o_proj
        }
        ||| {
            &&& r is Err
            &&& layer_packed(before.q_proj, after.q_proj, quantize, ok)
            &&& layer_packed(before.k_proj, after.k_proj, quantize, ok)
            &&& layer_packed(before.v_proj, after.v_proj, quantize, r)
            &&& after.o_proj == before.o_proj
        }
        ||| {
            &&& layer_packed(before.q_proj, after.q_proj, quantize, ok)
            &&& layer_packed(before.k_proj, after.k_proj, quantize, ok)
            &&& layer_packed(before.v_proj, after.v_proj, quantize, ok)
            &&& layer_packed(before.o_proj, after.o_proj, quantize, r)
        }
    }
}

/// Attention before and after packs have been applied under `prefix`.
pub open spec fn attn_applied<N>(
    before: MultiHeadSelfAttention<N>,
    after: MultiHeadSelfAttention<N>,
    prefix: Seq<char>,
    packs: Seq<(Seq<char>, PackModel<N>)>,
) -> bool {
    &&& same_heads(before, after)
    &&& layer_applied(before.q_proj, after.q_proj, prefix + ".q_proj"@, packs)
    &&& layer_applied(before.k_proj, after.k_proj, prefix + ".k_proj"@, packs)
    &&& layer_applied(before.v_proj, after.v_proj, prefix + ".v_proj"@, packs)
    &&& layer_applied(before.o_proj, after.o_proj, prefix + ".o_proj"@, packs)
}

/// `norm` is what `make` built under `prefix.leaf` for that width.
pub open spec fn is_norm_made<N, E, M>(
    make: M,
    prefix: Seq<char>,
    leaf: Seq<char>,
    dim: usize,
    r: Result<Norm<N>, E>,
) -> bool where M: Fn(&str, usize) -> Result<Norm<N>, E> {
    exists|name: &str| #[trigger] call_ensures(make, (name, dim), r) && name@ == prefix + leaf
}

fn make_norm<N, E, M>(make: &M, prefix: &str, leaf: &str, dim: usize) -> (r: Result<
    Norm<N>,
    E,
>) where M: Fn(&str, usize) -> Result<Norm<N>, E>
    requires
        forall|name: &str, d: usize| call_requires(*make, (name, d)),
    ensures
        is_norm_made(*make, prefix@, leaf@, dim, r),
{
    let name = text::joined(prefix, leaf);
    let made = make(name.as_str(), dim);
    assert(is_norm_made(*make, prefix@, leaf@, dim, made));
    made
}

/// A transformer block: attention and a feed-forward layer, each behind a norm.
pub struct TransformerBlock<N> {
    pub ln_attn: Norm<N>,
    pub attn: MultiHeadSelfAttention<N>,
    pub ln_ffn: Norm<N>,
    pub ffn: SwiGluFfn<N>,
    pub use_inplace: bool,
}

/// A mixer block: a feed-forward layer over positions and one over channels.
pub struct MixerBlock<N> {
    pub ln_token: Norm<N>,
    pub token_ffn: SwiGluFfn<N>,
    pub ln_channel: Norm<N>,
    pub channel_ffn: SwiGluFfn<N>,
    pub seq_len: usize,
    pub use_inplace: bool,
}

/// What an optional vector holds, or as many zeros.
pub open spec fn bias_or_zeros<N>(bias: Option<Vec<N>>, n: nat, zero: N) -> Seq<N> {
    match bias {
        Some(b) => b@,
        None => Seq::new(n, |i: int| zero),
    }
}

fn copy_option<N: Copy>(o: &Option<Vec<N>>) -> (r: Option<Vec<N>>)
    ensures
        kernel_dispatch::owned(r) == kernel_dispatch::owned(*o),
{
    match o {
        Some(v) => Some(crate::copy::copy_vec(v)),
        None => None,
    }
}

fn ln_vecs<N: Copy>(ln: &Norm<N>, zero: N) -> (r: (Vec<N>, Vec<N>))
    ensures
        r.0@ == ln.weight@,
        r.1@ == bias_or_zeros(ln.bias, ln.weight@.len(), zero),
{
    let g = crate::copy::copy_vec(&ln.weight);
    let b = match &ln.bias {
        Some(v) => crate::copy::copy_vec(v),
        None => {
            let mut z: Vec<N> = Vec::new();
            let mut i: usize = 0;
            while i < ln.weight.len()
                invariant
                    i <= ln.weight@.len(),
                    z@ == Seq::new(i as nat, |k: int| zero),
                decreases ln.weight@.len() - i,
            {
                z.push(zero);
                assert(z@ =~= Seq::new((i + 1) as nat, |k: int| zero));
                i = i + 1;
            }
            z
        },
    };
    (g, b)
}

/// `bufs` holds the norms, biases and packs of the block.
pub open spec fn is_bufs<N>(b: TransformerBlock<N>, zero: N, bufs: PackedLayerBufs<N>) -> bool {
    &&& bufs.ln_attn_g@ == b.ln_attn.weight@
    &&& bufs.ln_attn_b@ == bias_or_zeros(b.ln_attn.bias, b.ln_attn.weight@.len(), zero)
    &&& bufs.ln_ffn_g@ == b.ln_ffn.weight@
    &&& bufs.ln_ffn_b@ == bias_or_zeros(b.ln_ffn.bias, b.ln_ffn.weight@.len(), zero)
    &&& Some(*bufs.q) == b.attn.q_proj.pack()
    &&& Some(*bufs.k) == b.attn.k_proj.pack()
    &&& Some(*bufs.v) == b.attn.v_proj.pack()
    &&& Some(*bufs.o) == b.attn.o_proj.pack()
    &&& Some(*bufs.gate) == b.ffn.gate.pack()
    &&& Some(*bufs.value) == b.ffn.value.pack()
    &&& Some(*bufs.down) == b.ffn.down.pack()
    &&& kernel_dispatch::owned(bufs.q_bias) == kernel_dispatch::owned(b.attn.q_proj.lin().bias)
    &&& kernel_dispatch::owned(bufs.k_bias) == kernel_dispatch::owned(b.attn.k_proj.lin().bias)
    &&& kernel_dispatch::owned(bufs.v_bias) == kernel_dispatch::owned(b.attn.v_proj.lin().bias)
    &&& kernel_dispatch::owned(bufs.o_bias) == kernel_dispatch::owned(b.attn.o_proj.lin().bias)
    &&& kernel_dispatch::owned(bufs.gate_bias) == kernel_dispatch::owned(b.ffn.gate.lin().bias)
    &&& kernel_dispatch::owned(bufs.value_bias) == kernel_dispatch::owned(b.ffn.value.lin().bias)
    &&& kernel_dispatch::owned(bufs.down_bias) == kernel_dispatch::owned(b.ffn.down.lin().bias)
    &&& bufs.n_heads == b.attn.n_heads
    &&& bufs.n_kv == b.attn.n_kv_heads
    &&& bufs.head_dim == b.attn.head_dim
}

/// `bufs` holds the norms, biases and packs of a block, which is a transformer block.
pub open spec fn is_block_bufs<N>(b: Block<N>, zero: N, bufs: PackedLayerBufs<N>) -> bool {
    match b {
        Block::Transformer(t) => is_bufs(t, zero, bufs),
        Block::Mixer(_) => false,
    }
}

/// The first layer of the block that is not packed.
pub open spec fn first_unpacked<N>(b: TransformerBlock<N>) -> Option<Part> {
    if b.attn.q_proj.pack() is None {
        Some(Part::Query)
    } else if b.attn.k_proj.pack() is None {
        Some(Part::Key)
    } else if b.attn.v_proj.pack() is None {
        Some(Part::Value)
    } else if b.attn.o_proj.pack() is None {
        Some(Part::Output)
    } else if b.ffn.gate.pack() is None {
        Some(Part::Gate)
    } else if b.ffn.value.pack() is None {
        Some(Part::FfnValue)
    } else if b.ffn.down.pack() is None {
        Some(Part::Down)
    } else {
        None
    }
}

impl<N> TransformerBlock<N> {
    /// Builds the block under `prefix` for that feed-forward width.
    pub fn new<F, E, M, L>(
        make: &M,
        make_ln: &L,
        prefix: &str,
        cfg: &NetworkConfig<F>,
        hidden: usize,
    ) -> (r: Result<Self, E>) where
        M: Fn(&str, usize, usize) -> Result<Linear<N>, E>,
        L: Fn(&str, usize) -> Result<Norm<N>, E>,

        requires
            cfg.num_heads > 0,
            kv_width(*cfg) <= usize::MAX,
            forall|name: &str, i: usize, o: usize| call_requires(*make, (name, i, o)),
            forall|name: &str, d: usize| call_requires(*make_ln, (name, d)),
        ensures
            r matches Ok(b) ==> is_block(*make, *make_ln, prefix@, *cfg, hidden, b),
            r matches Err(e) ==> is_block_fault(*make, *make_ln, prefix@, *cfg, hidden, e),
    {
        let ln_attn = match make_norm(make_ln, prefix, ".ln_attn", cfg.dim) {
            Ok(n) => n,
            Err(e) => {
                return Err(e);
            },
        };
        let attn = match MultiHeadSelfAttention::new(
            make,
            text::joined(prefix, ".attn").as_str(),
            cfg,
        ) {
            Ok(a) => a,
            Err(e) => {
                return Err(e);
            },
        };
        let ln_ffn = match make_norm(make_ln, prefix, ".ln_ffn", cfg.dim) {
            Ok(n) => n,
            Err(e) => {
                return Err(e);
            },
        };
        let ffn = match SwiGluFfn::new(
            make,
            text::joined(prefix, ".ffn").as_str(),
            cfg.dim,
            hidden,
        ) {
            Ok(f) => f,
            Err(e) => {
                return Err(e);
            },
        };
        Ok(TransformerBlock { ln_attn, attn, ln_ffn, ffn, use_inplace: cfg.use_inplace_layernorm })
    }

    /// Whether the block runs packed.
    pub fn is_packed(&self) -> (r: bool)
        ensures
            r == (self.attn.all_packed() && self.ffn.all_packed()),
    {
        self.attn.is_packed() && self.ffn.is_packed()
    }

    /// Packs attention, then the feed-forward layer.
    pub fn pack_from_weights<Q>(&mut self, quantize: &Q) -> (r: Result<(), DispatchError>) where
        Q: Fn(&DenseTensor<N>) -> TernaryPacked<N>,

        requires
            forall|w: &DenseTensor<N>| call_requires(*quantize, (w,)),
        ensures
            block_packed(*old(self), *final(self), *quantize, r),
    {
        match self.attn.pack_from_weights(quantize) {
            Ok(()) => {},
            Err(e) => {
                return Err(e);
            },
        }
        self.ffn.pack_from_weights(quantize)
    }
}

impl<N: Copy> TransformerBlock<N> {
    /// The norms, biases and packs of the block, refused at the first layer that is not packed.
    pub fn packed_layer_bufs(&self, zero: N) -> (r: Result<PackedLayerBufs<'_, N>, DispatchError>)
        ensures
            match r {
                Ok(bufs) => first_unpacked(*self) is None && is_bufs(*self, zero, bufs),
                Err(e) => first_unpacked(*self) matches Some(part) && e
                    == (DispatchError::NotPacked { part }),
            },
    {
        let q = match self.attn.q_proj.packed() {
            Some(p) => p,
            None => {
                return Err(DispatchError::NotPacked { part: Part::Query });
            },
        };
        let k = match self.attn.k_proj.packed() {
            Some(p) => p,
            None => {
                return Err(DispatchError::NotPacked { part: Part::Key });
            },
        };
        let v = match self.attn.v_proj.packed() {
            Some(p) => p,
            None => {
                return Err(DispatchError::NotPacked { part: Part::Value });
            },
        };
        let o = match self.attn.o_proj.packed() {
            Some(p) => p,
            None => {
                return Err(DispatchError::NotPacked { part: Part::Output });
            },
        };
        let gate = match self.ffn.gate.packed() {
            Some(p) => p,
            None => {
                return Err(DispatchError::NotPacked { part: Part::Gate });
            },
        };
        let value = match self.ffn.value.packed() {
            Some(p) => p,
            None => {
                return Err(DispatchError::NotPacked { part: Part::FfnValue });
            },
        };
        let down = match self.ffn.down.packed() {
            Some(p) => p,
            None => {
                return Err(DispatchError::NotPacked { part: Part::Down });
            },
        };
        let (ln_attn_g, ln_attn_b) = ln_vecs(&self.ln_attn, zero);
        let (ln_ffn_g, ln_ffn_b) = ln_vecs(&self.ln_ffn, zero);
        Ok(
            PackedLayerBufs {
                ln_attn_g,
                ln_attn_b,
                ln_ffn_g,
                ln_ffn_b,
                q,
                q_bias: copy_option(&self.attn.q_proj.inner().bias),
                k,
                k_bias: copy_option(&self.attn.k_proj.inner().bias),
                v,
                v_bias: copy_option(&self.attn.v_proj.inner().bias),
                o,
                o_bias: copy_option(&self.attn.o_proj.inner().bias),
                gate,
                gate_bias: copy_option(&self.ffn.gate.inner().bias),
                value,
                value_bias: copy_option(&self.ffn.value.inner().bias),
                down,
                down_bias: copy_option(&self.ffn.down.inner().bias),
                n_heads: self.attn.n_heads,
                n_kv: self.attn.n_kv_heads,
                head_dim: self.attn.head_dim,
            },
        )
    }

    /// Takes the packed weights listed under `prefix`.
    pub fn apply_ternary_packs(&mut self, prefix: &str, packs: &NameMap<TernaryPacked<N>>)
        requires
            packs.wf(),
        ensures
            transformer_applied(*old(self), *final(self), prefix@, named::modelled(packs@)),
    {
        self.attn.apply_ternary_packs(text::joined(prefix, ".attn").as_str(), packs);
        self.ffn.apply_ternary_packs(text::joined(prefix, ".ffn").as_str(), packs);
    }
}

/// `a` is attention built under `prefix`.
pub open spec fn is_attn_made<N, F, E, M>(
    make: M,
    prefix: Seq<char>,
    cfg: NetworkConfig<F>,
    a: MultiHeadSelfAttention<N>,
) -> bool where M: Fn(&str, usize, usize) -> Result<Linear<N>, E> {
    let dim = cfg.dim;
    let kv = kv_width(cfg) as usize;
    &&& a.n_heads == cfg.num_heads
    &&& a.n_kv_heads == kv_heads_of(cfg)
    &&& a.head_dim == dim / cfg.num_heads
    &&& !a.all_packed() && a.packed_count() == 0
    &&& is_made(make, prefix, ".q_proj"@, dim, dim, Ok::<Linear<N>, E>(a.q_proj.lin()))
    &&& is_made(make, prefix, ".k_proj"@, dim, kv, Ok::<Linear<N>, E>(a.k_proj.lin()))
    &&& is_made(make, prefix, ".v_proj"@, dim, kv, Ok::<Linear<N>, E>(a.v_proj.lin()))
    &&& is_made(make, prefix, ".o_proj"@, dim, dim, Ok::<Linear<N>, E>(a.o_proj.lin()))
}

/// `f` is a feed-forward layer built under `prefix`.
pub open spec fn is_ffn_made<N, E, M>(
    make: M,
    prefix: Seq<char>,
    dim: usize,
    hidden: usize,
    f: SwiGluFfn<N>,
) -> bool where M: Fn(&str, usize, usize) -> Result<Linear<N>, E> {
    &&& f.packed_count() == 0
    &&& is_made(make, prefix, ".gate"@, dim, hidden, Ok::<Linear<N>, E>(f.gate.lin()))
    &&& is_made(make, prefix, ".value"@, dim, hidden, Ok::<Linear<N>, E>(f.value.lin()))
    &&& is_made(make, prefix, ".down"@, hidden, dim, Ok::<Linear<N>, E>(f.down.lin()))
}

/// The first projection of attention that could not be built failed with `e`.
pub open spec fn is_attn_fault<N, F, E, M>(
    make: M,
    prefix: Seq<char>,
    cfg: NetworkConfig<F>,
    e: E,
) -> bool where M: Fn(&str, usize, usize) -> Result<Linear<N>, E> {
    let dim = cfg.dim;
    let kv = kv_width(cfg) as usize;
    let q = was_made::<N, E, M>(make, prefix, ".q_proj"@, dim, dim);
    let k = was_made::<N, E, M>(make, prefix, ".k_proj"@, dim, kv);
    let v = was_made::<N, E, M>(make, prefix, ".v_proj"@, dim, kv);
    ||| is_made(make, prefix, ".q_proj"@, dim, dim, Err::<Linear<N>, E>(e))
    ||| q && is_made(make, prefix, ".k_proj"@, dim, kv, Err::<Linear<N>, E>(e))
    ||| q && k && is_made(make, prefix, ".v_proj"@, dim, kv, Err::<Linear<N>, E>(e))
    ||| q && k && v && is_made(make, prefix, ".o_proj"@, dim, dim, Err::<Linear<N>, E>(e))
}

/// The first projection of a feed-forward layer that could not be built failed with `e`.
pub open spec fn is_ffn_fault<N, E, M>(
    make: M,
    prefix: Seq<char>,
    dim: usize,
    hidden: usize,
    e: E,
) -> bool where M: Fn(&str, usize, usize) -> Result<Linear<N>, E> {
    let gate = was_made::<N, E, M>(make, prefix, ".gate"@, dim, hidden);
    let value = was_made::<N, E, M>(make, prefix, ".value"@, dim, hidden);
    ||| is_made(make, prefix, ".gate"@, dim, hidden, Err::<Linear<N>, E>(e))
    ||| gate && is_made(make, prefix, ".value"@, dim, hidden, Err::<Linear<N>, E>(e))
    ||| gate && value && is_made(make, prefix, ".down"@, hidden, dim, Err::<Linear<N>, E>(e))
}

/// A norm was built under `prefix.leaf` for that width.
pub open spec fn was_norm_made<N, E, M>(
    make: M,
    prefix: Seq<char>,
    leaf: Seq<char>,
    dim: usize,
) -> bool where M: Fn(&str, usize) -> Result<Norm<N>, E> {
    exists|n: Norm<N>| #[trigger] is_norm_made(make, prefix, leaf, dim, Ok::<Norm<N>, E>(n))
}

/// Attention was built under `prefix`.
pub open spec fn was_attn_made<N, F, E, M>(
    make: M,
    prefix: Seq<char>,
    cfg: NetworkConfig<F>,
) -> bool where M: Fn(&str, usize, usize) -> Result<Linear<N>, E> {
    exists|a: MultiHeadSelfAttention<N>| #[trigger] is_attn_made(make, prefix, cfg, a)
}

/// A feed-forward layer was built under `prefix`.
pub open spec fn was_ffn_made<N, E, M>(
    make: M,
    prefix: Seq<char>,
    dim: usize,
    hidden: usize,
) -> bool where M: Fn(&str, usize, usize) -> Result<Linear<N>, E> {
    exists|f: SwiGluFfn<N>| #[trigger] is_ffn_made(make, prefix, dim, hidden, f)
}

/// `b` is a transformer block built under `prefix`.
pub open spec fn is_block<N, F, E, M, L>(
    make: M,
    make_ln: L,
    prefix: Seq<char>,
    cfg: NetworkConfig<F>,
    hidden: usize,
    b: TransformerBlock<N>,
) -> bool where
    M: Fn(&str, usize, usize) -> Result<Linear<N>, E>,
    L: Fn(&str, usize) -> Result<Norm<N>, E>,
 {
    &&& is_norm_made(make_ln, prefix, ".ln_attn"@, cfg.dim, Ok::<Norm<N>, E>(b.ln_attn))
    &&& is_attn_made(make, prefix + ".attn"@, cfg, b.attn)
    &&& is_norm_made(make_ln, prefix, ".ln_ffn"@, cfg.dim, Ok::<Norm<N>, E>(b.ln_ffn))
    &&& is_ffn_made(make, prefix + ".ffn"@, cfg.dim, hidden, b.ffn)
    &&& b.use_inplace == cfg.use_inplace_layernorm
}

/// The first part of a transformer block that could not be built failed with `e`.
pub open spec fn is_block_fault<N, F, E, M, L>(
    make: M,
    make_ln: L,
    prefix: Seq<char>,
    cfg: NetworkConfig<F>,
    hidden: usize,
    e: E,
) -> bool where
    M: Fn(&str, usize, usize) -> Result<Linear<N>, E>,
    L: Fn(&str, usize) -> Result<Norm<N>, E>,
 {
    let ln_attn = was_norm_made::<N, E, L>(make_ln, prefix, ".ln_attn"@, cfg.dim);
    let attn = was_attn_made::<N, F, E, M>(make, prefix + ".attn"@, cfg);
    let ln_ffn = was_norm_made::<N, E, L>(make_ln, prefix, ".ln_ffn"@, cfg.dim);
    ||| is_norm_made(make_ln, prefix, ".ln_attn"@, cfg.dim, Err::<Norm<N>, E>(e))
    ||| ln_attn && is_attn_fault(make, prefix + ".attn"@, cfg, e)
    ||| ln_attn && attn && is_norm_made(
        make_ln,
        prefix,
        ".ln_ffn"@,
        cfg.dim,
        Err::<Norm<N>, E>(e),
    )
    ||| ln_attn && attn && ln_ffn && is_ffn_fault(make, prefix + ".ffn"@, cfg.dim, hidden, e)
}

/// A transformer block before and after packing.
pub open spec fn block_packed<N, Q>(
    before: TransformerBlock<N>,
    after: TransformerBlock<N>,
    quantize: Q,
    r: Result<(), DispatchError>,
) -> bool where Q: Fn(&DenseTensor<N>) -> TernaryPacked<N> {
    let ok = Ok::<(), DispatchError>(());
    &&& after.ln_attn == before.ln_attn
    &&& after.ln_ffn == before.ln_ffn
    &&& after.use_inplace == before.use_inplace
    &&& {
        ||| r is Err && attn_packed(before.attn, after.attn, quantize, r) && after.ffn
            == before.ffn
        ||| attn_packed(before.attn, after.attn, quantize, ok) && ffn_packed(
            before.ffn,
            after.ffn,
            quantize,
            r,
        )
    }
}

/// A transformer block before and after packs have been applied under `prefix`.
pub open spec fn transformer_applied<N>(
    before: TransformerBlock<N>,
    after: TransformerBlock<N>,
    prefix: Seq<char>,
    packs: Seq<(Seq<char>, PackModel<N>)>,
) -> bool {
    &&& after.ln_attn == before.ln_attn
    &&& after.ln_ffn == before.ln_ffn
    &&& after.use_inplace == before.use_inplace
    &&& attn_applied(before.attn, after.attn, prefix + ".attn"@, packs)
    &&& ffn_applied(before.ffn, after.ffn, prefix + ".ffn"@, packs)
}

/// `b` is a mixer block built under `prefix`: the token layer works on positions and is twice as
/// wide inside, the channel layer on channels.
pub open spec fn is_mixer<N, F, E, M, L>(
    make: M,
    make_ln: L,
    prefix: Seq<char>,
    cfg: NetworkConfig<F>,
    hidden: usize,
    b: MixerBlock<N>,
) -> bool where
    M: Fn(&str, usize, usize) -> Result<Linear<N>, E>,
    L: Fn(&str, usize) -> Result<Norm<N>, E>,
 {
    let s = cfg.max_seq_len;
    &&& is_norm_made(make_ln, prefix, ".ln_token"@, cfg.dim, Ok::<Norm<N>, E>(b.ln_token))
    &&& is_ffn_made(make, prefix + ".token_ffn"@, s, (s * 2) as usize, b.token_ffn)
    &&& is_norm_made(make_ln, prefix, ".ln_channel"@, cfg.dim, Ok::<Norm<N>, E>(b.ln_channel))
    &&& is_ffn_made(make, prefix + ".channel_ffn"@, cfg.dim, hidden, b.channel_ffn)
    &&& b.seq_len == s
    &&& b.use_inplace == cfg.use_inplace_layernorm
}

/// The first part of a mixer block that could not be built failed with `e`.
pub open spec fn is_mixer_fault<N, F, E, M, L>(
    make: M,
    make_ln: L,
    prefix: Seq<char>,
    cfg: NetworkConfig<F>,
    hidden: usize,
    e: E,
) -> bool where
    M: Fn(&str, usize, usize) -> Result<Linear<N>, E>,
    L: Fn(&str, usize) -> Result<Norm<N>, E>,
 {
    let s = cfg.max_seq_len;
    let ln_token = was_norm_made::<N, E, L>(make_ln, prefix, ".ln_token"@, cfg.dim);
    let token = was_ffn_made::<N, E, M>(make, prefix + ".token_ffn"@, s, (s * 2) as usize);
    let ln_channel = was_norm_made::<N, E, L>(make_ln, prefix, ".ln_channel"@, cfg.dim);
    ||| is_norm_made(make_ln, prefix, ".ln_token"@, cfg.dim, Err::<Norm<N>, E>(e))
    ||| ln_token && is_ffn_fault(make, prefix + ".token_ffn"@, s, (s * 2) as usize, e)
    ||| ln_token && token && is_norm_made(
        make_ln,
        prefix,
        ".ln_channel"@,
        cfg.dim,
        Err::<Norm<N>, E>(e),
    )
    ||| ln_token && token && ln_channel && is_ffn_fault(
        make,
        prefix + ".channel_ffn"@,
        cfg.dim,
        hidden,
        e,
    )
}

/// A mixer block before and after packing.
pub open spec fn mixer_packed<N, Q>(
    before: MixerBlock<N>,
    after: MixerBlock<N>,
    quantize: Q,
    r: Result<(), DispatchError>,
) -> bool where Q: Fn(&DenseTensor<N>) -> TernaryPacked<N> {
    let ok = Ok::<(), DispatchError>(());
    &&& after.ln_token == before.ln_token
    &&& after.ln_channel == before.ln_channel
    &&& after.seq_len == before.seq_len
    &&& after.use_inplace == before.use_inplace
    &&& {
        ||| r is Err && ffn_packed(before.token_ffn, after.token_ffn, quantize, r)
            && after.channel_ffn == before.channel_ffn
        ||| ffn_packed(before.token_ffn, after.token_ffn, quantize, ok) && ffn_packed(
            before.channel_ffn,
            after.channel_ffn,
            quantize,
            r,
        )
    }
}

/// A mixer block before and after packs have been applied under `prefix`.
pub open spec fn mixer_applied<N>(
    before: MixerBlock<N>,
    after: MixerBlock<N>,
    prefix: Seq<char>,
    packs: Seq<(Seq<char>, PackModel<N>)>,
) -> bool {
    &&& after.ln_token == before.ln_token
    &&& after.ln_channel == before.ln_channel
    &&& after.seq_len == before.seq_len
    &&& after.use_inplace == before.use_inplace
    &&& ffn_applied(before.token_ffn, after.token_ffn, prefix + ".token_ffn"@, packs)
    &&& ffn_applied(before.channel_ffn, after.channel_ffn, prefix + ".channel_ffn"@, packs)
}

/// A mixer block takes sequences of one length only.
#[derive(Debug, Clone, Copy, PartialEq, Eq, Structural)]
pub struct SeqLenMismatch {
    pub required: usize,
    pub got: usize,
}

impl<N> MixerBlock<N> {
    /// Builds the block under `prefix` for that channel width.
    pub fn new<F, E, M, L>(
        make: &M,
        make_ln: &L,
        prefix: &str,
        cfg: &NetworkConfig<F>,
        hidden: usize,
    ) -> (r: Result<Self, E>) where
        M: Fn(&str, usize, usize) -> Result<Linear<N>, E>,
        L: Fn(&str, usize) -> Result<Norm<N>, E>,

        requires
            cfg.max_seq_len * 2 <= usize::MAX,
            forall|name: &str, i: usize, o: usize| call_requires(*make, (name, i, o)),
            forall|name: &str, d: usize| call_requires(*make_ln, (name, d)),
        ensures
            r matches Ok(b) ==> is_mixer(*make, *make_ln, prefix@, *cfg, hidden, b),
            r matches Err(e) ==> is_mixer_fault(*make, *make_ln, prefix@, *cfg, hidden, e),
    {
        let s: usize = cfg.max_seq_len;
        let ln_token = match make_norm(make_ln, prefix, ".ln_token", cfg.dim) {
            Ok(n) => n,
            Err(e) => {
                return Err(e);
            },
        };
        let token_ffn = match SwiGluFfn::new(
            make,
            text::joined(prefix, ".token_ffn").as_str(),
            s,
            s * 2,
        ) {
            Ok(f) => f,
            Err(e) => {
                return Err(e);
            },
        };
        let ln_channel = match make_norm(make_ln, prefix, ".ln_channel", cfg.dim) {
            Ok(n) => n,
            Err(e) => {
                return Err(e);
            },
        };
        let channel_ffn = match SwiGluFfn::new(
            make,
            text::joined(prefix, ".channel_ffn").as_str(),
            cfg.dim,
            hidden,
        ) {
            Ok(f) => f,
            Err(e) => {
                return Err(e);
            },
        };
        Ok(
            MixerBlock {
                ln_token,
                token_ffn,
                ln_channel,
                channel_ffn,
                seq_len: s,
                use_inplace: cfg.use_inplace_layernorm,
            },
        )
    }

    /// Refuses a sequence of another length.
    pub fn check_seq(&self, s: usize) -> (r: Result<(), SeqLenMismatch>)
        ensures
            r == if s == self.seq_len {
                Ok::<(), SeqLenMismatch>(())
            } else {
                Err::<(), SeqLenMismatch>(SeqLenMismatch { required: self.seq_len, got: s })
            },
    {
        if s != self.seq_len {
            return Err(SeqLenMismatch { required: self.seq_len, got: s });
        }
        Ok(())
    }

    /// Packs the token layer, then the channel layer.
    pub fn pack_from_weights<Q>(&mut self, quantize: &Q) -> (r: Result<(), DispatchError>) where
        Q: Fn(&DenseTensor<N>) -> TernaryPacked<N>,

        requires
            forall|w: &DenseTensor<N>| call_requires(*quantize, (w,)),
        ensures
            mixer_packed(*old(self), *final(self), *quantize, r),
    {
        match self.token_ffn.pack_from_weights(quantize) {
            Ok(()) => {},
            Err(e) => {
                return Err(e);
            },
        }
        self.channel_ffn.pack_from_weights(quantize)
    }
}

impl<N: Copy> MixerBlock<N> {
    /// Takes the packed weights listed under `prefix`.
    pub fn apply_ternary_packs(&mut self, prefix: &str, packs: &NameMap<TernaryPacked<N>>)
        requires
            packs.wf(),
        ensures
            mixer_applied(*old(self), *final(self), prefix@, named::modelled(packs@)),
    {
        self.token_ffn.apply_ternary_packs(text::joined(prefix, ".token_ffn").as_str(), packs);
        self.channel_ffn.apply_ternary_packs(text::joined(prefix, ".channel_ffn").as_str(), packs);
    }
}

/// A block of the network.
pub enum Block<N> {
    Transformer(TransformerBlock<N>),
    Mixer(MixerBlock<N>),
}

/// How many linear layers of a block are packed.
pub open spec fn block_packed_count<N>(b: Block<N>) -> int {
    match b {
        Block::Transformer(t) => t.attn.packed_count() + t.ffn.packed_count(),
        Block::Mixer(m) => m.token_ffn.packed_count() + m.channel_ffn.packed_count(),
    }
}

/// How many linear layers of the blocks are packed.
pub open spec fn total_packed<N>(blocks: Seq<Block<N>>) -> int
    decreases blocks.len(),
{
    if blocks.len() == 0 {
        0
    } else {
        total_packed(blocks.drop_last()) + block_packed_count(blocks.last())
    }
}

/// A transformer block whose layers are all packed.
pub open spec fn is_packed_transformer<N>(b: Block<N>) -> bool {
    match b {
        Block::Transformer(t) => t.attn.all_packed() && t.ffn.all_packed(),
        Block::Mixer(_) => false,
    }
}

/// The name of block `i` under `prefix`.
pub open spec fn block_name(prefix: Seq<char>, i: nat) -> Seq<char> {
    prefix + ".blocks."@ + text::decimal(i)
}

fn name_block(prefix: &str, i: usize) -> (r: String)
    ensures
        r@ == block_name(prefix@, i as nat),
{
    let mut name = text::joined(prefix, ".blocks.");
    name.append(text::number(i).as_str());
    name
}

/// `b` is block `i` of a network built under `prefix`.
pub open spec fn is_network_block<N, F, E, M, L>(
    make: M,
    make_ln: L,
    prefix: Seq<char>,
    cfg: NetworkConfig<F>,
    hidden: usize,
    b: Block<N>,
) -> bool where
    M: Fn(&str, usize, usize) -> Result<Linear<N>, E>,
    L: Fn(&str, usize) -> Result<Norm<N>, E>,
 {
    match (cfg.variant, b) {
        (NetworkVariant::Transformer, Block::Transformer(t)) => is_block(
            make,
            make_ln,
            prefix,
            cfg,
            hidden,
            t,
        ),
        (NetworkVariant::MlpMixer, Block::Mixer(m)) => is_mixer(
            make,
            make_ln,
            prefix,
            cfg,
            hidden,
            m,
        ),
        _ => false,
    }
}

/// One block before and after packing.
pub open spec fn any_block_packed<N, Q>(
    before: Block<N>,
    after: Block<N>,
    quantize: Q,
    r: Result<(), DispatchError>,
) -> bool where Q: Fn(&DenseTensor<N>) -> TernaryPacked<N> {
    match (before, after) {
        (Block::Transformer(a), Block::Transformer(b)) => block_packed(a, b, quantize, r),
        (Block::Mixer(a), Block::Mixer(b)) => mixer_packed(a, b, quantize, r),
        _ => false,
    }
}

/// One block before and after packs have been applied.
pub open spec fn any_block_applied<N>(
    before: Block<N>,
    after: Block<N>,
    prefix: Seq<char>,
    packs: Seq<(Seq<char>, PackModel<N>)>,
) -> bool {
    match (before, after) {
        (Block::Transformer(a), Block::Transformer(b)) => transformer_applied(a, b, prefix, packs),
        (Block::Mixer(a), Block::Mixer(b)) => mixer_applied(a, b, prefix, packs),
        _ => false,
    }
}

/// The network that every cycle applies.
pub struct SharedNetwork<N, F> {
    pub cfg: NetworkConfig<F>,
    pub blocks: Vec<Block<N>>,
    pub rope: Option<RopeCache<N>>,
}

/// Why a network could not be built.
pub enum BuildError<E> {
    Config(ConfigError),
    Layer(E),
}

/// `done` are the first blocks of the network under `prefix`.
pub open spec fn are_first_blocks<N, F, E, M, L>(
    make: M,
    make_ln: L,
    prefix: Seq<char>,
    cfg: NetworkConfig<F>,
    hidden: usize,
    done: Seq<Block<N>>,
) -> bool where
    M: Fn(&str, usize, usize) -> Result<Linear<N>, E>,
    L: Fn(&str, usize) -> Result<Norm<N>, E>,
 {
    forall|i: int|
        0 <= i < done.len() ==> is_network_block(
            make,
            make_ln,
            block_name(prefix, i as nat),
            cfg,
            hidden,
            #[trigger] done[i],
        )
}

/// The blocks before one were built, and that one failed with `e`.
pub open spec fn is_build_stop<N, F, E, M, L>(
    make: M,
    make_ln: L,
    prefix: Seq<char>,
    cfg: NetworkConfig<F>,
    hidden: usize,
    e: E,
) -> bool where
    M: Fn(&str, usize, usize) -> Result<Linear<N>, E>,
    L: Fn(&str, usize) -> Result<Norm<N>, E>,
 {
    exists|done: Seq<Block<N>>|
        {
            let name = block_name(prefix, done.len());
            &&& #[trigger] are_first_blocks(make, make_ln, prefix, cfg, hidden, done)
            &&& done.len() < cfg.num_layers
            &&& match cfg.variant {
                NetworkVariant::Transformer => is_block_fault(
                    make,
                    make_ln,
                    name,
                    cfg,
                    hidden,
                    e,
                ),
                NetworkVariant::MlpMixer => is_mixer_fault(make, make_ln, name, cfg, hidden, e),
            }
        }
}

impl<N, F> SharedNetwork<N, F> {
    /// Builds the network under `prefix`: the configuration is checked, every layer gets its
    /// block, and a transformer gets rotary angles.
    pub fn new<E, M, L, G>(
        make: &M,
        make_ln: &L,
        angle: &G,
        prefix: &str,
        cfg: NetworkConfig<F>,
        hidden: usize,
    ) -> (r: Result<Self, BuildError<E>>) where
        F: Copy,
        M: Fn(&str, usize, usize) -> Result<Linear<N>, E>,
        L: Fn(&str, usize) -> Result<Norm<N>, E>,
        G: Fn(usize, usize) -> (N, N),

        requires
            cfg.allow_non_standard_depth || cfg.num_layers == 2 ==> {
                &&& cfg.num_heads > 0
                &&& cfg.dim % cfg.num_heads == 0 ==> cfg.num_kv_heads != Some(0usize)
            },
            cfg.refusal() is None ==> match cfg.variant {
                NetworkVariant::Transformer => kv_width(cfg) <= usize::MAX && cfg.max_seq_len * (
                cfg.dim / cfg.num_heads / 2) <= usize::MAX,
                NetworkVariant::MlpMixer => cfg.max_seq_len * 2 <= usize::MAX,
            },
            forall|name: &str, i: usize, o: usize| call_requires(*make, (name, i, o)),
            forall|name: &str, d: usize| call_requires(*make_ln, (name, d)),
            forall|p: usize, i: usize| call_requires(*angle, (p, i)),
        ensures
            match r {
                Ok(net) => {
                    &&& cfg.refusal() is None
                    &&& net.cfg == cfg
                    &&& net.blocks@.len() == cfg.num_layers
                    &&& are_first_blocks(*make, *make_ln, prefix@, cfg, hidden, net.blocks@)
                    &&& match cfg.variant {
                        NetworkVariant::Transformer => net.rope matches Some(c) && c.wf()
                            && c.max_seq == cfg.max_seq_len && c.half == cfg.dim / cfg.num_heads
                            / 2 && is_rope(*angle, c),
                        NetworkVariant::MlpMixer => net.rope is None,
                    }
                },
                Err(BuildError::Config(e)) => cfg.refusal() == Some(e),
                Err(BuildError::Layer(e)) => cfg.refusal() is None && is_build_stop(
                    *make,
                    *make_ln,
                    prefix@,
                    cfg,
                    hidden,
                    e,
                ),
            },
    {
        match cfg.validate() {
            Ok(()) => {},
            Err(e) => {
                return Err(BuildError::Config(e));
            },
        }
        let mut blocks: Vec<Block<N>> = Vec::new();
        let mut i: usize = 0;
        while i < cfg.num_layers
            invariant
                i <= cfg.num_layers,
                cfg.refusal() is None,
                cfg.num_heads > 0,
                match cfg.variant {
                    NetworkVariant::Transformer => kv_width(cfg) <= usize::MAX,
                    NetworkVariant::MlpMixer => cfg.max_seq_len * 2 <= usize::MAX,
                },
                forall|name: &str, i: usize, o: usize| call_requires(*make, (name, i, o)),
                forall|name: &str, d: usize| call_requires(*make_ln, (name, d)),
                blocks@.len() == i,
                forall|k: int|
                    0 <= k < i ==> is_network_block(
                        *make,
                        *make_ln,
                        block_name(prefix@, k as nat),
                        cfg,
                        hidden,
                        #[trigger] blocks@[k],
                    ),
            decreases cfg.num_layers - i,
        {
            let name = name_block(prefix, i);
            match cfg.variant {
                NetworkVariant::Transformer => match TransformerBlock::new(
                    make,
                    make_ln,
                    name.as_str(),
                    &cfg,
                    hidden,
                ) {
                    Ok(b) => {
                        blocks.push(Block::Transformer(b));
                    },
                    Err(e) => {
                        assert(block_name(prefix@, i as nat) == name@);
                        assert(are_first_blocks(*make, *make_ln, prefix@, cfg, hidden, blocks@));
                        return Err(BuildError::Layer(e));
                    },
                },
                NetworkVariant::MlpMixer => match MixerBlock::new(
                    make,
                    make_ln,
                    name.as_str(),
                    &cfg,
                    hidden,
                ) {
                    Ok(b) => {
                        blocks.push(Block::Mixer(b));
                    },
                    Err(e) => {
                        assert(block_name(prefix@, i as nat) == name@);
                        assert(are_first_blocks(*make, *make_ln, prefix@, cfg, hidden, blocks@));
                        return Err(BuildError::Layer(e));
                    },
                },
            }
            i = i + 1;
        }
        let rope = match cfg.variant {
            NetworkVariant::Transformer => {
                let c = build_rope_cache(cfg.max_seq_len, cfg.head_dim(), angle);
                Some(c)
            },
            NetworkVariant::MlpMixer => None,
        };
        Ok(SharedNetwork { cfg, blocks, rope })
    }

    /// The configuration.
    pub fn config(&self) -> (r: &NetworkConfig<F>)
        ensures
            *r == self.cfg,
    {
        &self.cfg
    }

    /// How many linear layers are packed.
    pub fn packed_linear_count(&self) -> (r: usize)
        requires
            7 * self.blocks@.len() <= usize::MAX,
        ensures
            r == total_packed(self.blocks@),
    {
        let mut total: usize = 0;
        let mut i: usize = 0;
        assert(self.blocks@.take(0) =~= Seq::empty());
        while i < self.blocks.len()
            invariant
                i <= self.blocks@.len(),
                7 * self.blocks@.len() <= usize::MAX,
                total == total_packed(self.blocks@.take(i as int)),
                total <= 7 * i,
            decreases self.blocks@.len() - i,
        {
            let n: usize = match &self.blocks[i] {
                Block::Transformer(t) => t.attn.count_packed() + t.ffn.count_packed(),
                Block::Mixer(m) => m.token_ffn.count_packed() + m.channel_ffn.count_packed(),
            };
            assert(self.blocks@.take(i + 1).drop_last() =~= self.blocks@.take(i as int));
            total = total + n;
            i = i + 1;
        }
        assert(self.blocks@.take(self.blocks@.len() as int) =~= self.blocks@);
        total
    }

    /// The network is a transformer with at least one block, and every block is packed.
    pub open spec fn stack_packed(self) -> bool {
        &&& self.blocks@.len() > 0
        &&& self.cfg.variant == NetworkVariant::Transformer
        &&& forall|i: int|
            0 <= i < self.blocks@.len() ==> is_packed_transformer(#[trigger] self.blocks@[i])
    }

    /// Whether a forward pass may go through the packed stack as a whole.
    pub fn transformer_stack_packed(&self) -> (r: bool)
        ensures
            r == self.stack_packed(),
    {
        if self.blocks.len() == 0 {
            return false;
        }
        match self.cfg.variant {
            NetworkVariant::Transformer => {},
            NetworkVariant::MlpMixer => {
                return false;
            },
        }
        let mut i: usize = 0;
        while i < self.blocks.len()
            invariant
                i <= self.blocks@.len(),
                forall|k: int| 0 <= k < i ==> is_packed_transformer(#[trigger] self.blocks@[k]),
            decreases self.blocks@.len() - i,
        {
            let packed = match &self.blocks[i] {
                Block::Transformer(t) => t.is_packed(),
                Block::Mixer(_) => false,
            };
            if !packed {
                assert(!is_packed_transformer(self.blocks@[i as int]));
                return false;
            }
            i = i + 1;
        }
        true
    }

    /// Packs every block in turn; the first one that is refused ends it. Afterwards the network
    /// is marked as packed.
    pub fn pack_from_weights<Q>(&mut self, quantize: &Q) -> (r: Result<(), DispatchError>) where
        Q: Fn(&DenseTensor<N>) -> TernaryPacked<N>,
        F: Copy,

        requires
            forall|w: &DenseTensor<N>| call_requires(*quantize, (w,)),
        ensures
            final(self).rope == old(self).rope,
            final(self).blocks@.len() == old(self).blocks@.len(),
            match r {
                Ok(()) => {
                    &&& final(self).cfg == (NetworkConfig {
                        use_ternary_kernels: true,
                        ..old(self).cfg
                    })
                    &&& forall|i: int|
                        0 <= i < old(self).blocks@.len() ==> any_block_packed(
                            #[trigger] old(self).blocks@[i],
                            final(self).blocks@[i],
                            *quantize,
                            Ok::<(), DispatchError>(()),
                        )
                },
                Err(e) => {
                    &&& final(self).cfg == old(self).cfg
                    &&& exists|k: int|
                        {
                            &&& 0 <= k < old(self).blocks@.len()
                            &&& any_block_packed(
                                #[trigger] old(self).blocks@[k],
                                final(self).blocks@[k],
                                *quantize,
                                Err::<(), DispatchError>(e),
                            )
                            &&& forall|i: int|
                                0 <= i < k ==> any_block_packed(
                                    #[trigger] old(self).blocks@[i],
                                    final(self).blocks@[i],
                                    *quantize,
                                    Ok::<(), DispatchError>(()),
                                )
                            &&& forall|i: int|
                                k < i < old(self).blocks@.len() ==> final(self).blocks@[i]
                                    == #[trigger] old(self).blocks@[i]
                        }
                },
            },
    {
        let ghost start = *self;
        let n: usize = self.blocks.len();
        let mut i: usize = 0;
        while i < n
            invariant
                i <= n,
                n == start.blocks@.len(),
                self.blocks@.len() == n,
                self.cfg == start.cfg,
                self.rope == start.rope,
                start == *old(self),
                forall|w: &DenseTensor<N>| call_requires(*quantize, (w,)),
                forall|k: int|
                    0 <= k < i ==> any_block_packed(
                        #[trigger] start.blocks@[k],
                        self.blocks@[k],
                        *quantize,
                        Ok::<(), DispatchError>(()),
                    ),
                forall|k: int| i <= k < n ==> self.blocks@[k] == #[trigger] start.blocks@[k],
            decreases n - i,
        {
            let ghost before = self.blocks@;
            assert(before[i as int] == start.blocks@[i as int]);
            let done = match &mut self.blocks[i] {
                Block::Transformer(b) => b.pack_from_weights(quantize),
                Block::Mixer(b) => b.pack_from_weights(quantize),
            };
            assert(
                any_block_packed(start.blocks@[i as int], self.blocks@[i as int], *quantize, done)
            );
            match done {
                Ok(()) => {},
                Err(e) => {
                    return Err(e);
                },
            }
            i = i + 1;
        }
        self.cfg.use_ternary_kernels = true;
        Ok(())
    }
}

/// 1 for a layer whose width is a multiple of four, 0 for another.
pub open spec fn packable_one<N>(l: MaybeTernaryLinear<N>) -> int {
    if l.lin().weight.dims@[1] % 4 == 0 {
        1
    } else {
        0
    }
}

/// How many projections of a feed-forward layer have a width that is a multiple of four.
pub open spec fn ffn_packable<N>(f: SwiGluFfn<N>) -> int {
    packable_one(f.gate) + packable_one(f.value) + packable_one(f.down)
}

/// How many linear layers of a block have a width that is a multiple of four.
pub open spec fn block_packable<N>(b: Block<N>) -> int {
    match b {
        Block::Transformer(t) => packable_one(t.attn.q_proj) + packable_one(t.attn.k_proj)
            + packable_one(t.attn.v_proj) + packable_one(t.attn.o_proj) + ffn_packable(t.ffn),
        Block::Mixer(m) => ffn_packable(m.token_ffn) + ffn_packable(m.channel_ffn),
    }
}

/// How many linear layers of the blocks have a width that is a multiple of four.
pub open spec fn total_packable<N>(blocks: Seq<Block<N>>) -> int
    decreases blocks.len(),
{
    if blocks.len() == 0 {
        0
    } else {
        total_packable(blocks.drop_last()) + block_packable(blocks.last())
    }
}

proof fn equal_counts_equal_totals<N>(before: Seq<Block<N>>, after: Seq<Block<N>>)
    requires
        after.len() == before.len(),
        forall|i: int|
            0 <= i < before.len() ==> block_packed_count(#[trigger] after[i]) == block_packable(
                before[i],
            ),
    ensures
        total_packed(after) == total_packable(before),
    decreases before.len(),
{
    if before.len() > 0 {
        equal_counts_equal_totals(before.drop_last(), after.drop_last());
    }
}

/// Packing that succeeds packs the layers whose width is a multiple of four and no others. A
/// transformer of which that is true throughout then runs through the packed stack.
pub proof fn packing_packs_all<N, F, Q>(
    before: SharedNetwork<N, F>,
    after: SharedNetwork<N, F>,
    quantize: Q,
) where Q: Fn(&DenseTensor<N>) -> TernaryPacked<N>
    requires
        after.blocks@.len() == before.blocks@.len(),
        forall|i: int|
            0 <= i < before.blocks@.len() ==> any_block_packed(
                #[trigger] before.blocks@[i],
                after.blocks@[i],
                quantize,
                Ok::<(), DispatchError>(()),
            ),
    ensures
        total_packed(after.blocks@) == total_packable(before.blocks@),
        after.cfg.variant == NetworkVariant::Transformer && after.blocks@.len() > 0 && (forall|
            i: int,
        |
            0 <= i < before.blocks@.len() ==> block_packable(#[trigger] before.blocks@[i]) == 7)
            ==> after.stack_packed(),
{
    assert forall|i: int| 0 <= i < after.blocks@.len() implies block_packed_count(
        #[trigger] after.blocks@[i],
    ) == block_packable(before.blocks@[i]) by {
        assert(any_block_packed(
            before.blocks@[i],
            after.blocks@[i],
            quantize,
            Ok::<(), DispatchError>(()),
        ));
    }
    equal_counts_equal_totals(before.blocks@, after.blocks@);
    if forall|i: int|
        0 <= i < before.blocks@.len() ==> block_packable(#[trigger] before.blocks@[i]) == 7 {
        assert forall|i: int| 0 <= i < after.blocks@.len() implies is_packed_transformer(
            #[trigger] after.blocks@[i],
        ) by {
            assert(block_packed_count(after.blocks@[i]) == block_packable(before.blocks@[i]));
        }
    }
}

/// `c` holds the angles that `angle` gives.
pub open spec fn is_rope<N, G>(angle: G, c: RopeCache<N>) -> bool where
    G: Fn(usize, usize) -> (N, N),
 {
    forall|p: int, i: int|
        0 <= p < c.max_seq && 0 <= i < c.half ==> call_ensures(
            angle,
            (p as usize, i as usize),
            (
                #[trigger] grid::cell(c.cos@, c.half as int, p, i),
                grid::cell(c.sin@, c.half as int, p, i),
            ),
        )
}

impl<N: Copy, F: Copy> SharedNetwork<N, F> {
    /// Takes the packed weights listed for every block under `prefix`, and marks the network as
    /// packed.
    pub fn apply_ternary_packs(&mut self, prefix: &str, packs: &NameMap<TernaryPacked<N>>)
        requires
            packs.wf(),
        ensures
            final(self).rope == old(self).rope,
            final(self).cfg == (NetworkConfig { use_ternary_kernels: true, ..old(self).cfg }),
            final(self).blocks@.len() == old(self).blocks@.len(),
            forall|i: int|
                0 <= i < old(self).blocks@.len() ==> any_block_applied(
                    #[trigger] old(self).blocks@[i],
                    final(self).blocks@[i],
                    block_name(prefix@, i as nat),
                    named::modelled(packs@),
                ),
    {
        let ghost start = *self;
        let n: usize = self.blocks.len();
        let mut i: usize = 0;
        while i < n
            invariant
                i <= n,
                n == start.blocks@.len(),
                self.blocks@.len() == n,
                self.cfg == start.cfg,
                self.rope == start.rope,
                packs.wf(),
                forall|k: int|
                    0 <= k < i ==> any_block_applied(
                        #[trigger] start.blocks@[k],
                        self.blocks@[k],
                        block_name(prefix@, k as nat),
                        named::modelled(packs@),
                    ),
                forall|k: int| i <= k < n ==> self.blocks@[k] == #[trigger] start.blocks@[k],
            decreases n - i,
        {
            let name = name_block(prefix, i);
            assert(self.blocks@[i as int] == start.blocks@[i as int]);
            match &mut self.blocks[i] {
                Block::Transformer(b) => b.apply_ternary_packs(name.as_str(), packs),
                Block::Mixer(b) => b.apply_ternary_packs(name.as_str(), packs),
            }
            i = i + 1;
        }
        self.cfg.use_ternary_kernels = true;
    }

    /// The buffers for the packed stack, one for each block, where every block is packed.
    pub fn packed_stack_bufs(&self, zero: N) -> (r: Option<Vec<PackedLayerBufs<'_, N>>>)
        ensures
            match r {
                Some(bufs) => {
                    &&& self.stack_packed()
                    &&& bufs@.len() == self.blocks@.len()
                    &&& forall|i: int|
                        0 <= i < bufs@.len() ==> is_block_bufs(
                            self.blocks@[i],
                            zero,
                            #[trigger] bufs@[i],
                        )
                },
                None => !self.stack_packed(),
            },
    {
        if !self.transformer_stack_packed() {
            return None;
        }
        let mut bufs: Vec<PackedLayerBufs<'_, N>> = Vec::new();
        let mut i: usize = 0;
        while i < self.blocks.len()
            invariant
                i <= self.blocks@.len(),
                self.stack_packed(),
                bufs@.len() == i,
                forall|k: int|
                    0 <= k < i ==> is_block_bufs(self.blocks@[k], zero, #[trigger] bufs@[k]),
            decreases self.blocks@.len() - i,
        {
            assert(is_packed_transformer(self.blocks@[i as int]));
            match &self.blocks[i] {
                Block::Transformer(t) => match t.packed_layer_bufs(zero) {
                    Ok(b) => {
                        bufs.push(b);
                    },
                    Err(_) => {
                        return None;
                    },
                },
                Block::Mixer(_) => {
                    return None;
                },
            }
            i = i + 1;
        }
        Some(bufs)
    }
}

} // verus!
