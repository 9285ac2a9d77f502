//! What configurations, sizes and layers of the network have to do with one another.

use crate::grid;
use crate::kernel_dispatch::{Linear, MaybeTernaryLinear, Norm};
use crate::network;
use crate::network::{
    Block, BuildError, ConfigError, MultiHeadSelfAttention, NetworkConfig, NetworkVariant,
    SharedNetwork, SwiGluFfn,
};
use crate::text;
use vstd::prelude::*;

verus! {

/// The product of two numbers.
pub open spec fn times(a: int, b: int) -> int {
    a * b
}

/// A configuration is accepted exactly where it has two layers, or another depth was asked for,
/// and the heads split the width and are split by the key-value heads without a rest. A wrong
/// depth is told first, and the heads before the key-value heads.
pub proof fn accepted_exactly_when_heads_divide<F>(cfg: NetworkConfig<F>)
    requires
        cfg.num_heads > 0,
        cfg.num_kv_heads != Some(0usize),
    ensures
        ({
            let depth = cfg.num_layers == 2 || cfg.allow_non_standard_depth;
            let heads = exists|w: int| cfg.dim == #[trigger] times(w, cfg.num_heads as int);
            let kv = cfg.num_kv_heads matches Some(k) ==> exists|g: int|
                cfg.num_heads == #[trigger] times(g, k as int);
            &&& cfg.refusal() is None <==> depth && heads && kv
            &&& cfg.refusal() == Some(ConfigError::Depth { num_layers: cfg.num_layers })
                <==> !depth
            &&& cfg.refusal() == Some(ConfigError::Heads) <==> depth && !heads
            &&& cfg.refusal() == Some(ConfigError::KvHeads) <==> depth && heads && !kv
        }),
{
    divides(cfg.dim as int, cfg.num_heads as int);
    if let Some(k) = cfg.num_kv_heads {
        divides(cfg.num_heads as int, k as int);
    }
}

proof fn divides(n: int, d: int)
    requires
        n >= 0,
        d > 0,
    ensures
        n % d == 0 <==> exists|w: int| n == #[trigger] times(w, d),
{
    vstd::arithmetic::div_mod::lemma_fundamental_div_mod(n, d);
    if n % d == 0 {
        let w = n / d;
        assert(n == times(w, d)) by (nonlinear_arith)
            requires
                n == d * w,
        ;
    }
    if exists|w: int| n == #[trigger] times(w, d) {
        let w = choose|w: int| n == #[trigger] times(w, d);
        vstd::arithmetic::div_mod::lemma_mod_multiples_basic(w, d);
    }
}

/// Rounding up to a multiple of eight gives the smallest one that is not below.
pub proof fn rounding_up_is_least(n: int, m: int)
    requires
        0 <= n <= m,
        m % 8 == 0,
    ensures
        network::round_up_8(n) % 8 == 0,
        n <= network::round_up_8(n) <= m,
{
}

/// The estimate for a transformer without shared key-value heads counts, for each layer, the
/// weights of the four projections of attention and of the three of the feed-forward layer, and
/// weight and bias of two norms.
pub proof fn estimate_counts_the_weights<F>(cfg: NetworkConfig<F>, hidden: usize)
    requires
        cfg.variant == NetworkVariant::Transformer,
        cfg.num_heads > 0,
        cfg.dim % cfg.num_heads == 0,
        cfg.num_kv_heads matches Some(k) ==> k == cfg.num_heads,
    ensures
        ({
            let (d, h, kv) = (cfg.dim as int, hidden as int, network::kv_width(cfg));
            let attn = times(d, d) + times(d, kv) + times(d, kv) + times(d, d);
            let ffn = times(d, h) + times(d, h) + times(h, d);
            let norms = 2 * (d + d);
            &&& kv == d
            &&& network::layer_params(cfg, h) == attn + ffn + norms
        }),
{
    let (d, h, n) = (cfg.dim as int, hidden as int, cfg.num_heads as int);
    vstd::arithmetic::div_mod::lemma_fundamental_div_mod(d, n);
    let w = d / n;
    assert(n * w == d);
    assert(network::kv_width(cfg) == d);
    assert(4 * d * d == 4 * (d * d)) by (nonlinear_arith);
    assert(3 * d * h == 3 * (d * h)) by (nonlinear_arith);
    assert(h * d == d * h) by (nonlinear_arith);
}

/// The estimate for a mixer counts three squares of the length for mixing positions, three
/// products of width and hidden width, and four widths.
pub proof fn mixer_estimate_counts_squares<F>(cfg: NetworkConfig<F>, hidden: usize)
    requires
        cfg.variant == NetworkVariant::MlpMixer,
    ensures
        ({
            let (d, h, s) = (cfg.dim as int, hidden as int, cfg.max_seq_len as int);
            network::layer_params(cfg, h) == 3 * times(s, s) + 3 * times(d, h) + 4 * d
        }),
{
    let (d, h, s) = (cfg.dim as int, hidden as int, cfg.max_seq_len as int);
    assert(3 * s * s == 3 * (s * s)) by (nonlinear_arith);
    assert(3 * d * h == 3 * (d * h)) by (nonlinear_arith);
}

/// A layer maps that many inputs to that many outputs.
pub open spec fn maps<N>(l: MaybeTernaryLinear<N>, inputs: int, outputs: int) -> bool {
    let dims = l.lin().weight.dims@;
    dims.len() == 2 && dims[0] == outputs && dims[1] == inputs
}

/// What is made under a name for two widths maps the one to the other.
pub open spec fn makes_to_measure<N, E, M>(make: M) -> bool where
    M: Fn(&str, usize, usize) -> Result<Linear<N>, E>,
 {
    forall|name: &str, i: usize, o: usize, l: Linear<N>| #[trigger]
        call_ensures(make, (name, i, o), Ok::<Linear<N>, E>(l)) ==> l.weight.dims@.len() == 2
            && l.weight.dims@[0] == o && l.weight.dims@[1] == i
}

/// The projections of attention that is built fit together: queries fill the width head by head,
/// keys and values fill the key-value heads, and the output maps back to the width.
pub proof fn built_attention_fits<N, F, E, M>(
    make: M,
    prefix: Seq<char>,
    cfg: NetworkConfig<F>,
    a: MultiHeadSelfAttention<N>,
) where M: Fn(&str, usize, usize) -> Result<Linear<N>, E>
    requires
        makes_to_measure::<N, E, M>(make),
        cfg.num_heads > 0,
        cfg.dim % cfg.num_heads == 0,
        network::kv_width(cfg) <= usize::MAX,
        network::is_attn_made(make, prefix, cfg, a),
    ensures
        a.n_heads == cfg.num_heads,
        cfg.num_kv_heads matches Some(k) ==> a.n_kv_heads == k,
        cfg.num_kv_heads is None ==> a.n_kv_heads == a.n_heads,
        a.n_heads * a.head_dim == cfg.dim,
        maps(a.q_proj, cfg.dim as int, a.n_heads * a.head_dim),
        maps(a.k_proj, cfg.dim as int, a.n_kv_heads * a.head_dim),
        maps(a.v_proj, cfg.dim as int, a.n_kv_heads * a.head_dim),
        maps(a.o_proj, a.n_heads * a.head_dim, cfg.dim as int),
{
    vstd::arithmetic::div_mod::lemma_fundamental_div_mod(cfg.dim as int, cfg.num_heads as int);
    assert(0 <= network::kv_width(cfg)) by {
        let (k, w) = (network::kv_heads_of(cfg) as int, (cfg.dim / cfg.num_heads) as int);
        assert(0 <= k * w) by (nonlinear_arith)
            requires
                0 <= k,
                0 <= w,
        ;
    }
}

/// The projections of a feed-forward layer that is built fit together: both inner ones map the
/// width to the hidden width, and the last one maps it back.
pub proof fn built_ffn_fits<N, E, M>(
    make: M,
    prefix: Seq<char>,
    dim: usize,
    hidden: usize,
    f: SwiGluFfn<N>,
) where M: Fn(&str, usize, usize) -> Result<Linear<N>, E>
    requires
        makes_to_measure::<N, E, M>(make),
        network::is_ffn_made(make, prefix, dim, hidden, f),
    ensures
        maps(f.gate, dim as int, hidden as int),
        maps(f.value, dim as int, hidden as int),
        maps(f.down, hidden as int, dim as int),
{
}

/// The layers of a block.
pub open spec fn layers_of<N>(b: Block<N>) -> Seq<MaybeTernaryLinear<N>> {
    match b {
        Block::Transformer(t) => seq![
            t.attn.q_proj,
            t.attn.k_proj,
            t.attn.v_proj,
            t.attn.o_proj,
            t.ffn.gate,
            t.ffn.value,
            t.ffn.down,
        ],
        Block::Mixer(m) => seq![
            m.token_ffn.gate,
            m.token_ffn.value,
            m.token_ffn.down,
            m.channel_ffn.gate,
            m.channel_ffn.value,
            m.channel_ffn.down,
        ],
    }
}

/// How many of the layers are packed.
pub open spec fn packed_among<N>(s: Seq<MaybeTernaryLinear<N>>) -> int
    decreases s.len(),
{
    if s.len() == 0 {
        0
    } else {
        packed_among(s.drop_last()) + if s.last().pack() is Some {
            1int
        } else {
            0
        }
    }
}

proof fn packed_add<N>(a: Seq<MaybeTernaryLinear<N>>, b: Seq<MaybeTernaryLinear<N>>)
    ensures
        packed_among(a + b) == packed_among(a) + packed_among(b),
    decreases b.len(),
{
    if b.len() == 0 {
        assert(a + b =~= a);
    } else {
        assert((a + b).drop_last() =~= a + b.drop_last());
        packed_add(a, b.drop_last());
    }
}

proof fn block_counted<N>(b: Block<N>)
    ensures
        network::block_packed_count(b) == packed_among(layers_of(b)),
{
    reveal_with_fuel(packed_among, 8);
}

/// The count of packed layers goes over all layers of all blocks.
pub proof fn count_covers_every_layer<N>(blocks: Seq<Block<N>>)
    ensures
        network::total_packed(blocks) == packed_among(
            Seq::new(blocks.len(), |i: int| layers_of(blocks[i])).flatten(),
        ),
    decreases blocks.len(),
{
    let all = Seq::new(blocks.len(), |i: int| layers_of(blocks[i]));
    all.lemma_flatten_and_flatten_alt_are_equivalent();
    if blocks.len() > 0 {
        let front = blocks.drop_last();
        let before = Seq::new(front.len(), |i: int| layers_of(front[i]));
        count_covers_every_layer(front);
        before.lemma_flatten_and_flatten_alt_are_equivalent();
        assert(all.drop_last() =~= before);
        packed_add(before.flatten(), all.last());
        block_counted(blocks.last());
    }
}

/// A layer was made under that name for those widths.
pub open spec fn is_made_as<N, E, M>(
    make: M,
    name: Seq<char>,
    in_dim: int,
    out_dim: int,
    l: MaybeTernaryLinear<N>,
) -> bool where M: Fn(&str, usize, usize) -> Result<Linear<N>, E> {
    exists|given: &str| #[trigger]
        call_ensures(make, (given, in_dim as usize, out_dim as usize), Ok::<Linear<N>, E>(l.lin()))
            && given@ == name
}

/// A network that is built has the accepted configuration that it was given and as many blocks as
/// that has layers, all of its kind, each made under its number. A transformer has the angles of
/// all positions, position by position; a mixer has none.
pub proof fn built_network_follows_its_configuration<N, F: Copy, E, M, L, G>(
    make: &M,
    make_ln: &L,
    angle: &G,
    prefix: &str,
    cfg: NetworkConfig<F>,
    hidden: usize,
    net: SharedNetwork<N, F>,
    i: int,
) where
    M: Fn(&str, usize, usize) -> Result<Linear<N>, E>,
    L: Fn(&str, usize) -> Result<Norm<N>, E>,
    G: Fn(usize, usize) -> (N, N),

    requires
        cfg.num_heads > 0,
        cfg.num_kv_heads != Some(0usize),
        network::kv_width(cfg) <= usize::MAX,
        cfg.max_seq_len * 2 <= usize::MAX,
        call_ensures(
            SharedNetwork::<N, F>::new::<E, M, L, G>,
            (make, make_ln, angle, prefix, cfg, hidden),
            Ok::<SharedNetwork<N, F>, BuildError<E>>(net),
        ),
        0 <= i < cfg.num_layers,
    ensures
        net.cfg == cfg,
        net.cfg.refusal() is None,
        net.blocks@.len() == cfg.num_layers,
        net.blocks@[i] is Transformer <==> cfg.variant == NetworkVariant::Transformer,
        ({
            let name = prefix@ + ".blocks."@ + text::decimal(i as nat);
            let (d, h, s) = (cfg.dim as int, hidden as int, cfg.max_seq_len as int);
            match net.blocks@[i] {
                Block::Transformer(b) => {
                    let attn = name + ".attn"@;
                    let ffn = name + ".ffn"@;
                    let kv = b.attn.n_kv_heads * b.attn.head_dim;
                    &&& is_made_as(*make, attn + ".q_proj"@, d, d, b.attn.q_proj)
                    &&& is_made_as(*make, attn + ".k_proj"@, d, kv, b.attn.k_proj)
                    &&& is_made_as(*make, attn + ".v_proj"@, d, kv, b.attn.v_proj)
                    &&& is_made_as(*make, attn + ".o_proj"@, d, d, b.attn.o_proj)
                    &&& is_made_as(*make, ffn + ".gate"@, d, h, b.ffn.gate)
                    &&& is_made_as(*make, ffn + ".value"@, d, h, b.ffn.value)
                    &&& is_made_as(*make, ffn + ".down"@, h, d, b.ffn.down)
                },
                Block::Mixer(b) => {
                    let token = name + ".token_ffn"@;
                    let channel = name + ".channel_ffn"@;
                    &&& b.seq_len == s
                    &&& is_made_as(*make, token + ".gate"@, s, s + s, b.token_ffn.gate)
                    &&& is_made_as(*make, token + ".value"@, s, s + s, b.token_ffn.value)
                    &&& is_made_as(*make, token + ".down"@, s + s, s, b.token_ffn.down)
                    &&& is_made_as(*make, channel + ".gate"@, d, h, b.channel_ffn.gate)
                    &&& is_made_as(*make, channel + ".value"@, d, h, b.channel_ffn.value)
                    &&& is_made_as(*make, channel + ".down"@, h, d, b.channel_ffn.down)
                },
            }
        }),
        cfg.variant == NetworkVariant::MlpMixer ==> net.rope is None,
        cfg.variant == NetworkVariant::Transformer ==> net.rope is Some,
{
    let b = net.blocks@[i];
    assert(network::is_network_block(
        *make,
        *make_ln,
        network::block_name(prefix@, i as nat),
        cfg,
        hidden,
        b,
    ));
    let name = network::block_name(prefix@, i as nat);
    let (d, s) = (cfg.dim, cfg.max_seq_len);
    match b {
        Block::Transformer(b) => {
            let kv = network::kv_width(cfg) as usize;
            let w = (cfg.dim / cfg.num_heads) as int;
            assert(0 <= network::kv_heads_of(cfg) * w) by (nonlinear_arith)
                requires
                    0 <= w,
            ;
            made::<N, E, M>(*make, name + ".attn"@, ".q_proj"@, d, d, b.attn.q_proj);
            made::<N, E, M>(*make, name + ".attn"@, ".k_proj"@, d, kv, b.attn.k_proj);
            made::<N, E, M>(*make, name + ".attn"@, ".v_proj"@, d, kv, b.attn.v_proj);
            made::<N, E, M>(*make, name + ".attn"@, ".o_proj"@, d, d, b.attn.o_proj);
            ffn_made::<N, E, M>(*make, name + ".ffn"@, d, hidden, b.ffn);
        },
        Block::Mixer(b) => {
            ffn_made::<N, E, M>(*make, name + ".token_ffn"@, s, (s * 2) as usize, b.token_ffn);
            ffn_made::<N, E, M>(*make, name + ".channel_ffn"@, d, hidden, b.channel_ffn);
        },
    }
}

proof fn made<N, E, M>(
    make: M,
    prefix: Seq<char>,
    leaf: Seq<char>,
    i: usize,
    o: usize,
    l: MaybeTernaryLinear<N>,
) where M: Fn(&str, usize, usize) -> Result<Linear<N>, E>
    requires
        network::is_made(make, prefix, leaf, i, o, Ok::<Linear<N>, E>(l.lin())),
    ensures
        is_made_as::<N, E, M>(make, prefix + leaf, i as int, o as int, l),
{
    let given = choose|given: &str| #[trigger]
        call_ensures(make, (given, i, o), Ok::<Linear<N>, E>(l.lin())) && given@ == prefix + leaf;
    assert(call_ensures(
        make,
        (given, (i as int) as usize, (o as int) as usize),
        Ok::<Linear<N>, E>(l.lin()),
    ));
}

proof fn ffn_made<N, E, M>(
    make: M,
    prefix: Seq<char>,
    dim: usize,
    hidden: usize,
    f: SwiGluFfn<N>,
) where M: Fn(&str, usize, usize) -> Result<Linear<N>, E>
    requires
        network::is_ffn_made(make, prefix, dim, hidden, f),
    ensures
        is_made_as::<N, E, M>(make, prefix + ".gate"@, dim as int, hidden as int, f.gate),
        is_made_as::<N, E, M>(make, prefix + ".value"@, dim as int, hidden as int, f.value),
        is_made_as::<N, E, M>(make, prefix + ".down"@, hidden as int, dim as int, f.down),
{
    made::<N, E, M>(make, prefix, ".gate"@, dim, hidden, f.gate);
    made::<N, E, M>(make, prefix, ".value"@, dim, hidden, f.value);
    made::<N, E, M>(make, prefix, ".down"@, hidden, dim, f.down);
}

/// The cache of a transformer that is built has one angle for each position and pair of a head,
/// position by position.
pub proof fn built_cache_holds_every_angle<N, F: Copy, E, M, L, G>(
    make: &M,
    make_ln: &L,
    angle: &G,
    prefix: &str,
    cfg: NetworkConfig<F>,
    hidden: usize,
    net: SharedNetwork<N, F>,
    p: usize,
    j: usize,
) where
    M: Fn(&str, usize, usize) -> Result<Linear<N>, E>,
    L: Fn(&str, usize) -> Result<Norm<N>, E>,
    G: Fn(usize, usize) -> (N, N),

    requires
        cfg.variant == NetworkVariant::Transformer,
        cfg.num_heads > 0,
        call_ensures(
            SharedNetwork::<N, F>::new::<E, M, L, G>,
            (make, make_ln, angle, prefix, cfg, hidden),
            Ok::<SharedNetwork<N, F>, BuildError<E>>(net),
        ),
        p < cfg.max_seq_len,
        j < cfg.dim / cfg.num_heads / 2,
    ensures
        net.rope is Some,
        ({
            let c = net.rope->Some_0;
            let at = p * (cfg.dim / cfg.num_heads / 2) + j;
            call_ensures(*angle, (p, j), (c.cos@[at], c.sin@[at]))
        }),
{
    let c = net.rope->Some_0;
    assert(network::is_rope(*angle, c));
    let (x, y) = (
        grid::cell(c.cos@, c.half as int, p as int, j as int),
        grid::cell(c.sin@, c.half as int, p as int, j as int),
    );
    assert(call_ensures(*angle, ((p as int) as usize, (j as int) as usize), (x, y)));
}

} // verus!
