use std::cell::RefCell;
use trm_omega::forward::{ForwardError, Layers, Pass, Site};
use trm_omega::arith::Arith;
use trm_omega::kernel_dispatch::{
    packed_mha, packed_swiglu_ffn, Bank, DispatchError, Linear, MhaCall, NoBank, Norm, Part,
    RopeCache, StackCall,
};
use trm_omega::named::NameMap;
use trm_omega::network::{
    build_rope_cache, Block, BuildError, ConfigError, NetworkConfig, NetworkVariant, SeqLenMismatch,
    SharedNetwork, SwiGluFfn, TransformerBlock,
};
use trm_omega::preset::paper;
use trm_omega::quantize::TernaryPacked;
use trm_omega::tensor::DenseTensor;

fn config() -> NetworkConfig<f64> {
    NetworkConfig::standard(8.0 / 3.0, 0.0, 10_000.0)
}

fn scale(dim: usize, mult: &f64) -> usize {
    (dim as f64 * mult).round() as usize
}

fn make(_name: &str, inputs: usize, outputs: usize) -> Result<Linear<f32>, String> {
    Ok(Linear {
        weight: DenseTensor { dims: vec![outputs, inputs], data: vec![0.5; inputs * outputs] },
        bias: Some(vec![0.0; outputs]),
    })
}

fn make_ln(_name: &str, dim: usize) -> Result<Norm<f32>, String> {
    Ok(Norm { weight: vec![1.0; dim], bias: None })
}

fn angle(pos: usize, i: usize) -> (f32, f32) {
    (pos as f32, i as f32)
}

fn build(cfg: NetworkConfig<f64>) -> Result<SharedNetwork<f32, f64>, BuildError<String>> {
    SharedNetwork::new(&make, &make_ln, &angle, "net", cfg, 8)
}

fn small(variant: NetworkVariant) -> NetworkConfig<f64> {
    let mut cfg = config();
    cfg.variant = variant;
    cfg.dim = 8;
    cfg.num_heads = 4;
    cfg.num_kv_heads = Some(2);
    cfg.max_seq_len = 4;
    cfg
}

fn quantize(w: &DenseTensor<f32>) -> TernaryPacked<f32> {
    TernaryPacked {
        out_dim: w.dims[0],
        in_dim: w.dims[1],
        packed: vec![0; w.dims[0] * (w.dims[1] / 4)],
        alphas: vec![0.5; w.dims[0]],
    }
}

#[test]
fn configurations_are_checked() {
    let mut cfg = config();
    assert_eq!(cfg.validate(), Ok(()));
    cfg.num_layers = 3;
    assert_eq!(cfg.validate(), Err(ConfigError::Depth { num_layers: 3 }));
    cfg.allow_non_standard_depth = true;
    assert_eq!(cfg.validate(), Ok(()));
    cfg.num_heads = 7;
    assert_eq!(cfg.validate(), Err(ConfigError::Heads));
    cfg.num_heads = 8;
    cfg.num_kv_heads = Some(3);
    assert_eq!(cfg.validate(), Err(ConfigError::KvHeads));
    cfg.num_kv_heads = Some(4);
    assert_eq!(cfg.validate(), Ok(()));
    assert_eq!((cfg.kv_heads(), cfg.head_dim()), (4, cfg.dim / 8));
}

#[test]
fn hidden_widths_are_rounded_up_to_eight() {
    let mut cfg = config();
    cfg.dim = 10;
    cfg.ffn_mult = 1.25;
    assert_eq!(cfg.ffn_hidden(&scale), 16);
    cfg.ffn_mult = 1.6;
    assert_eq!(cfg.ffn_hidden(&scale), 16);
    cfg.ffn_mult = 0.8;
    assert_eq!(cfg.ffn_hidden(&scale), 8);
}

#[test]
fn the_paper_shape_has_about_a_million_and_a_half_layer_parameters() {
    let mut cfg = config();
    paper().apply_network(&mut cfg);
    let hidden = cfg.ffn_hidden(&scale);
    assert_eq!(hidden, 688);
    assert_eq!(cfg.param_count_estimate(hidden), 1_583_104);
    cfg.variant = NetworkVariant::MlpMixer;
    cfg.max_seq_len = 81;
    assert_eq!(cfg.param_count_estimate(hidden), 2 * (3 * 81 * 81 + 3 * 256 * 688 + 4 * 256));
}

#[test]
fn rotary_angles_stand_by_position_and_pair() {
    let c = build_rope_cache(3, 4, &angle);
    assert_eq!((c.max_seq, c.half), (3, 2));
    assert_eq!(c.cos, vec![0.0, 0.0, 1.0, 1.0, 2.0, 2.0]);
    assert_eq!(c.sin, vec![0.0, 1.0, 0.0, 1.0, 0.0, 1.0]);
}

#[test]
fn layers_are_built_under_their_names() {
    let seen: RefCell<Vec<String>> = RefCell::new(vec![]);
    let record = |name: &str, i: usize, o: usize| {
        seen.borrow_mut().push(format!("{name} {i} {o}"));
        make(name, i, o)
    };
    let net = SharedNetwork::new(
        &record,
        &make_ln,
        &angle,
        "net",
        small(NetworkVariant::Transformer),
        8,
    )
    .ok()
    .unwrap();
    assert_eq!(net.config().dim, 8);
    let seen = seen.into_inner();
    assert_eq!(seen.len(), 14);
    assert_eq!(seen[0], "net.blocks.0.attn.q_proj 8 8");
    assert_eq!(seen[1], "net.blocks.0.attn.k_proj 8 4");
    assert_eq!(seen[6], "net.blocks.0.ffn.down 8 8");
    assert_eq!(seen[7], "net.blocks.1.attn.q_proj 8 8");
    assert_eq!(net.rope.unwrap().half, 1);
}

#[test]
fn a_network_is_refused_with_its_configuration_or_its_layers() {
    let mut cfg = small(NetworkVariant::Transformer);
    cfg.num_layers = 5;
    assert!(matches!(
        build(cfg),
        Err(BuildError::Config(ConfigError::Depth { num_layers: 5 }))
    ));
    let fail = |name: &str, _: usize, _: usize| -> Result<Linear<f32>, String> {
        Err(name.to_string())
    };
    let r: Result<SharedNetwork<f32, f64>, _> = SharedNetwork::new(
        &fail,
        &make_ln,
        &angle,
        "net",
        small(NetworkVariant::MlpMixer),
        8,
    );
    assert!(matches!(r, Err(BuildError::Layer(n)) if n == "net.blocks.0.token_ffn.gate"));
}

#[test]
fn packing_marks_the_network_and_counts_its_layers() {
    let mut net = build(small(NetworkVariant::Transformer)).ok().unwrap();
    assert_eq!(net.packed_linear_count(), 0);
    assert!(!net.transformer_stack_packed());
    assert!(net.packed_stack_bufs(0.0).is_none());
    assert_eq!(net.pack_from_weights(&quantize), Ok(()));
    assert_eq!(net.packed_linear_count(), 14);
    assert!(net.transformer_stack_packed());
    assert!(net.cfg.use_ternary_kernels);
    let bufs = net.packed_stack_bufs(0.0).unwrap();
    assert_eq!(bufs.len(), 2);
    assert_eq!((bufs[0].n_heads, bufs[0].n_kv, bufs[0].head_dim), (4, 2, 2));
    assert_eq!(bufs[0].ln_attn_b, vec![0.0; 8]);
    assert_eq!(bufs[0].q_bias.as_ref().unwrap().len(), 8);

    let mut mixer = build(small(NetworkVariant::MlpMixer)).ok().unwrap();
    mixer.pack_from_weights(&quantize).unwrap();
    assert_eq!(mixer.packed_linear_count(), 12);
    assert!(!mixer.transformer_stack_packed());
}

#[test]
fn widths_that_do_not_divide_by_four_stay_unpacked() {
    let cfg = small(NetworkVariant::Transformer);
    let mut net = SharedNetwork::new(&make, &make_ln, &angle, "net", cfg, 6).ok().unwrap();
    assert_eq!(net.pack_from_weights(&quantize), Ok(()));
    // the projection back from the hidden width is left out, in both blocks
    assert_eq!(net.packed_linear_count(), 12);
    assert!(!net.transformer_stack_packed());
    assert!(net.cfg.use_ternary_kernels);
}

#[test]
fn packs_find_their_layers_by_name() {
    let mut net = build(small(NetworkVariant::Transformer)).ok().unwrap();
    let mut packs = NameMap::new();
    let w = make("", 8, 8).unwrap().weight;
    packs.insert("net.blocks.1.ffn.gate.weight".to_string(), quantize(&w));
    packs.insert("other.blocks.1.ffn.down.weight".to_string(), quantize(&w));
    net.apply_ternary_packs("net", &packs);
    assert_eq!(net.packed_linear_count(), 1);
    match &net.blocks[1] {
        Block::Transformer(t) => assert!(t.ffn.gate.is_packed() && !t.is_packed()),
        Block::Mixer(_) => unreachable!(),
    }
}

#[test]
fn buffers_name_the_first_layer_that_is_not_packed() {
    let cfg = small(NetworkVariant::Transformer);
    let mut b: TransformerBlock<f32> =
        TransformerBlock::new(&make, &make_ln, "b", &cfg, 8).unwrap();
    assert_eq!(
        b.packed_layer_bufs(0.0).err(),
        Some(DispatchError::NotPacked { part: Part::Query })
    );
    b.attn.pack_from_weights(&quantize).unwrap();
    assert_eq!(
        b.packed_layer_bufs(0.0).err(),
        Some(DispatchError::NotPacked { part: Part::Gate })
    );
    b.pack_from_weights(&quantize).unwrap();
    assert!(b.packed_layer_bufs(0.0).is_ok());
}

struct F32;

impl Arith for F32 {
    type Num = f32;

    fn whole(&self, n: i128) -> f32 {
        n as f32
    }
    fn plus(&self, a: f32, b: f32) -> f32 {
        a + b
    }
    fn minus(&self, a: f32, b: f32) -> f32 {
        a - b
    }
    fn times(&self, a: f32, b: f32) -> f32 {
        a * b
    }
    fn over(&self, a: f32, b: f32) -> f32 {
        a / b
    }
    fn negated(&self, a: f32) -> f32 {
        -a
    }
    fn magnitude(&self, a: f32) -> f32 {
        a.abs()
    }
    fn exp(&self, a: f32) -> f32 {
        a.exp()
    }
    fn sqrt(&self, a: f32) -> f32 {
        a.sqrt()
    }
    fn exceeds(&self, a: f32, b: f32) -> bool {
        a > b
    }
    fn lowest(&self) -> f32 {
        f32::NEG_INFINITY
    }
    fn speck(&self) -> f32 {
        1e-12
    }
}

/// A device with a layer norm, a stack, both or neither.
struct Device {
    norm: bool,
    stack: bool,
}

impl Bank<f32> for Device {
    fn swiglu(&self, _gate: &[f32], _up: &[f32]) -> Option<Vec<f32>> {
        None
    }
    fn linear(
        &self,
        _input: &[f32],
        _pack: &TernaryPacked<f32>,
        _bias: Option<&[f32]>,
        _tokens: usize,
    ) -> Option<Vec<f32>> {
        None
    }
    fn swiglu_ffn(
        &self,
        _xs: &[f32],
        _tokens: usize,
        _gate: &TernaryPacked<f32>,
        _gate_bias: Option<&[f32]>,
        _value: &TernaryPacked<f32>,
        _value_bias: Option<&[f32]>,
        _down: &TernaryPacked<f32>,
        _down_bias: Option<&[f32]>,
    ) -> Option<Vec<f32>> {
        None
    }
    fn has_layer_norm(&self, _gamma: &[f32]) -> bool {
        self.norm
    }
    fn layer_norm(
        &self,
        input: &[f32],
        _gamma: &[f32],
        _beta: &[f32],
        _rows: usize,
        _cols: usize,
    ) -> Option<Vec<f32>> {
        Some(vec![0.25; input.len()])
    }
    fn mha(&self, _call: &MhaCall<f32>) -> Option<Vec<f32>> {
        None
    }
    fn stack(&self, call: &StackCall<f32>) -> Option<Vec<f32>> {
        if self.stack {
            Some(vec![call.layers.len() as f32; call.xs.len()])
        } else {
            None
        }
    }
}

/// A tensor that remembers how it was made. Its plain value is made of ones.
struct Story {
    fail_at: &'static str,
    seq: usize,
    device: Device,
}

fn story(fail_at: &'static str, seq: usize) -> Story {
    Story { fail_at, seq, device: Device { norm: false, stack: false } }
}

impl Story {
    fn say(&self, s: String) -> Result<String, String> {
        if !self.fail_at.is_empty() && s.starts_with(self.fail_at) {
            Err(s)
        } else {
            Ok(s)
        }
    }
}

impl Pass for Story {
    type N = f32;
    type A = F32;
    type B = Device;
    type T = String;
    type E = String;

    fn arith(&self) -> &F32 {
        &F32
    }
    fn bank(&self) -> &Device {
        &self.device
    }
    fn plain(&self, xs: &String) -> Result<DenseTensor<f32>, String> {
        self.say(format!("plain({xs})"))?;
        Ok(DenseTensor { dims: vec![1, self.seq, 8], data: vec![1.0; self.seq * 8] })
    }
    fn tensor(&self, xs: DenseTensor<f32>) -> Result<String, String> {
        self.say(format!("tensor{:?}", xs.dims))
    }
    fn refused(&self, e: DispatchError) -> String {
        format!("{e:?}")
    }
    fn dims3(&self, _xs: &String) -> Result<(usize, usize, usize), String> {
        Ok((1, self.seq, 8))
    }
    fn layer_norm(&self, site: Site, xs: &String) -> Result<String, String> {
        self.say(format!("ln{site:?}({xs})"))
    }
    fn linear(&self, site: Site, part: Part, xs: &String) -> Result<String, String> {
        self.say(format!("{part:?}{site:?}({xs})"))
    }
    fn dims4(&self, _xs: &String) -> Result<(usize, usize, usize, usize), String> {
        Ok((1, 4, self.seq, 2))
    }
    fn reshape3(&self, xs: &String, d: (usize, usize, usize)) -> Result<String, String> {
        self.say(format!("flat{}x{}x{}({xs})", d.0, d.1, d.2))
    }
    fn reshape4(&self, xs: &String, d: (usize, usize, usize, usize)) -> Result<String, String> {
        self.say(format!("to{}x{}x{}x{}({xs})", d.0, d.1, d.2, d.3))
    }
    fn transpose(&self, xs: &String, a: usize, b: usize) -> Result<String, String> {
        self.say(format!("swap{a}{b}({xs})"))
    }
    fn contiguous(&self, xs: &String) -> Result<String, String> {
        self.say(format!("laid({xs})"))
    }
    fn narrow(&self, xs: &String, dim: usize, start: usize, len: usize) -> Result<String, String> {
        self.say(format!("cut{dim}:{start}+{len}({xs})"))
    }
    fn table(&self, entries: &Vec<f32>, rows: usize, cols: usize) -> Result<String, String> {
        self.say(format!("table{entries:?}{rows}x{cols}"))
    }
    fn joined(&self, a: &String, b: &String) -> Result<String, String> {
        self.say(format!("join({a};{b})"))
    }
    fn pick_heads(&self, xs: &String, places: &Vec<usize>) -> Result<String, String> {
        self.say(format!("pick{places:?}({xs})"))
    }
    fn matmul(&self, a: &String, b: &String) -> Result<String, String> {
        self.say(format!("mul({a};{b})"))
    }
    fn scaled(&self, xs: &String, head_dim: usize) -> Result<String, String> {
        self.say(format!("root{head_dim}({xs})"))
    }
    fn masked(&self, scores: &String, mask: &String) -> Result<String, String> {
        self.say(format!("{scores}+{mask}"))
    }
    fn softmax(&self, xs: &String) -> Result<String, String> {
        self.say(format!("soft({xs})"))
    }
    fn silu(&self, xs: &String) -> Result<String, String> {
        self.say(format!("silu({xs})"))
    }
    fn times(&self, a: &String, b: &String) -> Result<String, String> {
        self.say(format!("({a}*{b})"))
    }
    fn minus(&self, a: &String, b: &String) -> Result<String, String> {
        self.say(format!("({a}-{b})"))
    }
    fn plus(&self, a: &String, b: &String) -> Result<String, String> {
        self.say(format!("({a}+{b})"))
    }
    fn fold(&self, xs: &String, dims: (usize, usize, usize)) -> Result<String, String> {
        self.say(format!("fold{}({xs})", dims.1))
    }
    fn unfold(&self, xs: &String, _dims: (usize, usize, usize)) -> Result<String, String> {
        self.say(format!("unfold({xs})"))
    }
}

struct Stories {
    pass: Story,
}

impl Layers<f32> for Stories {
    type P = Story;

    fn block(&self, _i: usize) -> &Story {
        &self.pass
    }
    fn copy(&self, xs: &String) -> String {
        xs.clone()
    }
}

fn stories(fail_at: &'static str) -> Stories {
    Stories { pass: story(fail_at, 4) }
}

fn cache() -> RopeCache<f32> {
    build_rope_cache(4, 2, &angle)
}

/// The story of turned heads, with the angles of [`cache`].
fn turned(xs: &str) -> String {
    let x1 = format!("cut3:0+1({xs})");
    let x2 = format!("cut3:1+1({xs})");
    let cos = "to1x1x4x1(cut0:0+4(table[0.0, 1.0, 2.0, 3.0]4x1))";
    let sin = "to1x1x4x1(cut0:0+4(table[0.0, 0.0, 0.0, 0.0]4x1))";
    format!("laid(join((({x1}*{cos})-({x2}*{sin}));(({x1}*{sin})+({x2}*{cos}))))")
}

#[test]
fn an_unpacked_block_runs_on_the_host() {
    let cfg = small(NetworkVariant::Transformer);
    let b: TransformerBlock<f32> = TransformerBlock::new(&make, &make_ln, "b", &cfg, 8).unwrap();
    let pass = story("", 4);
    let m = "m".to_string();
    let x = "x".to_string();
    let out = b.attn.forward(&pass, &cache(), &x, Some(&m)).unwrap();
    let q = turned("swap12(to1x4x4x2(QueryAttention(x)))");
    let k = format!("pick[0, 0, 1, 1]({})", turned("swap12(to1x4x2x2(KeyAttention(x)))"));
    let v = "pick[0, 0, 1, 1](swap12(to1x4x2x2(ValueAttention(x))))";
    let scores = format!("root2(mul({q};laid(swap23({k}))))");
    assert_eq!(out, format!("OutputAttention(flat1x4x8(swap12(mul(soft({scores}+m);{v}))))"));
    let out = b.ffn.forward(&pass, Site::FeedForward, &x).unwrap();
    assert_eq!(
        out,
        "DownFeedForward((silu(GateFeedForward(x))*FfnValueFeedForward(x)))"
    );
    let out = b.forward(&pass, &cache(), &x, None).unwrap();
    assert!(out.starts_with("((x+Output") && out.contains("lnFeedForward((x+Output"));
}

#[test]
fn equal_head_counts_need_no_picking() {
    let mut cfg = small(NetworkVariant::Transformer);
    cfg.num_kv_heads = None;
    let b: TransformerBlock<f32> = TransformerBlock::new(&make, &make_ln, "b", &cfg, 8).unwrap();
    let out = b.attn.forward(&story("", 4), &cache(), &"x".to_string(), None).unwrap();
    assert!(!out.contains("pick") && out.contains("swap12(to1x4x4x2(KeyAttention(x)))"));
    assert!(out.contains(";laid(swap12(to1x4x4x2(ValueAttention(x))))"));
}

#[test]
fn a_packed_block_leaves_the_tensors_for_the_kernels() {
    let cfg = small(NetworkVariant::Transformer);
    let mut b: TransformerBlock<f32> =
        TransformerBlock::new(&make, &make_ln, "b", &cfg, 8).unwrap();
    b.pack_from_weights(&quantize).unwrap();
    let x = "x".to_string();
    let out = b.forward(&story("", 4), &cache(), &x, None).unwrap();
    assert_eq!(out, "((x+tensor[1, 4, 8])+tensor[1, 4, 8])");
    // the kernels read the norm's tensor, which the host gave
    assert_eq!(
        b.forward(&story("plain", 4), &cache(), &x, None).unwrap_err(),
        "plain(lnAttention(x))"
    );
    // five positions are more than the cache has
    assert_eq!(
        b.forward(&story("", 5), &cache(), &x, None).unwrap_err(),
        "RopeRows { rows: 4, seq: 5 }"
    );
    // a norm on the device starts from the input's own plain value
    let mut on_device = story("plain", 4);
    on_device.device.norm = true;
    assert_eq!(b.forward(&on_device, &cache(), &x, None).unwrap_err(), "plain(x)");
    on_device.fail_at = "";
    assert_eq!(
        b.forward(&on_device, &cache(), &x, None).unwrap(),
        "((x+tensor[1, 4, 8])+tensor[1, 4, 8])"
    );
}

#[test]
fn a_layer_packed_in_part_runs_each_projection_by_itself() {
    let cfg = small(NetworkVariant::Transformer);
    let mut b: TransformerBlock<f32> =
        TransformerBlock::new(&make, &make_ln, "b", &cfg, 8).unwrap();
    b.ffn.gate.set_packed(quantize(&b.ffn.gate.inner().weight));
    let out = b.ffn.forward(&story("", 4), Site::FeedForward, &"x".to_string()).unwrap();
    assert_eq!(out, "DownFeedForward((silu(tensor[1, 4, 8])*FfnValueFeedForward(x)))");
}

#[test]
fn the_first_failure_ends_a_pass() {
    let net = build(small(NetworkVariant::Transformer)).ok().unwrap();
    let steps = [
        "lnAttention", "Query", "to1x4x4x2", "swap12", "Key", "to1x4x2x2", "Value", "cut3:0",
        "cut3:1", "table", "cut0", "to1x1", "(cut", "((cut", "join", "laid", "pick", "swap23",
        "laid(swap23", "mul", "root2", "soft", "mul(soft", "swap12(mul", "flat", "Output", "(x+",
    ];
    for step in steps {
        let r = net.forward(&stories(step), 0.0, &"x".to_string(), None);
        match r {
            Err(ForwardError::Tensor(e)) => assert!(e.starts_with(step)),
            _ => panic!("{step} did not fail"),
        }
    }
    for step in ["lnFeed", "Gate", "silu", "FfnValue", "(silu", "Down"] {
        let r = net.forward(&stories(step), 0.0, &"x".to_string(), None);
        assert!(matches!(r, Err(ForwardError::Tensor(e)) if e.starts_with(step)));
    }
}

#[test]
fn a_packed_network_goes_to_the_device_first() {
    let mut net = build(small(NetworkVariant::Transformer)).ok().unwrap();
    let x = "x".to_string();
    let mut with_device = stories("");
    with_device.pass.device.stack = true;
    let host = net.forward(&with_device, 0.0, &x, None).ok().unwrap();
    assert!(host.contains("Query"));
    net.pack_from_weights(&quantize).unwrap();
    let dev = net.forward(&with_device, 0.0, &x, None).ok().unwrap();
    assert_eq!(dev, "tensor[1, 4, 8]");
    let back = net.forward(&stories(""), 0.0, &x, None).ok().unwrap();
    assert!(back.starts_with("((((x+tensor") && !back.contains("Query"));
}

#[test]
fn a_mixer_mixes_positions_then_channels() {
    let net = build(small(NetworkVariant::MlpMixer)).ok().unwrap();
    let x = "x".to_string();
    let out = match &net.blocks[0] {
        Block::Mixer(m) => {
            assert_eq!(m.check_seq(4), Ok(()));
            m.forward(&story("", 4), &x).ok().unwrap()
        }
        Block::Transformer(_) => unreachable!(),
    };
    assert!(out.starts_with("((x+unfold(DownToken((silu(GateToken(fold4(lnToken(x)))"));
    assert!(out.contains("lnChannel((x+unfold("));
    let wrong = Stories { pass: story("", 5) };
    assert!(matches!(
        net.forward(&wrong, 0.0, &x, None),
        Err(ForwardError::SeqLen(SeqLenMismatch { required: 4, got: 5 }))
    ));
    for step in ["lnToken", "fold", "unfold", "lnChannel", "GateChannel"] {
        let r = net.forward(&stories(step), 0.0, &x, None);
        assert!(matches!(r, Err(ForwardError::Tensor(e)) if e.starts_with(step)));
    }
}

/// Plain tensors, with a norm that keeps them and no device.
struct Values;

fn unused<T>() -> Result<T, String> {
    Err("not packed".to_string())
}

impl Pass for Values {
    type N = f32;
    type A = F32;
    type B = NoBank;
    type T = DenseTensor<f32>;
    type E = String;

    fn arith(&self) -> &F32 {
        &F32
    }
    fn bank(&self) -> &NoBank {
        &NoBank
    }
    fn plain(&self, xs: &DenseTensor<f32>) -> Result<DenseTensor<f32>, String> {
        Ok(xs.clone())
    }
    fn tensor(&self, xs: DenseTensor<f32>) -> Result<DenseTensor<f32>, String> {
        Ok(xs)
    }
    fn refused(&self, e: DispatchError) -> String {
        format!("{e:?}")
    }
    fn dims3(&self, xs: &DenseTensor<f32>) -> Result<(usize, usize, usize), String> {
        Ok((xs.dims[0], xs.dims[1], xs.dims[2]))
    }
    fn layer_norm(&self, _site: Site, xs: &DenseTensor<f32>) -> Result<DenseTensor<f32>, String> {
        Ok(xs.clone())
    }
    fn linear(
        &self,
        _site: Site,
        _part: Part,
        _xs: &DenseTensor<f32>,
    ) -> Result<DenseTensor<f32>, String> {
        unused()
    }
    fn dims4(&self, _xs: &DenseTensor<f32>) -> Result<(usize, usize, usize, usize), String> {
        unused()
    }
    fn reshape3(
        &self,
        _xs: &DenseTensor<f32>,
        _dims: (usize, usize, usize),
    ) -> Result<DenseTensor<f32>, String> {
        unused()
    }
    fn reshape4(
        &self,
        _xs: &DenseTensor<f32>,
        _dims: (usize, usize, usize, usize),
    ) -> Result<DenseTensor<f32>, String> {
        unused()
    }
    fn transpose(
        &self,
        _xs: &DenseTensor<f32>,
        _a: usize,
        _b: usize,
    ) -> Result<DenseTensor<f32>, String> {
        unused()
    }
    fn contiguous(&self, _xs: &DenseTensor<f32>) -> Result<DenseTensor<f32>, String> {
        unused()
    }
    fn narrow(
        &self,
        _xs: &DenseTensor<f32>,
        _dim: usize,
        _start: usize,
        _len: usize,
    ) -> Result<DenseTensor<f32>, String> {
        unused()
    }
    fn table(
        &self,
        _entries: &Vec<f32>,
        _rows: usize,
        _cols: usize,
    ) -> Result<DenseTensor<f32>, String> {
        unused()
    }
    fn joined(
        &self,
        _a: &DenseTensor<f32>,
        _b: &DenseTensor<f32>,
    ) -> Result<DenseTensor<f32>, String> {
        unused()
    }
    fn pick_heads(
        &self,
        _xs: &DenseTensor<f32>,
        _places: &Vec<usize>,
    ) -> Result<DenseTensor<f32>, String> {
        unused()
    }
    fn matmul(
        &self,
        _a: &DenseTensor<f32>,
        _b: &DenseTensor<f32>,
    ) -> Result<DenseTensor<f32>, String> {
        unused()
    }
    fn scaled(
        &self,
        _xs: &DenseTensor<f32>,
        _head_dim: usize,
    ) -> Result<DenseTensor<f32>, String> {
        unused()
    }
    fn masked(
        &self,
        _scores: &DenseTensor<f32>,
        _mask: &DenseTensor<f32>,
    ) -> Result<DenseTensor<f32>, String> {
        unused()
    }
    fn softmax(&self, _xs: &DenseTensor<f32>) -> Result<DenseTensor<f32>, String> {
        unused()
    }
    fn silu(&self, _xs: &DenseTensor<f32>) -> Result<DenseTensor<f32>, String> {
        unused()
    }
    fn times(
        &self,
        _a: &DenseTensor<f32>,
        _b: &DenseTensor<f32>,
    ) -> Result<DenseTensor<f32>, String> {
        unused()
    }
    fn minus(
        &self,
        _a: &DenseTensor<f32>,
        _b: &DenseTensor<f32>,
    ) -> Result<DenseTensor<f32>, String> {
        unused()
    }
    fn plus(&self, a: &DenseTensor<f32>, b: &DenseTensor<f32>) -> Result<DenseTensor<f32>, String> {
        if a.dims != b.dims {
            return Err("shapes differ".to_string());
        }
        let data = a.data.iter().zip(b.data.iter()).map(|(x, y)| x + y).collect();
        Ok(DenseTensor { dims: a.dims.clone(), data })
    }
    fn fold(
        &self,
        _xs: &DenseTensor<f32>,
        _dims: (usize, usize, usize),
    ) -> Result<DenseTensor<f32>, String> {
        unused()
    }
    fn unfold(
        &self,
        _xs: &DenseTensor<f32>,
        _dims: (usize, usize, usize),
    ) -> Result<DenseTensor<f32>, String> {
        unused()
    }
}

struct ValueLayers;

impl Layers<f32> for ValueLayers {
    type P = Values;

    fn block(&self, _i: usize) -> &Values {
        &Values
    }
    fn copy(&self, xs: &DenseTensor<f32>) -> DenseTensor<f32> {
        xs.clone()
    }
}

fn sample() -> DenseTensor<f32> {
    DenseTensor { dims: vec![2, 3, 8], data: (0..48).map(|i| (i % 5) as f32 / 8.0).collect() }
}

#[test]
fn a_packed_network_keeps_the_shape_and_repeats_its_output() {
    let mut net = build(small(NetworkVariant::Transformer)).ok().unwrap();
    let xs = sample();
    assert!(net.forward(&ValueLayers, 0.0, &xs, None).is_err());
    net.pack_from_weights(&quantize).unwrap();
    let y = net.forward(&ValueLayers, 0.0, &xs, None).ok().unwrap();
    assert_eq!(y.dims, xs.dims);
    assert_ne!(y.data, xs.data);
    let again = net.forward(&ValueLayers, 0.0, &xs, None).ok().unwrap();
    assert_eq!(again.data, y.data);
}

#[test]
fn a_packed_layer_gives_what_its_kernel_gives() {
    let cfg = small(NetworkVariant::Transformer);
    let mut b: TransformerBlock<f32> =
        TransformerBlock::new(&make, &make_ln, "b", &cfg, 8).unwrap();
    b.pack_from_weights(&quantize).unwrap();
    let xs = sample();
    let a = &b.attn;
    let mask = DenseTensor { dims: vec![3, 3], data: vec![0.0, -9.0, -9.0, 0.0, 0.0, -9.0, 0.0, 0.0, 0.0] };
    let by_layer = a.forward(&Values, &cache(), &xs, Some(&mask)).unwrap();
    let by_kernel = packed_mha(
        &F32,
        &NoBank,
        &xs,
        &a.q_proj,
        &a.k_proj,
        &a.v_proj,
        &a.o_proj,
        4,
        2,
        2,
        &cache(),
        Some(&mask.data),
    )
    .unwrap();
    assert_eq!(by_layer.dims, by_kernel.dims);
    assert_eq!(by_layer.data, by_kernel.data);

    let by_layer = b.ffn.forward(&Values, Site::FeedForward, &xs).unwrap();
    let by_kernel =
        packed_swiglu_ffn(&F32, &NoBank, &xs, &b.ffn.gate, &b.ffn.value, &b.ffn.down).unwrap();
    assert_eq!(by_layer.data, by_kernel.data);
}

#[test]
fn the_first_layer_that_cannot_be_made_is_named() {
    let failing = |at: &'static str| {
        move |name: &str, i: usize, o: usize| {
            if name.ends_with(at) {
                Err(name.to_string())
            } else {
                make(name, i, o)
            }
        }
    };
    let cfg = small(NetworkVariant::Transformer);
    let r = SharedNetwork::new(&failing("_proj"), &make_ln, &angle, "net", cfg, 8);
    assert!(matches!(r, Err(BuildError::Layer(e)) if e == "net.blocks.0.attn.q_proj"));
    let r = SharedNetwork::new(&failing("down"), &make_ln, &angle, "net", cfg, 8);
    assert!(matches!(r, Err(BuildError::Layer(e)) if e == "net.blocks.0.ffn.down"));
    let r = SharedNetwork::new(&failing("1.ffn.value"), &make_ln, &angle, "net", cfg, 8);
    assert!(matches!(r, Err(BuildError::Layer(e)) if e == "net.blocks.1.ffn.value"));
    let both = |name: &str, i: usize, o: usize| {
        if name.ends_with("gate") || name.ends_with("value") {
            Err(name.to_string())
        } else {
            make(name, i, o)
        }
    };
    let r: Result<SwiGluFfn<f32>, String> = SwiGluFfn::new(&both, "f", 8, 8);
    assert!(matches!(r, Err(e) if e == "f.gate"));
}
