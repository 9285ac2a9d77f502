use candle_core::{Device, Tensor};
use trm_omega::arith::Arith;
use trm_omega::kernel_dispatch::{
    active_backend, answer_ffn, answer_linear, answer_mha, answer_stack, ffn_takes, layer_norm_module, linear_maybe_ternary, mha_takes, packed_linear, packed_linear_f32,
    packed_mha, packed_swiglu_ffn, packed_transformer_stack, reset_copy_stats, snapshot_copy_stats, stack_takes,
    swiglu_f32, swiglu_tensors, ternary_linear_f32, Bank, CopyCounters, DispatchError, Host,
    KernelBackend, LayerError, Linear, MaybeTernaryLinear, MhaCall, NoBank, Norm, PackedLayerBufs,
    Part, RopeCache, StackCall,
};
use trm_omega::kernel_ref;
use trm_omega::named::NameMap;
use trm_omega::quantize::{quantize_rowwise_ternary, unpack_ternary, TernaryPacked};
use trm_omega::tensor::DenseTensor;

struct F32;

impl Arith for F32 {
    type Num = f32;

    fn whole(&self, n: i128) -> f32 {
        n as f32
    }
    fn plus(&self, a: f32, b: f32) -> f32 {
        a + b
    }
    fn minus(&self, a: f32, b: f32) -> f32 {
        a - b
    }
    fn times(&self, a: f32, b: f32) -> f32 {
        a * b
    }
    fn over(&self, a: f32, b: f32) -> f32 {
        a / b
    }
    fn negated(&self, a: f32) -> f32 {
        -a
    }
    fn magnitude(&self, a: f32) -> f32 {
        a.abs()
    }
    fn exp(&self, a: f32) -> f32 {
        a.exp()
    }
    fn sqrt(&self, a: f32) -> f32 {
        a.sqrt()
    }
    fn exceeds(&self, a: f32, b: f32) -> bool {
        a > b
    }
    fn lowest(&self) -> f32 {
        f32::NEG_INFINITY
    }
    fn speck(&self) -> f32 {
        1e-12
    }
}

fn max_abs_diff(a: &[f32], b: &[f32]) -> f32 {
    a.iter()
        .zip(b.iter())
        .map(|(x, y)| (x - y).abs())
        .fold(0.0f32, f32::max)
}

fn tensor(dims: &[usize], data: &[f32]) -> DenseTensor<f32> {
    DenseTensor { dims: dims.to_vec(), data: data.to_vec() }
}

/// A device that answers every call with one number per output.
struct Constant(f32);

impl Bank<f32> for Constant {
    fn swiglu(&self, gate: &[f32], _up: &[f32]) -> Option<Vec<f32>> {
        Some(vec![self.0; gate.len()])
    }
    fn linear(
        &self,
        _input: &[f32],
        pack: &TernaryPacked<f32>,
        _bias: Option<&[f32]>,
        tokens: usize,
    ) -> Option<Vec<f32>> {
        Some(vec![self.0; tokens * pack.out_dim])
    }
    fn swiglu_ffn(
        &self,
        _xs: &[f32],
        tokens: usize,
        _gate: &TernaryPacked<f32>,
        _gate_bias: Option<&[f32]>,
        _value: &TernaryPacked<f32>,
        _value_bias: Option<&[f32]>,
        down: &TernaryPacked<f32>,
        _down_bias: Option<&[f32]>,
    ) -> Option<Vec<f32>> {
        Some(vec![self.0; tokens * down.out_dim])
    }
    fn has_layer_norm(&self, _gamma: &[f32]) -> bool {
        true
    }
    fn layer_norm(
        &self,
        _input: &[f32],
        gamma: &[f32],
        beta: &[f32],
        rows: usize,
        cols: usize,
    ) -> Option<Vec<f32>> {
        assert_eq!(gamma.len(), cols);
        assert_eq!(beta.len(), cols);
        Some(vec![self.0; rows * cols])
    }
    fn mha(&self, _call: &MhaCall<f32>) -> Option<Vec<f32>> {
        None
    }
    fn stack(&self, call: &StackCall<f32>) -> Option<Vec<f32>> {
        Some(vec![self.0; call.b * call.s * call.d])
    }
}

/// The host's own layers, here marked by constants.
struct Marked;

impl Host<f32> for Marked {
    type E = &'static str;

    fn linear(
        &self,
        xs: &DenseTensor<f32>,
        _lin: &Linear<f32>,
    ) -> Result<DenseTensor<f32>, &'static str> {
        Ok(tensor(&xs.dims, &vec![7.0; xs.data.len()]))
    }
    fn layer_norm(
        &self,
        xs: &DenseTensor<f32>,
        ln: &Norm<f32>,
    ) -> Result<DenseTensor<f32>, &'static str> {
        if ln.weight.is_empty() {
            return Err("no weights");
        }
        Ok(tensor(&xs.dims, &vec![9.0; xs.data.len()]))
    }
}

#[test]
fn ternary_ref_matches_unpack_matmul() {
    let out_dim = 320; // >256 to catch the old 1D launch-grid bug
    let in_dim = 64;
    let tokens = 5;
    let weights: Vec<f32> = (0..(out_dim * in_dim))
        .map(|i| ((i % 17) as f32 / 8.0) - 1.0)
        .collect();
    let pack = quantize_rowwise_ternary(&F32, &weights, out_dim, in_dim);
    let unpacked = unpack_ternary(&F32, &pack);
    let input: Vec<f32> = (0..(tokens * in_dim))
        .map(|i| ((i % 11) as f32 / 5.0) - 0.8)
        .collect();

    let kernel_out = kernel_ref::ternary_matmul_stack(&F32, &input, &pack, tokens);

    let mut naive = vec![0f32; tokens * out_dim];
    for t in 0..tokens {
        for o in 0..out_dim {
            let mut acc = 0.0f32;
            for i in 0..in_dim {
                acc += unpacked[o * in_dim + i] * input[t * in_dim + i];
            }
            naive[t * out_dim + o] = acc;
        }
    }

    let err = max_abs_diff(&kernel_out, &naive);
    assert!(
        err < 1e-4,
        "kernel_ref vs unpack-matmul max abs {err} (backend {:?})",
        active_backend(false)
    );
}

#[test]
fn swiglu_and_layernorm_ref_finite() {
    let gate: Vec<f32> = (-8..8).map(|i| i as f32 * 0.25).collect();
    let up: Vec<f32> = (0..16).map(|i| (i as f32 - 8.0) * 0.1).collect();
    let sw = kernel_ref::swiglu_fused(&F32, &gate, &up);
    assert_eq!(sw.len(), 16);
    assert!(sw.iter().all(|v| v.is_finite()));

    let x: Vec<f32> = (0..32).map(|i| i as f32 * 0.05).collect();
    let gamma = vec![1.0f32; 8];
    let beta = vec![0.0f32; 8];
    let ln = kernel_ref::layer_norm(&F32, &x, Some(&gamma), Some(&beta), 4, 8, 1e-5);
    assert_eq!(ln.len(), 32);
    assert!(ln.iter().all(|v| v.is_finite()));
}

#[test]
fn packed_linear_matches_candle_unpacked() {
    let device = Device::Cpu;
    let out_dim = 32;
    let in_dim = 16;
    let tokens = 3;
    let weights: Vec<f32> = (0..(out_dim * in_dim))
        .map(|i| ((i % 9) as f32 / 4.0) - 1.0)
        .collect();
    let pack = quantize_rowwise_ternary(&F32, &weights, out_dim, in_dim);
    let unpacked = unpack_ternary(&F32, &pack);
    let input: Vec<f32> = (0..(tokens * in_dim))
        .map(|i| ((i % 7) as f32 / 3.0) - 0.5)
        .collect();

    let w = Tensor::from_vec(unpacked.clone(), (out_dim, in_dim), &device).unwrap();
    let x = Tensor::from_vec(input.clone(), (tokens, in_dim), &device).unwrap();
    let candle = x.matmul(&w.t().unwrap()).unwrap();
    let candle_v = candle.flatten_all().unwrap().to_vec1::<f32>().unwrap();

    let packed =
        packed_linear(&F32, &NoBank, &tensor(&[tokens, in_dim], &input), &pack, None).unwrap();
    assert_eq!(packed.dims, vec![tokens, out_dim]);
    let err = max_abs_diff(&candle_v, &packed.data);
    assert!(err < 1e-4, "packed_linear vs candle max abs {err}");
}

#[test]
fn ternary_matmul_clips_at_zero_when_asked() {
    let pack = quantize_rowwise_ternary(&F32, &[1.0, 1.0, 1.0, 1.0, -1.0, -1.0, -1.0, -1.0], 2, 4);
    let input = [1.0, 2.0, 3.0, 4.0];
    assert_eq!(kernel_ref::ternary_matmul(&F32, &input, &pack, 1, false), vec![10.0, -10.0]);
    assert_eq!(kernel_ref::ternary_matmul(&F32, &input, &pack, 1, true), vec![10.0, 0.0]);
}

#[test]
fn swiglu_is_silu_times_up() {
    let out = kernel_ref::swiglu_fused(&F32, &[0.0, 1.0], &[5.0, 2.0]);
    assert_eq!(out[0], 0.0);
    assert!((out[1] - 2.0 / (1.0 + (-1.0f32).exp())).abs() < 1e-6);
}

#[test]
fn layer_norm_centres_and_scales_each_row() {
    let out = kernel_ref::layer_norm(&F32, &[1.0, 3.0, 0.0, 4.0], None, None, 2, 2, 0.0);
    assert_eq!(out, vec![-1.0, 1.0, -1.0, 1.0]);
    let out = kernel_ref::layer_norm(&F32, &[1.0, 3.0], Some(&[2.0, 2.0]), Some(&[0.5, 0.5]), 1, 2, 0.0);
    assert_eq!(out, vec![-1.5, 2.5]);
}

#[test]
fn dense_matmul_starts_from_the_bias() {
    let a = [1.0, 2.0];
    let b = [1.0, 0.0, 3.0, 1.0];
    assert_eq!(kernel_ref::dense_matmul_bias(&F32, &a, &b, None, 1, 2, 2), vec![7.0, 2.0]);
    assert_eq!(
        kernel_ref::dense_matmul_bias(&F32, &a, &b, Some(&[1.0, 10.0]), 1, 2, 2),
        vec![8.0, 12.0]
    );
}

#[test]
fn a_bias_is_added_to_every_row() {
    let mut data = [1.0, 2.0, 3.0, 4.0];
    kernel_ref::bias_add(&F32, &mut data, &[10.0, 20.0], 2, 2);
    assert_eq!(data, [11.0, 22.0, 13.0, 24.0]);
}

#[test]
fn a_packed_linear_layer_adds_its_bias() {
    let pack = quantize_rowwise_ternary(&F32, &[1.0, 1.0, 1.0, 1.0], 1, 4);
    let out = kernel_ref::linear_with_bias(&F32, &[1.0, 2.0, 3.0, 4.0], &pack, Some(&[0.5]), 1);
    assert_eq!(out, vec![10.5]);
    assert_eq!(ternary_linear_f32(&F32, &NoBank, &[1.0, 2.0, 3.0, 4.0], &pack, 1), vec![10.0]);
}

#[test]
fn transposing_back_gives_the_start() {
    // b=1, s=2, h=2, d=2
    let src = [0.0, 1.0, 2.0, 3.0, 4.0, 5.0, 6.0, 7.0];
    let there = kernel_ref::transpose_bshd_to_bhsd(&src, 1, 2, 2, 2);
    assert_eq!(there, vec![0.0, 1.0, 4.0, 5.0, 2.0, 3.0, 6.0, 7.0]);
    assert_eq!(kernel_ref::transpose_bhsd_to_bsd(&there, 1, 2, 2, 2), src.to_vec());
}

#[test]
fn rope_turns_pairs_by_their_angle() {
    let mut q = [1.0, 0.0, 1.0, 0.0];
    // one head of width two at two positions: no turn, then a quarter turn
    kernel_ref::apply_rope(&F32, &mut q, &[1.0, 0.0], &[0.0, 1.0], 1, 1, 2, 2);
    assert_eq!(q, [1.0, 0.0, 0.0, 1.0]);
}

#[test]
fn attention_over_equal_scores_is_a_mean() {
    // one head, two positions, width one
    let out = kernel_ref::fused_attention(&F32, &[0.0, 0.0], &[1.0, 1.0], &[2.0, 4.0], None, 1, 1, 1, 2, 1, 1.0);
    assert!((out[0] - 3.0).abs() < 1e-5 && (out[1] - 3.0).abs() < 1e-5);
}

#[test]
fn masked_positions_get_no_weight() {
    let mask = [0.0, f32::NEG_INFINITY, 0.0, f32::NEG_INFINITY];
    let out = kernel_ref::fused_attention(&F32, &[0.0, 0.0], &[1.0, 1.0], &[2.0, 4.0], Some(&mask), 1, 1, 1, 2, 1, 1.0);
    assert_eq!(out, vec![2.0, 2.0]);
}

#[test]
fn key_value_heads_are_shared_in_groups() {
    // two heads over one key-value head: both see the same values
    let out = kernel_ref::fused_attention(&F32, &[0.0, 0.0], &[1.0], &[5.0], None, 1, 2, 1, 1, 1, 1.0);
    assert_eq!(out, vec![5.0, 5.0]);
}

#[test]
fn four_heads_over_two_key_value_heads_read_them_in_runs() {
    // one position, width one: a head gives the value of the key-value head that it reads
    let out = kernel_ref::fused_attention(
        &F32,
        &[0.0; 4],
        &[1.0, 1.0],
        &[5.0, 9.0],
        None,
        1,
        4,
        2,
        1,
        1,
        1.0,
    );
    assert_eq!(out, vec![5.0, 5.0, 9.0, 9.0]);
    // six heads over three, and a second batch behind the first
    let out = kernel_ref::fused_attention(
        &F32,
        &[0.0; 12],
        &[1.0; 6],
        &[1.0, 2.0, 3.0, 4.0, 5.0, 6.0],
        None,
        2,
        6,
        3,
        1,
        1,
        1.0,
    );
    assert_eq!(out, vec![1.0, 1.0, 2.0, 2.0, 3.0, 3.0, 4.0, 4.0, 5.0, 5.0, 6.0, 6.0]);
}

#[test]
fn scalars_are_refused_by_their_width() {
    let pack = ones(2, 4);
    let scalar = tensor(&[], &[1.0]);
    assert_eq!(
        packed_linear(&F32, &NoBank, &scalar, &pack, None).unwrap_err(),
        DispatchError::InDim { tensor: 0, pack: 4 }
    );
    let lin = packed(4, 4);
    assert_eq!(
        packed_swiglu_ffn(&F32, &NoBank, &scalar, &lin, &lin, &lin).unwrap_err(),
        DispatchError::InDim { tensor: 0, pack: 4 }
    );
}

#[test]
fn operands_that_do_not_fit_are_told_apart() {
    let xs = tensor(&[1, 1, 4], &[1.0; 4]);
    let good = packed(4, 4);
    let wide = packed(4, 8);
    assert!(ffn_takes(&xs, &good, &good, &good));
    assert!(!ffn_takes(&xs, &good, &wide, &good));
    assert_eq!(
        answer_ffn(&F32, &NoBank, &xs, &good, &wide, &good).unwrap_err(),
        DispatchError::Unfit
    );
    let plain = answer_ffn(&F32, &NoBank, &xs, &good, &good, &good).unwrap();
    assert_eq!(plain.data, packed_swiglu_ffn(&F32, &NoBank, &xs, &good, &good, &good).unwrap().data);

    let mut short = ones(4, 4);
    short.packed.pop();
    assert_eq!(
        answer_linear(&F32, &NoBank, &xs, &short, &None).unwrap_err(),
        DispatchError::Unfit
    );
    assert_eq!(answer_linear(&F32, &NoBank, &xs, &ones(2, 4), &None).unwrap().data, vec![4.0, 4.0]);

    let angles = rope(2, 1);
    let served = |heads: usize, kv: usize| {
        mha_takes(&xs, &good, &good, &good, &good, heads, kv, 2, &angles, None)
    };
    assert!(served(2, 2));
    assert!(served(2, 1));
    assert!(!served(3, 2));
    let mha = |heads: usize, kv: usize| {
        answer_mha(
            &F32, &NoBank, &xs, &good, &good, &good, &good, heads, kv, 2, &angles, None,
        )
    };
    assert_eq!(mha(3, 2).unwrap_err(), DispatchError::Unfit);
    assert_eq!(mha(2, 2).unwrap().dims, vec![1, 1, 4]);

    let p = ones(4, 4);
    let layers = vec![bufs(&p)];
    assert!(stack_takes(&xs, &layers, &angles));
    let broken = RopeCache { max_seq: 2, half: 1, cos: vec![1.0], sin: vec![0.0, 0.0] };
    assert!(!stack_takes(&xs, &layers, &broken));
    assert_eq!(
        answer_stack(&NoBank, &xs, &layers, &broken, None).unwrap_err(),
        DispatchError::Unfit
    );
    assert_eq!(
        answer_stack(&NoBank, &xs, &layers, &angles, None).unwrap_err(),
        DispatchError::Unavailable
    );
    assert_eq!(answer_stack(&Constant(2.0), &xs, &layers, &angles, None).unwrap().data, vec![2.0; 4]);
}

fn ones(out_dim: usize, in_dim: usize) -> TernaryPacked<f32> {
    quantize_rowwise_ternary(&F32, &vec![1.0; out_dim * in_dim], out_dim, in_dim)
}

#[test]
fn packed_ffn_is_down_of_gated_values() {
    let out = kernel_ref::packed_swiglu_ffn(
        &F32,
        &[1.0, 0.0, 0.0, 0.0],
        1,
        &ones(4, 4),
        None,
        &ones(4, 4),
        None,
        &ones(4, 4),
        None,
    );
    let h = 1.0 / (1.0 + (-1.0f32).exp());
    for v in out {
        assert!((v - 4.0 * h).abs() < 1e-5);
    }
}

#[test]
fn packed_attention_of_one_token_projects_its_values() {
    let out = kernel_ref::packed_mha(
        &F32,
        &[1.0, 2.0, 3.0, 4.0],
        1,
        1,
        &ones(4, 4),
        None,
        &ones(4, 4),
        None,
        &ones(4, 4),
        None,
        &ones(4, 4),
        None,
        2,
        2,
        2,
        &[1.0],
        &[0.0],
        None,
    );
    // values are all 10; one key gets all the weight; the output sums four of them
    for v in out {
        assert!((v - 40.0).abs() < 1e-3);
    }
}

#[test]
fn the_backend_follows_the_bank() {
    assert_eq!(active_backend(true), KernelBackend::Cuda);
    assert_eq!(active_backend(false), KernelBackend::CpuRef);
}

#[test]
fn counters_are_read_and_reset_only_where_there_is_a_bank() {
    let mb = |b: u64| b as f64 / (1024.0 * 1024.0);
    let mut bank = Some(CopyCounters {
        htod_calls: 3,
        dtoh_calls: 1,
        htod_bytes: 2 * 1024 * 1024,
        dtoh_bytes: 512 * 1024,
    });
    let stats = snapshot_copy_stats(&bank, &mb).unwrap();
    assert_eq!((stats.htod_calls, stats.dtoh_calls), (3, 1));
    assert_eq!((stats.htod_mb, stats.dtoh_mb), (2.0, 0.5));
    reset_copy_stats(&mut bank);
    let stats = snapshot_copy_stats(&bank, &mb).unwrap();
    assert_eq!((stats.htod_bytes, stats.dtoh_bytes), (0, 0));

    let mut none = None;
    reset_copy_stats(&mut none);
    assert!(none.is_none());
    assert!(snapshot_copy_stats(&none, &mb).is_none());
}

#[test]
fn a_device_answer_wins_over_the_reference() {
    assert_eq!(swiglu_f32(&F32, &Constant(3.0), &[1.0], &[1.0]), vec![3.0]);
    let out = packed_linear_f32(&F32, &Constant(3.0), &[1.0; 4], &ones(2, 4), None, 1);
    assert_eq!(out, vec![3.0, 3.0]);
}

#[test]
fn swiglu_refuses_tensors_of_different_shape() {
    let a = tensor(&[2], &[0.0, 1.0]);
    let b = tensor(&[1, 2], &[5.0, 2.0]);
    assert_eq!(swiglu_tensors(&F32, &NoBank, &a, &b).unwrap_err(), DispatchError::SwigluShape);
    let out = swiglu_tensors(&F32, &NoBank, &a, &a).unwrap();
    assert_eq!(out.dims, vec![2]);
    assert_eq!(out.data[0], 0.0);
}

#[test]
fn packed_linear_keeps_leading_dims_and_checks_the_rest() {
    let pack = ones(2, 4);
    let xs = tensor(&[2, 1, 4], &[1.0; 8]);
    let out = packed_linear(&F32, &NoBank, &xs, &pack, Some(&[0.5, 1.5])).unwrap();
    assert_eq!(out.dims, vec![2, 1, 2]);
    assert_eq!(out.data, vec![4.5, 5.5, 4.5, 5.5]);
    assert_eq!(
        packed_linear(&F32, &NoBank, &tensor(&[1, 3], &[1.0; 3]), &pack, None).unwrap_err(),
        DispatchError::InDim { tensor: 3, pack: 4 }
    );
    assert_eq!(
        packed_linear(&F32, &NoBank, &xs, &pack, Some(&[0.5])).unwrap_err(),
        DispatchError::BiasLen { len: 1, out_dim: 2 }
    );
}

fn linear(out_dim: usize, in_dim: usize) -> MaybeTernaryLinear<f32> {
    MaybeTernaryLinear::new(Linear {
        weight: tensor(&[out_dim, in_dim], &vec![1.0; out_dim * in_dim]),
        bias: None,
    })
}

fn packed(out_dim: usize, in_dim: usize) -> MaybeTernaryLinear<f32> {
    let mut l = linear(out_dim, in_dim);
    l.set_packed(ones(out_dim, in_dim));
    l
}

#[test]
fn packing_takes_matrices_whose_width_is_a_multiple_of_four() {
    let quantize = |w: &DenseTensor<f32>| {
        quantize_rowwise_ternary(&F32, &w.data, w.dims[0], w.dims[1])
    };
    let mut l = linear(2, 4);
    assert!(!l.is_packed());
    assert_eq!(l.pack_from_weight(&quantize), Ok(()));
    assert!(l.is_packed());
    assert_eq!(l.packed().unwrap().out_dim, 2);
    assert_eq!(l.inner().weight.dims, vec![2, 4]);

    let mut narrow = linear(2, 3);
    narrow.set_packed(ones(2, 4));
    assert_eq!(narrow.pack_from_weight(&quantize), Ok(()));
    assert!(!narrow.is_packed());

    let mut vector = MaybeTernaryLinear::new(Linear { weight: tensor(&[4], &[1.0; 4]), bias: None });
    assert_eq!(vector.pack_from_weight(&quantize), Err(DispatchError::Rank { rank: 1 }));
}

#[test]
fn a_layer_takes_the_pack_under_its_own_name() {
    let mut packs = NameMap::new();
    packs.insert("a.weight".to_string(), ones(2, 4));
    let mut l = linear(2, 4);
    l.apply_named("b", &packs);
    assert!(!l.is_packed());
    l.apply_named("a", &packs);
    assert!(l.is_packed());
}

#[test]
fn packed_ffn_names_the_layer_that_is_not_packed() {
    let xs = tensor(&[1, 4], &[1.0, 0.0, 0.0, 0.0]);
    let out = packed_swiglu_ffn(&F32, &NoBank, &xs, &packed(4, 4), &packed(4, 4), &packed(4, 4));
    assert_eq!(out.unwrap().dims, vec![1, 4]);
    let err = packed_swiglu_ffn(&F32, &NoBank, &xs, &packed(4, 4), &linear(4, 4), &packed(4, 4));
    assert_eq!(err.unwrap_err(), DispatchError::NotPacked { part: Part::FfnValue });
    let narrow = tensor(&[1, 2], &[1.0, 0.0]);
    let err = packed_swiglu_ffn(&F32, &NoBank, &narrow, &packed(4, 4), &packed(4, 4), &packed(4, 4));
    assert_eq!(err.unwrap_err(), DispatchError::InDim { tensor: 2, pack: 4 });
}

fn rope(max_seq: usize, half: usize) -> RopeCache<f32> {
    RopeCache {
        max_seq,
        half,
        cos: vec![1.0; max_seq * half],
        sin: vec![0.0; max_seq * half],
    }
}

#[test]
fn packed_attention_checks_its_operands() {
    let l = packed(4, 4);
    let xs = tensor(&[1, 2, 4], &[1.0; 8]);
    let out = packed_mha(&F32, &NoBank, &xs, &l, &l, &l, &l, 2, 2, 2, &rope(2, 1), None).unwrap();
    assert_eq!(out.dims, vec![1, 2, 4]);

    let flat = tensor(&[2, 4], &[1.0; 8]);
    let err = packed_mha(&F32, &NoBank, &flat, &l, &l, &l, &l, 2, 2, 2, &rope(2, 1), None);
    assert_eq!(err.unwrap_err(), DispatchError::Rank { rank: 2 });
    let bare = linear(4, 4);
    let err = packed_mha(&F32, &NoBank, &xs, &l, &bare, &l, &l, 2, 2, 2, &rope(2, 1), None);
    assert_eq!(err.unwrap_err(), DispatchError::NotPacked { part: Part::Key });
    let err = packed_mha(&F32, &NoBank, &xs, &l, &l, &l, &l, 2, 2, 2, &rope(1, 1), None);
    assert_eq!(err.unwrap_err(), DispatchError::RopeRows { rows: 1, seq: 2 });
    let err = packed_mha(&F32, &NoBank, &xs, &l, &l, &l, &l, 2, 2, 2, &rope(2, 0), None);
    assert_eq!(err.unwrap_err(), DispatchError::RopeTooShort { seq: 2 });
    let err = packed_mha(&F32, &NoBank, &xs, &l, &l, &l, &l, 2, 2, 2, &rope(2, 1), Some(&[0.0; 3]));
    assert_eq!(err.unwrap_err(), DispatchError::MaskLen { len: 3 });
}

#[test]
fn one_mask_serves_every_sequence_of_the_batch() {
    let l = packed(4, 4);
    let data: Vec<f32> = (0..16).map(|i| i as f32).collect();
    let xs = tensor(&[2, 2, 4], &data);
    let hide = f32::NEG_INFINITY;
    let one = [0.0, hide, 0.0, hide];
    let both = [0.0, hide, 0.0, hide, 0.0, hide, 0.0, hide];
    let a = packed_mha(&F32, &NoBank, &xs, &l, &l, &l, &l, 2, 2, 2, &rope(2, 1), Some(&one));
    let b = packed_mha(&F32, &NoBank, &xs, &l, &l, &l, &l, 2, 2, 2, &rope(2, 1), Some(&both));
    assert_eq!(a.unwrap().data, b.unwrap().data);
}

fn bufs<'a>(p: &'a TernaryPacked<f32>) -> PackedLayerBufs<'a, f32> {
    PackedLayerBufs {
        ln_attn_g: vec![1.0; 4],
        ln_attn_b: vec![0.0; 4],
        ln_ffn_g: vec![1.0; 4],
        ln_ffn_b: vec![0.0; 4],
        q: p,
        q_bias: None,
        k: p,
        k_bias: None,
        v: p,
        v_bias: None,
        o: p,
        o_bias: None,
        gate: p,
        gate_bias: None,
        value: p,
        value_bias: None,
        down: p,
        down_bias: None,
        n_heads: 2,
        n_kv: 2,
        head_dim: 2,
    }
}

#[test]
fn a_packed_stack_needs_layers_and_a_device() {
    let p = ones(4, 4);
    let xs = tensor(&[1, 2, 4], &[1.0; 8]);
    let layers = vec![bufs(&p)];
    let out = packed_transformer_stack(&Constant(2.0), &xs, &layers, &rope(2, 1), None).unwrap();
    assert_eq!(out.dims, vec![1, 2, 4]);
    assert_eq!(out.data, vec![2.0; 8]);
    let err = packed_transformer_stack(&NoBank, &xs, &layers, &rope(2, 1), None);
    assert_eq!(err.unwrap_err(), DispatchError::Unavailable);
    let none = Vec::new();
    let err = packed_transformer_stack(&Constant(2.0), &xs, &none, &rope(2, 1), None);
    assert_eq!(err.unwrap_err(), DispatchError::EmptyStack);
}

#[test]
fn layers_fall_back_to_the_host() {
    let xs = tensor(&[1, 4], &[1.0; 4]);
    let l = linear(4, 4);
    let out = l.forward(&F32, &NoBank, &Marked, &xs).unwrap();
    assert_eq!(out.data, vec![7.0; 4]);
    let out = packed(4, 4).forward(&F32, &NoBank, &Marked, &xs).unwrap();
    assert_eq!(out.data, vec![4.0; 4]);
    let narrow = tensor(&[1, 2], &[1.0; 2]);
    let p = ones(4, 4);
    let err = linear_maybe_ternary(&F32, &NoBank, &Marked, &narrow, l.inner(), Some(&p));
    assert!(matches!(
        err.unwrap_err(),
        LayerError::Dispatch(DispatchError::InDim { tensor: 2, pack: 4 })
    ));
}

#[test]
fn norms_run_on_the_device_where_it_answers() {
    let xs = tensor(&[2, 2], &[1.0, 3.0, 0.0, 4.0]);
    let ln = Norm { weight: vec![1.0; 2], bias: None };
    let out = layer_norm_module(&Constant(5.0), &Marked, &xs, &ln, 0.0).unwrap();
    assert_eq!(out.data, vec![5.0; 4]);
    let out = layer_norm_module(&NoBank, &Marked, &xs, &ln, 0.0).unwrap();
    assert_eq!(out.data, vec![9.0; 4]);
    let bare = Norm { weight: vec![], bias: None };
    let err = layer_norm_module(&NoBank, &Marked, &xs, &bare, 0.0);
    assert!(matches!(err.unwrap_err(), LayerError::Host("no weights")));
}
