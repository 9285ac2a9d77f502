use candle_core::{DType, Device, Tensor};
use candle_nn::{VarBuilder, VarMap};
use trm_omega::arith::Arith;
use trm_omega::named::NameMap;
use trm_omega::train::optimizer::{
    pattern_matches, AdamDefaults, CosineScheduler, MultiGroupOptimizer, ParamGroup, Phase,
    TensorMath,
};

struct F64;

impl Arith for F64 {
    type Num = f64;

    fn whole(&self, n: i128) -> f64 {
        n as f64
    }
    fn plus(&self, a: f64, b: f64) -> f64 {
        a + b
    }
    fn minus(&self, a: f64, b: f64) -> f64 {
        a - b
    }
    fn times(&self, a: f64, b: f64) -> f64 {
        a * b
    }
    fn over(&self, a: f64, b: f64) -> f64 {
        a / b
    }
    fn negated(&self, a: f64) -> f64 {
        -a
    }
    fn magnitude(&self, a: f64) -> f64 {
        a.abs()
    }
    fn exp(&self, a: f64) -> f64 {
        a.exp()
    }
    fn sqrt(&self, a: f64) -> f64 {
        a.sqrt()
    }
    fn exceeds(&self, a: f64, b: f64) -> bool {
        a > b
    }
    fn lowest(&self) -> f64 {
        f64::NEG_INFINITY
    }
    fn speck(&self) -> f64 {
        1e-12
    }
}

struct Candle;

impl TensorMath<f64> for Candle {
    type T = Tensor;
    type E = candle_core::Error;

    fn zeros_like(&self, t: &Tensor) -> Tensor {
        t.zeros_like().unwrap()
    }
    fn rank(&self, t: &Tensor) -> usize {
        t.rank()
    }
    fn affine(&self, t: &Tensor, mul: f64, shift: f64) -> Result<Tensor, candle_core::Error> {
        t.affine(mul, shift)
    }
    fn plus(&self, a: &Tensor, b: &Tensor) -> Result<Tensor, candle_core::Error> {
        a + b
    }
    fn minus(&self, a: &Tensor, b: &Tensor) -> Result<Tensor, candle_core::Error> {
        a - b
    }
    fn over(&self, a: &Tensor, b: &Tensor) -> Result<Tensor, candle_core::Error> {
        a / b
    }
    fn atan2(&self, a: &Tensor, b: &Tensor) -> Result<Tensor, candle_core::Error> {
        let y = a.flatten_all()?.to_vec1::<f32>()?;
        let x = b.flatten_all()?.to_vec1::<f32>()?;
        let out: Vec<f32> = y.iter().zip(x.iter()).map(|(y, x)| y.atan2(*x)).collect();
        Tensor::from_vec(out, a.shape(), a.device())
    }
    fn square(&self, a: &Tensor) -> Result<Tensor, candle_core::Error> {
        a.sqr()
    }
    fn root(&self, a: &Tensor) -> Result<Tensor, candle_core::Error> {
        a.sqrt()
    }
    fn copy(&self, a: &Tensor) -> Result<Tensor, candle_core::Error> {
        Ok(a.clone())
    }
    fn square_sum(&self, a: &Tensor) -> Result<f64, candle_core::Error> {
        Ok(a.sqr()?.sum_all()?.to_scalar::<f32>()? as f64)
    }
    fn power(&self, base: f64, t: i32) -> f64 {
        base.powi(t)
    }
    fn off_zero(&self, x: f64) -> f64 {
        x.max(1e-16)
    }
    fn usable_clip(&self, x: f64) -> bool {
        x.is_finite() && x > 0.0
    }
    fn invertible(&self, x: f64) -> bool {
        x.abs() > 1e-12
    }
    fn nonpositive(&self, x: f64) -> bool {
        x <= 0.0
    }
    fn length(&self, total: f64) -> f64 {
        total.max(0.0).sqrt()
    }
}

fn default_rates(base: f64, puzzle: f64, wd: f64, puzzle_wd: f64) -> MultiGroupOptimizer<f64, Tensor> {
    MultiGroupOptimizer::trm_default(
        AdamDefaults { beta1: 0.9, beta2: 0.999, eps: 1e-8 },
        base,
        puzzle,
        wd,
        puzzle_wd,
        1.0,
    )
}

fn values(t: &Tensor) -> Vec<f32> {
    t.flatten_all().unwrap().to_vec1::<f32>().unwrap()
}

#[test]
fn adamw_step_changes_parameters() {
    let device = Device::Cpu;
    let varmap = VarMap::new();
    let vb = VarBuilder::from_varmap(&varmap, DType::F32, &device);
    let w = vb
        .get_with_hints(
            (2, 2),
            "shared_network.weight",
            candle_nn::Init::Randn {
                mean: 0.0,
                stdev: 0.5,
            },
        )
        .unwrap();
    let x = Tensor::from_vec(vec![0.5f32, -0.25, 0.75, 1.0], (2, 2), &device).unwrap();
    let y = w.matmul(&x).unwrap().sqr().unwrap().sum_all().unwrap();
    let grads = y.backward().unwrap();

    let mut opt = default_rates(1e-2, 1e-2, 0.0, 0.0);
    let mut pairs = Vec::new();
    let mut vars = NameMap::new();
    for (name, var) in varmap.data().lock().unwrap().iter() {
        if let Some(g) = grads.get(var.as_tensor()) {
            pairs.push((name.clone(), g.clone()));
        }
        vars.insert(name.clone(), var.as_tensor().clone());
    }
    opt.accumulate(&Candle, pairs).unwrap();
    assert!(opt.pending_count() > 0, "expected grads on shared_network.weight");

    let before = values(vars.get("shared_network.weight").unwrap());

    let clip = opt.clip_scale(&F64, &Candle, 1.0).unwrap();
    opt.step(&F64, &Candle, &mut vars, clip, 1.0).unwrap();
    opt.zero_grad();

    let after = values(vars.get("shared_network.weight").unwrap());

    let changed = before
        .iter()
        .zip(after.iter())
        .any(|(a, b)| (a - b).abs() > 1e-8);
    assert!(changed, "AdamW step must update weights");
    assert_eq!(opt.pending_count(), 0);
}

fn cos_pi(x: f64) -> f64 {
    (std::f64::consts::PI * x).cos()
}

#[test]
fn cosine_scheduler_warms_up_then_decays() {
    let sch = CosineScheduler::new(vec![1e-3], 10, 110, 0.01);
    let lr0 = sch.get_lrs(&F64, &cos_pi, 0)[0];
    let lr_mid_warm = sch.get_lrs(&F64, &cos_pi, 5)[0];
    let lr_end_warm = sch.get_lrs(&F64, &cos_pi, 10)[0];
    let lr_late = sch.get_lrs(&F64, &cos_pi, 110)[0];
    assert!(lr0 < lr_mid_warm);
    assert!((lr_end_warm - 1e-3).abs() < 1e-12);
    assert!(lr_late < lr_end_warm);
}

#[test]
fn the_schedule_has_three_phases() {
    let sch = CosineScheduler::new(vec![1.0, 2.0], 10, 110, 0.01);
    assert_eq!(sch.phase(9), Phase::Warmup { done: 9, of: 10 });
    assert_eq!(sch.phase(10), Phase::Decay { done: 0, of: 100 });
    assert_eq!(sch.phase(109), Phase::Decay { done: 99, of: 100 });
    assert_eq!(sch.phase(110), Phase::Floor);
    assert_eq!(sch.get_lrs(&F64, &cos_pi, 5), vec![0.5, 1.0]);
    assert_eq!(sch.get_lrs(&F64, &cos_pi, 200), vec![0.01, 0.02]);
    let half = sch.get_lrs(&F64, &cos_pi, 60)[0];
    assert!((half - (0.01 + 0.99 * 0.5)).abs() < 1e-12);
}

#[test]
fn without_warmup_the_rate_starts_at_its_base() {
    let sch = CosineScheduler::new(vec![1.0], 0, 0, 0.01);
    assert_eq!(sch.phase(0), Phase::Floor);
    let sch = CosineScheduler::new(vec![1.0], 0, 4, 0.01);
    assert_eq!(sch.get_lrs(&F64, &cos_pi, 0), vec![1.0]);
}

#[test]
fn patterns_match_by_star_prefix_suffix_or_name() {
    assert!(pattern_matches("*", "anything"));
    assert!(pattern_matches("puzzle*", "puzzle.weight"));
    assert!(!pattern_matches("puzzle*", "a.puzzle"));
    assert!(!pattern_matches("*puzzle*", "emb.puzzle.weight"));
    assert!(pattern_matches("*.weight", "emb.weight"));
    assert!(!pattern_matches("*.weight", "emb.bias"));
    assert!(pattern_matches("emb", "emb"));
    assert!(!pattern_matches("emb", "emb.weight"));
}

#[test]
fn puzzle_embeddings_have_their_own_group() {
    let opt = default_rates(1e-3, 1e-4, 0.1, 0.2);
    let net = opt.find_group("shared_network.blocks.0.ffn.gate.weight");
    let puzzle = opt.find_group("embeddings.puzzle.weight");
    assert_eq!(opt.groups[net].lr, 1e-3);
    assert_eq!(opt.groups[puzzle].lr, 1e-4);
    assert_eq!(opt.groups[puzzle].weight_decay, 0.2);
}

#[test]
fn gradients_add_up_until_they_are_dropped() {
    let dev = Device::Cpu;
    let mut opt = default_rates(1e-2, 1e-2, 0.0, 0.0);
    let g = Tensor::from_vec(vec![3.0f32, 4.0], (2,), &dev).unwrap();
    opt.accumulate(&Candle, vec![("a".to_string(), g.clone())]).unwrap();
    opt.accumulate(&Candle, vec![("a".to_string(), g.clone())]).unwrap();
    assert_eq!(opt.pending_count(), 1);
    assert_eq!(values(opt.pending.get("a").unwrap()), vec![6.0, 8.0]);
    // the gradient has length ten
    let clip = opt.clip_scale(&F64, &Candle, 1.0).unwrap();
    assert!((clip - 0.1).abs() < 1e-6);
    let clip = opt.clip_scale(&F64, &Candle, 100.0).unwrap();
    assert_eq!(clip, 1.0);
    opt.zero_grad();
    assert_eq!(opt.pending_count(), 0);
}

#[test]
fn the_first_adam_step_moves_by_the_rate() {
    let dev = Device::Cpu;
    let mut opt = MultiGroupOptimizer::new(
        vec![ParamGroup {
            lr: 0.5,
            weight_decay: 0.0,
            beta1: 0.9,
            beta2: 0.999,
            eps: 1e-8,
            use_atan2: false,
            name_patterns: vec!["*".to_string()],
        }],
        1.0,
    );
    let mut vars = NameMap::new();
    vars.insert("w".to_string(), Tensor::from_vec(vec![1.0f32, 1.0], (2,), &dev).unwrap());
    let g = Tensor::from_vec(vec![2.0f32, -3.0], (2,), &dev).unwrap();
    opt.accumulate(&Candle, vec![("w".to_string(), g)]).unwrap();
    opt.step(&F64, &Candle, &mut vars, 1.0, 1.0).unwrap();
    let w = values(vars.get("w").unwrap());
    assert!((w[0] - 0.5).abs() < 1e-4 && (w[1] - 1.5).abs() < 1e-4);
    // a variable without a gradient stays
    opt.zero_grad();
    opt.step(&F64, &Candle, &mut vars, 1.0, 1.0).unwrap();
    assert_eq!(values(vars.get("w").unwrap()), w);
}

#[test]
fn rates_go_to_the_groups_in_order() {
    let mut opt = default_rates(1e-3, 1e-4, 0.0, 0.0);
    opt.set_lrs(&[0.5]);
    assert_eq!(opt.groups[0].lr, 0.5);
    assert_eq!(opt.groups[1].lr, 1e-4);
    opt.set_lrs(&[0.1, 0.2, 0.3]);
    assert_eq!((opt.groups[0].lr, opt.groups[1].lr), (0.1, 0.2));
}

#[test]
fn a_step_that_fails_leaves_the_later_variables() {
    let dev = Device::Cpu;
    let mut opt = default_rates(0.5, 0.5, 0.0, 0.0);
    let mut vars = NameMap::new();
    for name in ["a", "b", "c"] {
        vars.insert(name.to_string(), Tensor::from_vec(vec![1.0f32, 1.0], (2,), &dev).unwrap());
    }
    let fits = Tensor::from_vec(vec![2.0f32, -3.0], (2,), &dev).unwrap();
    let long = Tensor::from_vec(vec![2.0f32, -3.0, 1.0], (3,), &dev).unwrap();
    let pairs = vec![
        ("a".to_string(), fits.clone()),
        ("b".to_string(), long),
        ("c".to_string(), fits),
    ];
    opt.accumulate(&Candle, pairs).unwrap();
    assert!(opt.step(&F64, &Candle, &mut vars, 1.0, 2.0).is_err());
    assert_ne!(values(vars.get("a").unwrap()), vec![1.0, 1.0]);
    assert_eq!(values(vars.get("b").unwrap()), vec![1.0, 1.0]);
    assert_eq!(values(vars.get("c").unwrap()), vec![1.0, 1.0]);
    assert_eq!(opt.states.get("a").unwrap().step, 1);
    // the step that failed counts, and its means stay where they were
    let failed = opt.states.get("b").unwrap();
    assert_eq!(failed.step, 1);
    assert_eq!((values(&failed.m), values(&failed.v)), (vec![0.0, 0.0], vec![0.0, 0.0]));
    assert!(opt.states.get("c").is_none());
    assert_eq!(opt.pending_count(), 3);
    assert_eq!(opt.loss_scale, 2.0);
}

#[test]
fn a_scheduled_step_sets_rates_clips_steps_and_drops() {
    let dev = Device::Cpu;
    let mut opt = default_rates(1e-2, 1e-2, 0.0, 0.0);
    let scheduler = CosineScheduler::new(vec![0.5, 0.25], 10, 100, 0.01);
    let mut vars = NameMap::new();
    vars.insert(
        "embeddings.puzzle.w".to_string(),
        Tensor::from_vec(vec![1.0f32, 1.0], (2,), &dev).unwrap(),
    );
    let g = Tensor::from_vec(vec![3.0f32, -4.0], (2,), &dev).unwrap();
    opt.accumulate(&Candle, vec![("embeddings.puzzle.w".to_string(), g)]).unwrap();
    let cos_pi = |x: f64| (std::f64::consts::PI * x).cos();
    opt.scheduled_step(&F64, &Candle, &cos_pi, &scheduler, &mut vars, 4, 1.0).unwrap();
    // four tenths of the way up
    assert!((opt.groups[0].lr - 0.2).abs() < 1e-12);
    assert!((opt.groups[1].lr - 0.1).abs() < 1e-12);
    assert!((opt.current_clip_scale - 0.2).abs() < 1e-6);
    assert_eq!(opt.loss_scale, 1.0);
    assert_eq!(opt.pending_count(), 0);
    let w = values(vars.get("embeddings.puzzle.w").unwrap());
    assert!((w[0] - 0.9).abs() < 1e-4 && (w[1] - 1.1).abs() < 1e-4);
}

#[test]
fn a_clip_factor_fails_only_where_a_sum_of_squares_does() {
    let dev = Device::Cpu;
    let mut opt = default_rates(1e-2, 1e-2, 0.0, 0.0);
    let mut vars = NameMap::new();
    let mut pairs = Vec::new();
    for name in ["a", "b"] {
        let v = Tensor::from_vec(vec![1.0f32, 1.0], (2,), &dev).unwrap();
        vars.insert(name.to_string(), v);
        // a sum of squares is read in single precision
        let dtype = if name == "a" { DType::F32 } else { DType::F64 };
        let g = Tensor::from_vec(vec![3.0f32, 4.0], (2,), &dev).unwrap().to_dtype(dtype).unwrap();
        pairs.push((name.to_string(), g));
    }
    opt.accumulate(&Candle, pairs).unwrap();
    assert!(opt.clip_scale(&F64, &Candle, 1.0).is_err());
    assert_eq!(opt.clip_scale(&F64, &Candle, 0.0).unwrap(), 1.0);
    opt.zero_grad();
    assert_eq!(opt.clip_scale(&F64, &Candle, 1.0).unwrap(), 1.0);
}

#[test]
fn a_scheduled_step_that_cannot_clip_changes_no_variable() {
    let dev = Device::Cpu;
    let mut opt = default_rates(1e-2, 1e-2, 0.0, 0.0);
    let scheduler = CosineScheduler::new(vec![0.5, 0.25], 10, 100, 0.01);
    let mut vars = NameMap::new();
    vars.insert("a".to_string(), Tensor::from_vec(vec![1.0f32, 1.0], (2,), &dev).unwrap());
    let g = Tensor::from_vec(vec![3.0f64, -4.0], (2,), &dev).unwrap();
    opt.accumulate(&Candle, vec![("a".to_string(), g)]).unwrap();
    let cos_pi = |x: f64| (std::f64::consts::PI * x).cos();
    let r = opt.scheduled_step(&F64, &Candle, &cos_pi, &scheduler, &mut vars, 4, 1.0);
    assert!(r.is_err());
    assert_eq!(values(vars.get("a").unwrap()), vec![1.0, 1.0]);
    assert!(opt.states.get("a").is_none());
    assert_eq!(opt.pending_count(), 1);
}

#[test]
fn nothing_pending_needs_no_group() {
    let dev = Device::Cpu;
    let mut opt = default_rates(1e-2, 1e-2, 0.0, 0.0);
    opt.groups.clear();
    let mut vars = NameMap::new();
    vars.insert("a".to_string(), Tensor::from_vec(vec![1.0f32, 1.0], (2,), &dev).unwrap());
    opt.step(&F64, &Candle, &mut vars, 1.0, 1.0).unwrap();
    assert_eq!(values(vars.get("a").unwrap()), vec![1.0, 1.0]);
    assert!(opt.states.get("a").is_none());
}
