use candle_core::{DType, Device, Tensor, D};
use trm_omega::ratio::Ratio;
use trm_omega::train::loss::{
    cross_entropy, deep_supervision_loss, exact_match_accuracy, halting_ponder_loss, last_step_only_weights,
    linear_increasing_weights, supervision_weights, token_accuracy, DsWeightScheme, LossMath,
};

fn value(r: &Ratio) -> f64 {
    r.num as f64 / r.den as f64
}

#[test]
fn deep_sup_weights_sum_and_last_only() {
    let w: Vec<f64> = linear_increasing_weights(4).iter().map(value).collect();
    let s: f64 = w.iter().sum();
    assert!((s - 1.0).abs() < 1e-12);
    assert!(w[3] > w[0]);
    let last: Vec<f64> = last_step_only_weights(3).iter().map(value).collect();
    assert_eq!(last, vec![0.0, 0.0, 1.0]);
}

#[test]
fn exact_and_token_accuracy() {
    let preds = vec![vec![1u32, 2, 3], vec![1, 1, 1]];
    let tgts = vec![vec![1u32, 2, 3], vec![1, 0, 1]];
    assert!((value(&exact_match_accuracy(&preds, &tgts)) - 0.5).abs() < 1e-12);
    assert!((value(&token_accuracy(&preds, &tgts)) - 5.0 / 6.0).abs() < 1e-12);
    assert_eq!(value(&exact_match_accuracy(&[], &[])), 0.0);
}

#[test]
fn rising_weights_are_exact_fractions() {
    let w = linear_increasing_weights(4);
    assert_eq!(w, vec![
        Ratio { num: 1, den: 10 },
        Ratio { num: 2, den: 10 },
        Ratio { num: 3, den: 10 },
        Ratio { num: 4, den: 10 },
    ]);
    assert!(linear_increasing_weights(0).is_empty());
    assert_eq!(linear_increasing_weights(1), vec![Ratio { num: 1, den: 1 }]);
}

#[test]
fn rising_weights_add_up_to_one() {
    for n in 1..40usize {
        let w = linear_increasing_weights(n);
        let total: u128 = w.iter().map(|r| r.num).sum();
        assert_eq!(total, w[0].den);
    }
}

#[test]
fn the_scheme_picks_the_weights() {
    assert_eq!(
        supervision_weights(DsWeightScheme::LinearIncreasing, 3),
        linear_increasing_weights(3)
    );
    assert_eq!(supervision_weights(DsWeightScheme::LastOnly, 3), last_step_only_weights(3));
    let uniform: Vec<f64> =
        supervision_weights(DsWeightScheme::Uniform, 4).iter().map(value).collect();
    assert_eq!(uniform, vec![0.25; 4]);
    assert!(last_step_only_weights(0).is_empty());
}

#[test]
fn accuracies_count_over_the_shorter_of_two_lists() {
    let preds = vec![vec![1u32, 2], vec![3]];
    let tgts = vec![vec![1u32]];
    let t = token_accuracy(&preds, &tgts);
    assert_eq!((t.num, t.den), (1, 1));
    let none: Vec<Vec<u32>> = vec![];
    let t = token_accuracy(&none, &none);
    assert_eq!((t.num, t.den), (0, 1));
}

/// Losses as plain numbers: a prediction is scored against its target by their distance, and a
/// negative prediction cannot be scored.
struct Numbers;

impl LossMath for Numbers {
    type T = f64;
    type W = f64;
    type E = String;

    fn zero(&self, _like: Option<&f64>) -> Result<f64, String> {
        Ok(0.0)
    }
    fn log_softmax(&self, logits: &f64) -> Result<f64, String> {
        if *logits < 0.0 {
            Err(format!("cannot score {logits}"))
        } else {
            Ok(-logits)
        }
    }
    fn at_targets(&self, t: &f64, targets: &f64) -> Result<f64, String> {
        Ok(t * targets)
    }
    fn differs(&self, targets: &f64, class: u32) -> Result<f64, String> {
        if class == 99 {
            Err("no such class".to_string())
        } else if *targets == class as f64 {
            Ok(0.0)
        } else {
            Ok(1.0)
        }
    }
    fn negated(&self, t: &f64) -> Result<f64, String> {
        if t.is_nan() {
            Err("not a number".to_string())
        } else {
            Ok(-t)
        }
    }
    fn one_more(&self, t: &f64) -> Result<f64, String> {
        Ok(t + 1.0)
    }
    fn times(&self, a: &f64, b: &f64) -> Result<f64, String> {
        Ok(a * b)
    }
    fn total(&self, t: &f64) -> Result<f64, String> {
        Ok(*t)
    }
    fn mean(&self, t: &f64) -> Result<f64, String> {
        Ok(*t)
    }
    fn at_least_one(&self, t: &f64) -> Result<f64, String> {
        Ok(t.max(1.0))
    }
    fn over(&self, a: &f64, b: &f64) -> Result<f64, String> {
        Ok(a / b)
    }
    fn uniform(&self, n: usize) -> f64 {
        1.0 / n as f64
    }
    fn weighed(&self, loss: &f64, w: f64) -> Result<f64, String> {
        Ok(loss * w)
    }
    fn plus(&self, a: &f64, b: &f64) -> Result<f64, String> {
        Ok(a + b)
    }
}

#[test]
fn cross_entropy_is_a_mean_without_the_ignored() {
    assert_eq!(cross_entropy(&Numbers, &2.0, &10.0, None), Ok(20.0));
    assert_eq!(cross_entropy(&Numbers, &2.0, &10.0, Some(3)), Ok(20.0));
    // nothing is left, and the sum is divided by one
    assert_eq!(cross_entropy(&Numbers, &2.0, &10.0, Some(10)), Ok(0.0));
    assert_eq!(cross_entropy(&Numbers, &-2.0, &10.0, None), Err("cannot score -2".to_string()));
    assert_eq!(
        cross_entropy(&Numbers, &2.0, &10.0, Some(99)),
        Err("no such class".to_string())
    );
}

#[test]
fn deep_supervision_weighs_every_step() {
    let steps = [1.0, 2.0];
    assert_eq!(deep_supervision_loss(&Numbers, &steps, &10.0, None, None), Ok(15.0));
    assert_eq!(
        deep_supervision_loss(&Numbers, &steps, &10.0, Some(&[0.0, 1.0]), Some(3)),
        Ok(20.0)
    );
    assert_eq!(deep_supervision_loss(&Numbers, &[], &10.0, None, None), Ok(0.0));
    assert_eq!(
        deep_supervision_loss(&Numbers, &[1.0, -2.0], &10.0, None, None),
        Err("cannot score -2".to_string())
    );
}

#[test]
fn pondering_costs_what_is_left_to_one() {
    assert_eq!(halting_ponder_loss(&Numbers, &[0.25, 0.75], 0.5), Ok(0.5));
    assert_eq!(halting_ponder_loss(&Numbers, &[], 0.5), Ok(0.0));
    assert!(halting_ponder_loss(&Numbers, &[f64::NAN], 0.5).is_err());
}

struct Candle;

impl LossMath for Candle {
    type T = Tensor;
    type W = f64;
    type E = candle_core::Error;

    fn zero(&self, like: Option<&Tensor>) -> Result<Tensor, candle_core::Error> {
        Tensor::new(0f32, like.map_or(&Device::Cpu, |t| t.device()))
    }
    fn log_softmax(&self, logits: &Tensor) -> Result<Tensor, candle_core::Error> {
        candle_nn::ops::log_softmax(logits, D::Minus1)
    }
    fn at_targets(&self, t: &Tensor, targets: &Tensor) -> Result<Tensor, candle_core::Error> {
        let classes = targets.to_dtype(DType::U32)?.to_dtype(DType::I64)?.unsqueeze(D::Minus1)?;
        t.gather(&classes, D::Minus1)?.squeeze(D::Minus1)
    }
    fn differs(&self, targets: &Tensor, class: u32) -> Result<Tensor, candle_core::Error> {
        targets.to_dtype(DType::U32)?.ne(class as f64)?.to_dtype(DType::F32)
    }
    fn negated(&self, t: &Tensor) -> Result<Tensor, candle_core::Error> {
        t.neg()
    }
    fn one_more(&self, t: &Tensor) -> Result<Tensor, candle_core::Error> {
        t.affine(1.0, 1.0)
    }
    fn times(&self, a: &Tensor, b: &Tensor) -> Result<Tensor, candle_core::Error> {
        a.broadcast_mul(b)
    }
    fn total(&self, t: &Tensor) -> Result<Tensor, candle_core::Error> {
        t.sum_all()
    }
    fn mean(&self, t: &Tensor) -> Result<Tensor, candle_core::Error> {
        t.mean_all()
    }
    fn at_least_one(&self, t: &Tensor) -> Result<Tensor, candle_core::Error> {
        t.clamp(1.0, f64::MAX)
    }
    fn over(&self, a: &Tensor, b: &Tensor) -> Result<Tensor, candle_core::Error> {
        a.broadcast_div(b)
    }
    fn uniform(&self, n: usize) -> f64 {
        1.0 / n as f64
    }
    fn weighed(&self, loss: &Tensor, w: f64) -> Result<Tensor, candle_core::Error> {
        loss.affine(w, 0.0)
    }
    fn plus(&self, a: &Tensor, b: &Tensor) -> Result<Tensor, candle_core::Error> {
        a + b
    }
}

#[test]
fn cross_entropy_ignores_pad_and_is_finite() -> Result<(), candle_core::Error> {
    let dev = Device::Cpu;
    // logits [1, 3, 4]: prefer class 1 at every position
    let mut logits = vec![0f32; 12];
    for s in 0..3 {
        logits[s * 4 + 1] = 5.0;
    }
    let logits = Tensor::from_vec(logits, (1, 3, 4), &dev)?;
    let targets = Tensor::from_vec(vec![1u32, 3, 1], (1, 3), &dev)?;
    let loss = cross_entropy(&Candle, &logits, &targets, Some(3))?;
    let v = loss.to_scalar::<f32>()?;
    assert!(v.is_finite());
    assert!(v < 0.1, "correct class should be cheap, got {v}");
    Ok(())
}
