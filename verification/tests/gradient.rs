use trm_omega::ratio::Ratio;
use trm_omega::train::gradient::{
    deq_backward, process_batch, Backprop, BatchSettings, GradError, Trace,
};
use trm_omega::train::loss::{DsWeightScheme, LossMath};

/// Tensors as the expressions that made them. The operation named `fails` does.
struct Words {
    fails: &'static str,
    depends: bool,
    halts: usize,
}

impl Words {
    fn say(&self, op: &str, args: &[&str]) -> Result<String, String> {
        if op == self.fails {
            Err(format!("{op} failed"))
        } else {
            Ok(format!("{op}({})", args.join(",")))
        }
    }
}

fn words(fails: &'static str) -> Words {
    Words { fails, depends: true, halts: 1 }
}

impl LossMath for Words {
    type T = String;
    type W = f64;
    type E = String;

    fn zero(&self, like: Option<&String>) -> Result<String, String> {
        self.say("zero", &[like.map_or("-", |t| t.as_str())])
    }
    fn log_softmax(&self, logits: &String) -> Result<String, String> {
        self.say("lsm", &[logits])
    }
    fn at_targets(&self, t: &String, targets: &String) -> Result<String, String> {
        self.say("at", &[t, targets])
    }
    fn differs(&self, targets: &String, class: u32) -> Result<String, String> {
        self.say("ne", &[targets, &class.to_string()])
    }
    fn negated(&self, t: &String) -> Result<String, String> {
        self.say("neg", &[t])
    }
    fn one_more(&self, t: &String) -> Result<String, String> {
        self.say("inc", &[t])
    }
    fn times(&self, a: &String, b: &String) -> Result<String, String> {
        self.say("mul", &[a, b])
    }
    fn total(&self, t: &String) -> Result<String, String> {
        self.say("sum", &[t])
    }
    fn mean(&self, t: &String) -> Result<String, String> {
        self.say("mean", &[t])
    }
    fn at_least_one(&self, t: &String) -> Result<String, String> {
        self.say("max1", &[t])
    }
    fn over(&self, a: &String, b: &String) -> Result<String, String> {
        self.say("div", &[a, b])
    }
    fn uniform(&self, n: usize) -> f64 {
        1.0 / n as f64
    }
    fn weighed(&self, loss: &String, w: f64) -> Result<String, String> {
        self.say("scale", &[loss, &w.to_string()])
    }
    fn plus(&self, a: &String, b: &String) -> Result<String, String> {
        self.say("add", &[a, b])
    }
}

impl Backprop for Words {
    type Input = String;
    type Grads = String;
    type Value = usize;

    fn weight(&self, r: Ratio) -> f64 {
        r.num as f64 / r.den as f64
    }
    fn forward_trace(&self, _input: &String) -> Result<Trace<String>, String> {
        self.say("trace", &[])?;
        Ok(Trace {
            steps: vec!["s0".to_string(), "s1".to_string()],
            halt_probs: (0..self.halts).map(|i| format!("h{i}")).collect(),
            y_final: "y".to_string(),
            z_final: "z".to_string(),
        })
    }
    fn value(&self, loss: &String) -> Result<usize, String> {
        self.say("value", &[])?;
        Ok(loss.len())
    }
    fn backward(&self, loss: &String) -> Result<String, String> {
        self.say("back", &[loss])
    }
    fn question_dims(&self, _input: &String) -> Result<(usize, usize), String> {
        self.say("dims", &[])?;
        Ok((2, 81))
    }
    fn embed_question(&self, input: &String) -> Result<String, String> {
        self.say("embed", &[input])
    }
    fn expand_attn_mask(
        &self,
        input: &String,
        dims: (usize, usize),
    ) -> Result<Option<String>, String> {
        Ok(Some(self.say("mask", &[input, &dims.0.to_string(), &dims.1.to_string()])?))
    }
    fn variable(&self, t: &String) -> Result<String, String> {
        self.say("var", &[t])
    }
    fn decode(&self, y: &String) -> Result<String, String> {
        self.say("decode", &[y])
    }
    fn gradient(&self, _grads: &String, of: &String) -> Option<String> {
        if self.depends {
            Some(format!("grad({of})"))
        } else {
            None
        }
    }
    fn zeros_like(&self, t: &String) -> Result<String, String> {
        self.say("zeros", &[t])
    }
    fn joined(&self, a: &String, b: &String) -> Result<String, String> {
        self.say("cat", &[a, b])
    }
    fn implicit_gradient(
        &self,
        _input: &String,
        _dims: (usize, usize),
        x_emb: &String,
        mask: &Option<String>,
        fixed: &String,
        grad: &String,
    ) -> Result<String, String> {
        self.say("ift", &[x_emb, mask.as_ref().unwrap(), fixed, grad])
    }
    fn deq_transition(
        &self,
        _input: &String,
        _dims: (usize, usize),
        x_emb: &String,
        mask: &Option<String>,
        state: &String,
    ) -> Result<String, String> {
        self.say("f", &[x_emb, mask.as_ref().unwrap(), state])
    }
}

fn settings(scheme: DsWeightScheme, use_deq: bool) -> BatchSettings<f64> {
    BatchSettings { scheme, blank: 10, halt_lambda: 0.5, grad_scale: 0.25, use_deq }
}

fn entropy(step: &str) -> String {
    let costs = format!("neg(at(lsm({step}),t))");
    format!("div(sum(mul({costs},ne(t,10))),max1(sum(ne(t,10))))")
}

fn run(w: &Words, set: BatchSettings<f64>) -> Result<(usize, String), GradError<String>> {
    process_batch(w, &"x".to_string(), &"t".to_string(), set)
}

#[test]
fn the_loss_of_a_batch_is_scaled_and_differentiated() {
    let (value, grads) = run(&words(""), settings(DsWeightScheme::LastOnly, false)).unwrap();
    let first = format!("add(zero(t),scale({},0))", entropy("s0"));
    let ce = format!("add({first},scale({},1))", entropy("s1"));
    let halt = "scale(add(zero(h0),mean(inc(neg(h0)))),0.5)";
    let total = format!("add({ce},{halt})");
    assert_eq!(value, total.len());
    assert_eq!(grads, format!("back(scale({total},0.25))"));
}

#[test]
fn the_scheme_weighs_the_steps_of_a_batch() {
    let (_, grads) = run(&words(""), settings(DsWeightScheme::Uniform, false)).unwrap();
    assert!(grads.contains(&format!("scale({},0.5)", entropy("s0"))));
    assert!(grads.contains(&format!("scale({},0.5)", entropy("s1"))));
    let (_, grads) = run(&words(""), settings(DsWeightScheme::LinearIncreasing, false)).unwrap();
    assert!(grads.contains(&format!("scale({},{})", entropy("s0"), 1.0f64 / 3.0)));
    assert!(grads.contains(&format!("scale({},{})", entropy("s1"), 2.0f64 / 3.0)));
}

#[test]
fn without_halting_the_cost_of_pondering_is_zero() {
    let w = Words { fails: "", depends: true, halts: 0 };
    let (_, grads) = run(&w, settings(DsWeightScheme::LastOnly, false)).unwrap();
    assert!(grads.ends_with(",zero(-)),0.25))"));
}

fn deq(w: &Words) -> Result<String, GradError<String>> {
    let (x, t, y, z) = ("x".to_string(), "t".to_string(), "y".to_string(), "z".to_string());
    deq_backward(w, &x, &t, Some(10), &y, &z, 0.25)
}

#[test]
fn gradients_go_through_the_fixed_point() {
    let mask = "mask(x,2,81)";
    let fixed = "cat(y,z)";
    let u = format!("ift(embed(x),{mask},{fixed},cat(grad(var(y)),zeros(z)))");
    let f = format!("f(embed(x),{mask},{fixed})");
    let expected = format!("back(sum(mul({u},{f})))");
    assert_eq!(deq(&words("")), Ok(expected.clone()));
    let (value, grads) = run(&words(""), settings(DsWeightScheme::LastOnly, true)).unwrap();
    assert_eq!(grads, expected);
    assert_eq!(value, run(&words(""), settings(DsWeightScheme::LastOnly, false)).unwrap().0);
}

#[test]
fn an_answer_without_a_gradient_is_refused() {
    let w = Words { fails: "", depends: false, halts: 1 };
    assert_eq!(deq(&w), Err(GradError::NoAnswerGradient));
    assert_eq!(
        run(&w, settings(DsWeightScheme::LastOnly, true)),
        Err(GradError::NoAnswerGradient)
    );
}

#[test]
fn the_first_operation_that_fails_is_reported() {
    for op in ["dims", "embed", "mask", "var", "decode", "lsm", "scale", "back", "zeros", "cat", "ift", "f"] {
        assert_eq!(deq(&words(op)), Err(GradError::Tensor(format!("{op} failed"))));
    }
    for op in ["trace", "zero", "at", "inc", "add", "value", "back"] {
        assert_eq!(
            run(&words(op), settings(DsWeightScheme::LastOnly, false)),
            Err(GradError::Tensor(format!("{op} failed")))
        );
    }
}
