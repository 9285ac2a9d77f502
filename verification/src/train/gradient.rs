//! The loss of a batch and the gradients it leads to.

use crate::outcome;
use crate::ratio::Ratio;
use crate::train::loss;
use crate::train::loss::{
    cross_entropy, deep_supervision_loss, halting_ponder_loss, supervision_weights, DsWeightScheme,
    LossMath,
};
use vstd::prelude::*;

verus! {

/// What a forward pass leaves behind for training: the predictions of every supervised step, the
/// halting probabilities, and the answer and the latent state at the end.
pub struct Trace<T> {
    pub steps: Vec<T>,
    pub halt_probs: Vec<T>,
    pub y_final: T,
    pub z_final: T,
}

/// A model that can be differentiated. Nothing is demanded of it beyond that it returns.
pub trait Backprop: LossMath {
    /// A batch as the model takes it.
    type Input;

    /// The gradients of a backward pass.
    type Grads;

    /// A loss as a number.
    type Value;

    /// A fraction as a weight.
    fn weight(&self, r: Ratio) -> Self::W;

    /// A forward pass.
    fn forward_trace(&self, input: &Self::Input) -> Result<Trace<Self::T>, Self::E>;

    /// The number that a loss holds.
    fn value(&self, loss: &Self::T) -> Result<Self::Value, Self::E>;

    /// A backward pass.
    fn backward(&self, loss: &Self::T) -> Result<Self::Grads, Self::E>;

    /// How many questions there are, and how long they are.
    fn question_dims(&self, input: &Self::Input) -> Result<(usize, usize), Self::E>;

    /// The embedded questions.
    fn embed_question(&self, input: &Self::Input) -> Result<Self::T, Self::E>;

    /// The attention mask over question, answer and latent state.
    fn expand_attn_mask(&self, input: &Self::Input, dims: (usize, usize)) -> Result<
        Option<Self::T>,
        Self::E,
    >;

    /// A variable with the value of a tensor.
    fn variable(&self, t: &Self::T) -> Result<Self::T, Self::E>;

    /// The predictions of an answer.
    fn decode(&self, y: &Self::T) -> Result<Self::T, Self::E>;

    /// The gradient by a variable.
    fn gradient(&self, grads: &Self::Grads, of: &Self::T) -> Option<Self::T>;

    /// Zeros in the shape of a tensor.
    fn zeros_like(&self, t: &Self::T) -> Result<Self::T, Self::E>;

    /// One tensor after the other, along the positions.
    fn joined(&self, a: &Self::T, b: &Self::T) -> Result<Self::T, Self::E>;

    /// The gradient that reaches the transition through its fixed point.
    fn implicit_gradient(
        &self,
        input: &Self::Input,
        dims: (usize, usize),
        x_emb: &Self::T,
        mask: &Option<Self::T>,
        fixed: &Self::T,
        grad: &Self::T,
    ) -> Result<Self::T, Self::E>;

    /// One application of the transition to a state.
    fn deq_transition(
        &self,
        input: &Self::Input,
        dims: (usize, usize),
        x_emb: &Self::T,
        mask: &Option<Self::T>,
        state: &Self::T,
    ) -> Result<Self::T, Self::E>;
}

/// Why there are no gradients.
#[derive(Debug, Clone, PartialEq, Eq)]
pub enum GradError<E> {
    /// The loss does not depend on the answer.
    NoAnswerGradient,
    Tensor(E),
}

/// The values on the way to the gradients through a fixed point.
pub struct DeqRun<T, G> {
    pub dims: (usize, usize),
    pub x_emb: T,
    pub mask: Option<T>,
    pub y_var: T,
    pub logits: T,
    pub loss: T,
    pub scaled: T,
    pub y_grads: G,
    pub grad_y: T,
    pub grad_z: T,
    pub grad_state: T,
    pub fixed: T,
    pub u: T,
    pub f_val: T,
    pub product: T,
    pub dot: T,
    pub grads: G,
}

/// Operation `i` on the way to the gradients through a fixed point gave the value that `run`
/// lists, or failed.
pub open spec fn is_deq_op<M: Backprop>(
    m: &M,
    input: M::Input,
    targets: M::T,
    ignored: Option<u32>,
    y: M::T,
    z: M::T,
    scale: M::W,
    run: DeqRun<M::T, M::Grads>,
    i: int,
    failure: Option<M::E>,
) -> bool {
    if i == 0 {
        call_ensures(M::question_dims, (m, &input), outcome::returned(run.dims, failure))
    } else if i == 1 {
        call_ensures(M::embed_question, (m, &input), outcome::returned(run.x_emb, failure))
    } else if i == 2 {
        call_ensures(M::expand_attn_mask, (m, &input, run.dims), outcome::returned(run.mask, failure))
    } else if i == 3 {
        call_ensures(M::variable, (m, &y), outcome::returned(run.y_var, failure))
    } else if i == 4 {
        call_ensures(M::decode, (m, &run.y_var), outcome::returned(run.logits, failure))
    } else if i == 5 {
        loss::is_cross_entropy(m, run.logits, targets, ignored, outcome::returned(run.loss, failure))
    } else if i == 6 {
        call_ensures(M::weighed, (m, &run.loss, scale), outcome::returned(run.scaled, failure))
    } else if i == 7 {
        call_ensures(M::backward, (m, &run.scaled), outcome::returned(run.y_grads, failure))
    } else if i == 8 {
        call_ensures(M::zeros_like, (m, &z), outcome::returned(run.grad_z, failure))
    } else if i == 9 {
        call_ensures(M::joined, (m, &run.grad_y, &run.grad_z), outcome::returned(run.grad_state, failure))
    } else if i == 10 {
        call_ensures(M::joined, (m, &y, &z), outcome::returned(run.fixed, failure))
    } else if i == 11 {
        call_ensures(
            M::implicit_gradient,
            (m, &input, run.dims, &run.x_emb, &run.mask, &run.fixed, &run.grad_state),
            outcome::returned(run.u, failure),
        )
    } else if i == 12 {
        call_ensures(
            M::deq_transition,
            (m, &input, run.dims, &run.x_emb, &run.mask, &run.fixed),
            outcome::returned(run.f_val, failure),
        )
    } else if i == 13 {
        call_ensures(M::times, (m, &run.u, &run.f_val), outcome::returned(run.product, failure))
    } else if i == 14 {
        call_ensures(M::total, (m, &run.product), outcome::returned(run.dot, failure))
    } else {
        call_ensures(M::backward, (m, &run.dot), outcome::returned(run.grads, failure))
    }
}

/// The first `k` operations gave the values that `run` lists. The answer's gradient is looked up
/// before zeros are made for the latent state.
pub open spec fn are_deq_ops<M: Backprop>(
    m: &M,
    input: M::Input,
    targets: M::T,
    ignored: Option<u32>,
    y: M::T,
    z: M::T,
    scale: M::W,
    run: DeqRun<M::T, M::Grads>,
    k: int,
) -> bool {
    &&& forall|i: int|
        0 <= i < k ==> #[trigger] is_deq_op(
            m,
            input,
            targets,
            ignored,
            y,
            z,
            scale,
            run,
            i,
            None::<M::E>,
        )
    &&& k > 8 ==> call_ensures(
        M::gradient,
        (m, &run.y_grads, &run.y_var),
        Some(run.grad_y),
    )
}

/// `r` are the gradients through a fixed point, or the first failure on the way to them.
pub open spec fn is_deq_gradient<M: Backprop>(
    m: &M,
    input: M::Input,
    targets: M::T,
    ignored: Option<u32>,
    y: M::T,
    z: M::T,
    scale: M::W,
    r: Result<M::Grads, GradError<M::E>>,
) -> bool {
    exists|run: DeqRun<M::T, M::Grads>, k: int|
        {
            &&& #[trigger] are_deq_ops(m, input, targets, ignored, y, z, scale, run, k)
            &&& match r {
                Ok(g) => k == 16 && g == run.grads,
                Err(GradError::NoAnswerGradient) => k == 8 && call_ensures(
                    M::gradient,
                    (m, &run.y_grads, &run.y_var),
                    None::<M::T>,
                ),
                Err(GradError::Tensor(e)) => {
                    &&& 0 <= k < 16
                    &&& is_deq_op(m, input, targets, ignored, y, z, scale, run, k, Some(e))
                    &&& k == 8 ==> call_ensures(
                        M::gradient,
                        (m, &run.y_grads, &run.y_var),
                        Some(run.grad_y),
                    )
                },
            }
        }
}

/// The gradients through a fixed point of the transition. The gradient of the loss by the answer
/// is carried through the fixed point, and its product with one more application of the
/// transition is differentiated.
#[verifier::rlimit(60)]
pub fn deq_backward<M: Backprop>(
    m: &M,
    input: &M::Input,
    targets: &M::T,
    ignore_index: Option<u32>,
    y: &M::T,
    z: &M::T,
    scale: M::W,
) -> (r: Result<M::Grads, GradError<M::E>>)
    ensures
        is_deq_gradient(m, *input, *targets, ignore_index, *y, *z, scale, r),
{
    let ghost mut run: DeqRun<M::T, M::Grads> = arbitrary();
    let dims = match m.question_dims(input) {
        Ok(v) => v,
        Err(e) => {
            assert(is_deq_op(m, *input, *targets, ignore_index, *y, *z, scale, run, 0, Some(e)));
            assert(are_deq_ops(m, *input, *targets, ignore_index, *y, *z, scale, run, 0));
            return Err(GradError::Tensor(e));
        },
    };
    proof {
        run.dims = dims;
    }
    let x_emb = match m.embed_question(input) {
        Ok(v) => v,
        Err(e) => {
            assert(is_deq_op(m, *input, *targets, ignore_index, *y, *z, scale, run, 1, Some(e)));
            assert(are_deq_ops(m, *input, *targets, ignore_index, *y, *z, scale, run, 1));
            return Err(GradError::Tensor(e));
        },
    };
    proof {
        run.x_emb = x_emb;
    }
    let mask = match m.expand_attn_mask(input, dims) {
        Ok(v) => v,
        Err(e) => {
            assert(is_deq_op(m, *input, *targets, ignore_index, *y, *z, scale, run, 2, Some(e)));
            assert(are_deq_ops(m, *input, *targets, ignore_index, *y, *z, scale, run, 2));
            return Err(GradError::Tensor(e));
        },
    };
    proof {
        run.mask = mask;
    }
    let y_var = match m.variable(y) {
        Ok(v) => v,
        Err(e) => {
            assert(is_deq_op(m, *input, *targets, ignore_index, *y, *z, scale, run, 3, Some(e)));
            assert(are_deq_ops(m, *input, *targets, ignore_index, *y, *z, scale, run, 3));
            return Err(GradError::Tensor(e));
        },
    };
    proof {
        run.y_var = y_var;
    }
    let logits = match m.decode(&y_var) {
        Ok(v) => v,
        Err(e) => {
            assert(is_deq_op(m, *input, *targets, ignore_index, *y, *z, scale, run, 4, Some(e)));
            assert(are_deq_ops(m, *input, *targets, ignore_index, *y, *z, scale, run, 4));
            return Err(GradError::Tensor(e));
        },
    };
    proof {
        run.logits = logits;
    }
    let loss = match cross_entropy(m, &logits, targets, ignore_index) {
        Ok(v) => v,
        Err(e) => {
            assert(is_deq_op(m, *input, *targets, ignore_index, *y, *z, scale, run, 5, Some(e)));
            assert(are_deq_ops(m, *input, *targets, ignore_index, *y, *z, scale, run, 5));
            return Err(GradError::Tensor(e));
        },
    };
    proof {
        run.loss = loss;
    }
    let scaled = match m.weighed(&loss, scale) {
        Ok(v) => v,
        Err(e) => {
            assert(is_deq_op(m, *input, *targets, ignore_index, *y, *z, scale, run, 6, Some(e)));
            assert(are_deq_ops(m, *input, *targets, ignore_index, *y, *z, scale, run, 6));
            return Err(GradError::Tensor(e));
        },
    };
    proof {
        run.scaled = scaled;
    }
    let y_grads = match m.backward(&scaled) {
        Ok(v) => v,
        Err(e) => {
            assert(is_deq_op(m, *input, *targets, ignore_index, *y, *z, scale, run, 7, Some(e)));
            assert(are_deq_ops(m, *input, *targets, ignore_index, *y, *z, scale, run, 7));
            return Err(GradError::Tensor(e));
        },
    };
    proof {
        run.y_grads = y_grads;
    }
    let grad_y = match m.gradient(&y_grads, &y_var) {
        Some(g) => g,
        None => {
            assert(are_deq_ops(m, *input, *targets, ignore_index, *y, *z, scale, run, 8));
            return Err(GradError::NoAnswerGradient);
        },
    };
    proof {
        run.grad_y = grad_y;
    }
    let grad_z = match m.zeros_like(z) {
        Ok(v) => v,
        Err(e) => {
            assert(is_deq_op(m, *input, *targets, ignore_index, *y, *z, scale, run, 8, Some(e)));
            assert(are_deq_ops(m, *input, *targets, ignore_index, *y, *z, scale, run, 8));
            return Err(GradError::Tensor(e));
        },
    };
    proof {
        run.grad_z = grad_z;
    }
    let grad_state = match m.joined(&grad_y, &grad_z) {
        Ok(v) => v,
        Err(e) => {
            assert(is_deq_op(m, *input, *targets, ignore_index, *y, *z, scale, run, 9, Some(e)));
            assert(are_deq_ops(m, *input, *targets, ignore_index, *y, *z, scale, run, 9));
            return Err(GradError::Tensor(e));
        },
    };
    proof {
        run.grad_state = grad_state;
    }
    let fixed = match m.joined(y, z) {
        Ok(v) => v,
        Err(e) => {
            assert(is_deq_op(m, *input, *targets, ignore_index, *y, *z, scale, run, 10, Some(e)));
            assert(are_deq_ops(m, *input, *targets, ignore_index, *y, *z, scale, run, 10));
            return Err(GradError::Tensor(e));
        },
    };
    proof {
        run.fixed = fixed;
    }
    let u = match m.implicit_gradient(input, dims, &x_emb, &mask, &fixed, &grad_state) {
        Ok(v) => v,
        Err(e) => {
            assert(is_deq_op(m, *input, *targets, ignore_index, *y, *z, scale, run, 11, Some(e)));
            assert(are_deq_ops(m, *input, *targets, ignore_index, *y, *z, scale, run, 11));
            return Err(GradError::Tensor(e));
        },
    };
    proof {
        run.u = u;
    }
    let f_val = match m.deq_transition(input, dims, &x_emb, &mask, &fixed) {
        Ok(v) => v,
        Err(e) => {
            assert(is_deq_op(m, *input, *targets, ignore_index, *y, *z, scale, run, 12, Some(e)));
            assert(are_deq_ops(m, *input, *targets, ignore_index, *y, *z, scale, run, 12));
            return Err(GradError::Tensor(e));
        },
    };
    proof {
        run.f_val = f_val;
    }
    let product = match m.times(&u, &f_val) {
        Ok(v) => v,
        Err(e) => {
            assert(is_deq_op(m, *input, *targets, ignore_index, *y, *z, scale, run, 13, Some(e)));
            assert(are_deq_ops(m, *input, *targets, ignore_index, *y, *z, scale, run, 13));
            return Err(GradError::Tensor(e));
        },
    };
    proof {
        run.product = product;
    }
    let dot = match m.total(&product) {
        Ok(v) => v,
        Err(e) => {
            assert(is_deq_op(m, *input, *targets, ignore_index, *y, *z, scale, run, 14, Some(e)));
            assert(are_deq_ops(m, *input, *targets, ignore_index, *y, *z, scale, run, 14));
            return Err(GradError::Tensor(e));
        },
    };
    proof {
        run.dot = dot;
    }
    let grads = match m.backward(&dot) {
        Ok(v) => v,
        Err(e) => {
            assert(is_deq_op(m, *input, *targets, ignore_index, *y, *z, scale, run, 15, Some(e)));
            assert(are_deq_ops(m, *input, *targets, ignore_index, *y, *z, scale, run, 15));
            return Err(GradError::Tensor(e));
        },
    };
    proof {
        run.grads = grads;
    }
    assert(are_deq_ops(m, *input, *targets, ignore_index, *y, *z, scale, run, 16));
    Ok(grads)
}

/// `ws` are the weights of `n` supervised steps under a scheme.
pub open spec fn are_scheme_weights<M: Backprop>(
    m: &M,
    scheme: DsWeightScheme,
    n: nat,
    ws: Seq<M::W>,
) -> bool {
    if scheme == DsWeightScheme::Uniform {
        loss::are_step_weights(m, None, n, ws)
    } else {
        ws.len() == n && forall|i: int|
            0 <= i < n ==> call_ensures(
                M::weight,
                (m, loss::supervision_weight(scheme, n as int, i)),
                #[trigger] ws[i],
            )
    }
}

/// `r` is the deep supervision loss of the steps under a scheme.
pub open spec fn is_scheme_loss<M: Backprop>(
    m: &M,
    scheme: DsWeightScheme,
    steps: Seq<M::T>,
    targets: M::T,
    ignored: Option<u32>,
    r: Result<M::T, M::E>,
) -> bool {
    exists|ws: Seq<M::W>| #[trigger]
        are_scheme_weights(m, scheme, steps.len(), ws) && loss::is_supervision_loss(
            m,
            targets,
            ignored,
            steps,
            ws,
            r,
        )
}

fn scheme_loss<M: Backprop>(
    m: &M,
    scheme: DsWeightScheme,
    steps: &Vec<M::T>,
    targets: &M::T,
    ignore_index: Option<u32>,
) -> (r: Result<M::T, M::E>)
    ensures
        is_scheme_loss(m, scheme, steps@, *targets, ignore_index, r),
{
    match scheme {
        DsWeightScheme::Uniform => {
            let out = deep_supervision_loss(m, steps.as_slice(), targets, None, ignore_index);
            proof {
                let ws = choose|ws: Seq<M::W>| #[trigger]
                    loss::are_step_weights(m, None, steps@.len(), ws) && loss::is_supervision_loss(
                        m,
                        *targets,
                        ignore_index,
                        steps@,
                        ws,
                        out,
                    );
                assert(are_scheme_weights(m, scheme, steps@.len(), ws));
            }
            out
        },
        _ => {
            let ratios = supervision_weights(scheme, steps.len());
            let mut ws: Vec<M::W> = Vec::new();
            let mut i: usize = 0;
            while i < ratios.len()
                invariant
                    i <= ratios@.len(),
                    ratios@.len() == steps@.len(),
                    forall|k: int|
                        0 <= k < ratios@.len() ==> #[trigger] ratios@[k]
                            == loss::supervision_weight(scheme, steps@.len() as int, k),
                    ws@.len() == i,
                    forall|k: int|
                        0 <= k < i ==> call_ensures(
                            M::weight,
                            (m, loss::supervision_weight(scheme, steps@.len() as int, k)),
                            #[trigger] ws@[k],
                        ),
                decreases ratios@.len() - i,
            {
                let w = m.weight(ratios[i]);
                assert(call_ensures(M::weight, (m, ratios@[i as int]), w));
                ws.push(w);
                i = i + 1;
            }
            let out = deep_supervision_loss(
                m,
                steps.as_slice(),
                targets,
                Some(ws.as_slice()),
                ignore_index,
            );
            proof {
                assert(ws@.take(steps@.len() as int) =~= ws@);
                assert(are_scheme_weights(m, scheme, steps@.len(), ws@));
            }
            out
        },
    }
}

/// `r` are the gradients of a scaled loss.
pub open spec fn is_backward<M: Backprop>(
    m: &M,
    scaled: M::T,
    r: Result<M::Grads, GradError<M::E>>,
) -> bool {
    exists|g: Result<M::Grads, M::E>| #[trigger]
        call_ensures(M::backward, (m, &scaled), g) && r == (match g {
            Ok(g) => Ok(g),
            Err(e) => Err(GradError::Tensor(e)),
        })
}

/// `r` are the gradients of the loss times `scale`.
pub open spec fn is_plain_gradient<M: Backprop>(
    m: &M,
    total: M::T,
    scale: M::W,
    r: Result<M::Grads, GradError<M::E>>,
) -> bool {
    exists|s: Result<M::T, M::E>| #[trigger]
        call_ensures(M::weighed, (m, &total, scale), s) && match s {
            Ok(s) => is_backward(m, s, r),
            Err(e) => r == Err::<M::Grads, GradError<M::E>>(GradError::Tensor(e)),
        }
}

fn plain_gradient<M: Backprop>(m: &M, total: &M::T, scale: M::W) -> (r: Result<
    M::Grads,
    GradError<M::E>,
>)
    ensures
        is_plain_gradient(m, *total, scale, r),
{
    let s = m.weighed(total, scale);
    assert(call_ensures(M::weighed, (m, total, scale), s));
    match s {
        Ok(s) => {
            let g = m.backward(&s);
            assert(call_ensures(M::backward, (m, &s), g));
            let out = match g {
                Ok(g) => Ok(g),
                Err(e) => Err(GradError::Tensor(e)),
            };
            assert(is_backward(m, s, out));
            out
        },
        Err(e) => Err(GradError::Tensor(e)),
    }
}

/// How a batch is trained on.
#[derive(Debug, Clone, Copy)]
pub struct BatchSettings<W> {
    pub scheme: DsWeightScheme,
    /// The class of padding, which no loss counts.
    pub blank: u32,
    pub halt_lambda: W,
    /// The share of the batch in an optimizer step.
    pub grad_scale: W,
    pub use_deq: bool,
}

/// The values on the way to the loss of a batch.
pub struct BatchRun<T, V> {
    pub trace: Trace<T>,
    pub ce: T,
    pub halt: T,
    pub total: T,
    pub value: V,
}

/// Operation `i` on the way to the loss of a batch gave the value that `run` lists, or failed.
pub open spec fn is_batch_op<M: Backprop>(
    m: &M,
    input: M::Input,
    targets: M::T,
    set: BatchSettings<M::W>,
    run: BatchRun<M::T, M::Value>,
    i: int,
    failure: Option<M::E>,
) -> bool {
    if i == 0 {
        call_ensures(M::forward_trace, (m, &input), outcome::returned(run.trace, failure))
    } else if i == 1 {
        is_scheme_loss(
            m,
            set.scheme,
            run.trace.steps@,
            targets,
            Some(set.blank),
            outcome::returned(run.ce, failure),
        )
    } else if i == 2 {
        loss::is_ponder_loss(
            m,
            run.trace.halt_probs@,
            set.halt_lambda,
            outcome::returned(run.halt, failure),
        )
    } else if i == 3 {
        call_ensures(M::plus, (m, &run.ce, &run.halt), outcome::returned(run.total, failure))
    } else {
        call_ensures(M::value, (m, &run.total), outcome::returned(run.value, failure))
    }
}

/// The first `k` operations gave the values that `run` lists.
pub open spec fn are_batch_ops<M: Backprop>(
    m: &M,
    input: M::Input,
    targets: M::T,
    set: BatchSettings<M::W>,
    run: BatchRun<M::T, M::Value>,
    k: int,
) -> bool {
    forall|i: int|
        0 <= i < k ==> #[trigger] is_batch_op(m, input, targets, set, run, i, None::<M::E>)
}

/// `r` are the gradients of a batch: through the fixed point where the model is solved for one,
/// else of its loss.
pub open spec fn is_batch_gradient<M: Backprop>(
    m: &M,
    input: M::Input,
    targets: M::T,
    set: BatchSettings<M::W>,
    run: BatchRun<M::T, M::Value>,
    r: Result<M::Grads, GradError<M::E>>,
) -> bool {
    if set.use_deq {
        is_deq_gradient(
            m,
            input,
            targets,
            Some(set.blank),
            run.trace.y_final,
            run.trace.z_final,
            set.grad_scale,
            r,
        )
    } else {
        is_plain_gradient(m, run.total, set.grad_scale, r)
    }
}

/// `r` are the loss of a batch and its gradients, or the first failure on the way to them.
pub open spec fn is_batch_result<M: Backprop>(
    m: &M,
    input: M::Input,
    targets: M::T,
    set: BatchSettings<M::W>,
    r: Result<(M::Value, M::Grads), GradError<M::E>>,
) -> bool {
    exists|run: BatchRun<M::T, M::Value>, k: int|
        {
            &&& #[trigger] are_batch_ops(m, input, targets, set, run, k)
            &&& match r {
                Ok((value, grads)) => {
                    &&& k == 5
                    &&& value == run.value
                    &&& is_batch_gradient(m, input, targets, set, run, Ok(grads))
                },
                Err(e) => {
                    ||| 0 <= k < 5 && e is Tensor && is_batch_op(
                        m,
                        input,
                        targets,
                        set,
                        run,
                        k,
                        Some(e->Tensor_0),
                    )
                    ||| k == 5 && is_batch_gradient(m, input, targets, set, run, Err(e))
                },
            }
        }
}

/// Trains on a batch: its loss, which adds the deep supervision of all steps and the cost of
/// pondering, and the gradients that it leads to.
pub fn process_batch<M: Backprop>(
    m: &M,
    input: &M::Input,
    targets: &M::T,
    set: BatchSettings<M::W>,
) -> (r: Result<(M::Value, M::Grads), GradError<M::E>>)
    ensures
        is_batch_result(m, *input, *targets, set, r),
{
    let ghost mut run: BatchRun<M::T, M::Value> = arbitrary();
    let trace = match m.forward_trace(input) {
        Ok(v) => v,
        Err(e) => {
            assert(is_batch_op(m, *input, *targets, set, run, 0, Some(e)));
            assert(are_batch_ops(m, *input, *targets, set, run, 0));
            return Err(GradError::Tensor(e));
        },
    };
    proof {
        run.trace = trace;
    }
    let ce = match scheme_loss(m, set.scheme, &trace.steps, targets, Some(set.blank)) {
        Ok(v) => v,
        Err(e) => {
            assert(is_batch_op(m, *input, *targets, set, run, 1, Some(e)));
            assert(are_batch_ops(m, *input, *targets, set, run, 1));
            return Err(GradError::Tensor(e));
        },
    };
    proof {
        run.ce = ce;
    }
    let halt = match halting_ponder_loss(m, trace.halt_probs.as_slice(), set.halt_lambda) {
        Ok(v) => v,
        Err(e) => {
            assert(is_batch_op(m, *input, *targets, set, run, 2, Some(e)));
            assert(are_batch_ops(m, *input, *targets, set, run, 2));
            return Err(GradError::Tensor(e));
        },
    };
    proof {
        run.halt = halt;
    }
    let total = match m.plus(&ce, &halt) {
        Ok(v) => v,
        Err(e) => {
            assert(is_batch_op(m, *input, *targets, set, run, 3, Some(e)));
            assert(are_batch_ops(m, *input, *targets, set, run, 3));
            return Err(GradError::Tensor(e));
        },
    };
    proof {
        run.total = total;
    }
    let value = match m.value(&total) {
        Ok(v) => v,
        Err(e) => {
            assert(is_batch_op(m, *input, *targets, set, run, 4, Some(e)));
            assert(are_batch_ops(m, *input, *targets, set, run, 4));
            return Err(GradError::Tensor(e));
        },
    };
    proof {
        run.value = value;
        assert(are_batch_ops(m, *input, *targets, set, run, 5));
    }
    let grads = if set.use_deq {
        deq_backward(
            m,
            input,
            targets,
            Some(set.blank),
            &trace.y_final,
            &trace.z_final,
            set.grad_scale,
        )
    } else {
        plain_gradient(m, &total, set.grad_scale)
    };
    assert(is_batch_gradient(m, *input, *targets, set, run, grads));
    match grads {
        Ok(g) => Ok((value, g)),
        Err(e) => Err(e),
    }
}

} // verus!
