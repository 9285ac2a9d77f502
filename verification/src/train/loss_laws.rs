//! What losses, weights and accuracies come to.

use crate::exact;
use crate::ratio::Ratio;
use crate::train::loss;
use crate::train::loss::{DsWeightScheme, LossMath};
use vstd::prelude::*;

verus! {

/// What loss tensors hold.
#[verifier::reject_recursive_types(T)]
#[verifier::reject_recursive_types(W)]
pub struct Costs<T, W> {
    /// The elements of a tensor.
    pub of: spec_fn(T) -> Seq<real>,
    /// The target class of every position.
    pub classes: spec_fn(T) -> Seq<u32>,
    /// The logarithm of the probability that logits give a class at a position.
    pub log_prob: spec_fn(T, int, u32) -> real,
    /// The value of a weight.
    pub weight: spec_fn(W) -> real,
}

/// The tensor operations mean what they are named for.
pub open spec fn are_real_losses<M: LossMath>(m: &M, c: Costs<M::T, M::W>) -> bool {
    &&& forall|like: Option<&M::T>, r: M::T| #[trigger]
        call_ensures(M::zero, (m, like), Ok::<M::T, M::E>(r)) ==> (c.of)(r) == seq![0real]
    &&& forall|x: &M::T, p: M::T, t: &M::T, g: M::T| #[trigger]
        call_ensures(M::log_softmax, (m, x), Ok::<M::T, M::E>(p)) && #[trigger] call_ensures(
            M::at_targets,
            (m, &p, t),
            Ok::<M::T, M::E>(g),
        ) ==> (c.of)(g) == Seq::new(
            (c.classes)(*t).len(),
            |i: int| (c.log_prob)(*x, i, (c.classes)(*t)[i]),
        )
    &&& forall|t: &M::T, class: u32, r: M::T| #[trigger]
        call_ensures(M::differs, (m, t, class), Ok::<M::T, M::E>(r)) ==> (c.of)(r) == Seq::new(
            (c.classes)(*t).len(),
            |i: int|
                if (c.classes)(*t)[i] == class {
                    0real
                } else {
                    1real
                },
        )
    &&& forall|t: &M::T, r: M::T| #[trigger]
        call_ensures(M::negated, (m, t), Ok::<M::T, M::E>(r)) ==> (c.of)(r) == Seq::new(
            (c.of)(*t).len(),
            |i: int| 0real - (c.of)(*t)[i],
        )
    &&& forall|t: &M::T, r: M::T| #[trigger]
        call_ensures(M::one_more, (m, t), Ok::<M::T, M::E>(r)) ==> (c.of)(r) == Seq::new(
            (c.of)(*t).len(),
            |i: int| (c.of)(*t)[i] + 1real,
        )
    &&& forall|a: &M::T, b: &M::T, r: M::T| #[trigger]
        call_ensures(M::times, (m, a, b), Ok::<M::T, M::E>(r)) ==> (c.of)(*a).len() == (c.of)(
            *b,
        ).len() && (c.of)(r) == Seq::new(
            (c.of)(*a).len(),
            |i: int| (c.of)(*a)[i] * (c.of)(*b)[i],
        )
    &&& forall|t: &M::T, r: M::T| #[trigger]
        call_ensures(M::total, (m, t), Ok::<M::T, M::E>(r)) ==> (c.of)(r) == seq![
            exact::sum((c.of)(*t)),
        ]
    &&& forall|t: &M::T, r: M::T| #[trigger]
        call_ensures(M::mean, (m, t), Ok::<M::T, M::E>(r)) && (c.of)(*t).len() > 0 ==> (c.of)(r)
            == seq![exact::sum((c.of)(*t)) / ((c.of)(*t).len() as int as real)]
    &&& forall|t: &M::T, r: M::T| #[trigger]
        call_ensures(M::at_least_one, (m, t), Ok::<M::T, M::E>(r)) ==> (c.of)(r) == seq![
            if (c.of)(*t)[0] < 1real {
                1real
            } else {
                (c.of)(*t)[0]
            },
        ]
    &&& forall|a: &M::T, b: &M::T, r: M::T| #[trigger]
        call_ensures(M::over, (m, a, b), Ok::<M::T, M::E>(r)) ==> (c.of)(r) == seq![
            (c.of)(*a)[0] / (c.of)(*b)[0],
        ]
    &&& forall|n: usize, r: M::W| #[trigger]
        call_ensures(M::uniform, (m, n), r) && n > 0 ==> (c.weight)(r) * (n as int as real) == 1real
    &&& forall|t: &M::T, w: M::W, r: M::T| #[trigger]
        call_ensures(M::weighed, (m, t, w), Ok::<M::T, M::E>(r)) ==> (c.of)(r) == seq![
            (c.of)(*t)[0] * (c.weight)(w),
        ]
    &&& forall|a: &M::T, b: &M::T, r: M::T| #[trigger]
        call_ensures(M::plus, (m, a, b), Ok::<M::T, M::E>(r)) ==> (c.of)(r) == seq![
            (c.of)(*a)[0] + (c.of)(*b)[0],
        ]
}

/// Minus the logarithms of the probabilities that the logits give to the target classes, zero
/// where the target is left out.
pub open spec fn kept_costs<T, W>(
    c: Costs<T, W>,
    logits: T,
    targets: T,
    ignored: Option<u32>,
) -> Seq<real> {
    Seq::new(
        (c.classes)(targets).len(),
        |i: int|
            if ignored == Some((c.classes)(targets)[i]) {
                0real
            } else {
                0real - (c.log_prob)(logits, i, (c.classes)(targets)[i])
            },
    )
}

/// One for every position whose target is not left out.
pub open spec fn kept_places<T, W>(c: Costs<T, W>, targets: T, ignored: Option<u32>) -> Seq<real> {
    Seq::new(
        (c.classes)(targets).len(),
        |i: int|
            if ignored == Some((c.classes)(targets)[i]) {
                0real
            } else {
                1real
            },
    )
}

/// A cross-entropy is the mean of minus the logarithm of the probability of the target class,
/// over the positions whose target is not the ignored class: times how many these are, it is the
/// sum of their costs. Where all are ignored it is zero.
pub proof fn cross_entropy_is_the_mean_cost<M: LossMath>(
    m: &M,
    c: Costs<M::T, M::W>,
    logits: M::T,
    targets: M::T,
    ignored: Option<u32>,
    r: M::T,
)
    requires
        are_real_losses(m, c),
        (c.classes)(targets).len() > 0,
        loss::is_cross_entropy(m, logits, targets, ignored, Ok::<M::T, M::E>(r)),
    ensures
        (c.of)(r).len() == 1,
        ({
            let costs = exact::sum(kept_costs(c, logits, targets, ignored));
            let count = exact::sum(kept_places(c, targets, ignored));
            &&& count >= 1real ==> (c.of)(r)[0] * count == costs
            &&& count < 1real ==> (c.of)(r)[0] == costs
        }),
{
    let ok = Ok::<M::T, M::E>(r);
    let costs = choose|costs: Result<M::T, M::E>| #[trigger]
        loss::are_costs(m, logits, targets, costs) && match costs {
            Ok(costs) => loss::is_mean_cost(m, costs, targets, ignored, ok),
            Err(e) => ok == Err::<M::T, M::E>(e),
        };
    let p = choose|p: Result<M::T, M::E>| #[trigger]
        call_ensures(M::log_softmax, (m, &logits), p) && match p {
            Ok(p) => loss::is_target_cost(m, p, targets, costs),
            Err(e) => costs == Err::<M::T, M::E>(e),
        };
    let g = choose|g: Result<M::T, M::E>| #[trigger]
        call_ensures(M::at_targets, (m, &p->Ok_0, &targets), g) && match g {
            Ok(g) => call_ensures(M::negated, (m, &g), costs),
            Err(e) => costs == Err::<M::T, M::E>(e),
        };
    let x = costs->Ok_0;
    let n = (c.classes)(targets).len();
    let want = kept_costs(c, logits, targets, ignored);
    let places = kept_places(c, targets, ignored);
    assert((c.of)(g->Ok_0) == Seq::new(
        n,
        |i: int| (c.log_prob)(logits, i, (c.classes)(targets)[i]),
    ));
    assert((c.of)(x).len() == n);
    match ignored {
        None => {
            assert((c.of)(x) =~= want);
            ones_count(places);
            let (s, k, q) = (exact::sum(want), n as int as real, (c.of)(r)[0]);
            assert(q * k == s) by (nonlinear_arith)
                requires
                    q == s / k,
                    k >= 1real,
            ;
        },
        Some(class) => {
            let mask = choose|mask: Result<M::T, M::E>| #[trigger]
                call_ensures(M::differs, (m, &targets, class), mask) && match mask {
                    Ok(mask) => loss::is_masked_mean(m, x, mask, ok),
                    Err(e) => ok == Err::<M::T, M::E>(e),
                };
            let mask = mask->Ok_0;
            let kept = choose|k: Result<M::T, M::E>| #[trigger]
                call_ensures(M::times, (m, &x, &mask), k) && match k {
                    Ok(k) => loss::is_kept_mean(m, k, mask, ok),
                    Err(e) => ok == Err::<M::T, M::E>(e),
                };
            let kept = kept->Ok_0;
            let total = choose|s: Result<M::T, M::E>| #[trigger]
                call_ensures(M::total, (m, &kept), s) && match s {
                    Ok(s) => loss::is_over_kept(m, s, mask, ok),
                    Err(e) => ok == Err::<M::T, M::E>(e),
                };
            let total = total->Ok_0;
            let count = choose|k: Result<M::T, M::E>| #[trigger]
                call_ensures(M::total, (m, &mask), k) && match k {
                    Ok(k) => loss::is_over_count(m, total, k, ok),
                    Err(e) => ok == Err::<M::T, M::E>(e),
                };
            let count = count->Ok_0;
            let by = choose|k: Result<M::T, M::E>| #[trigger]
                call_ensures(M::at_least_one, (m, &count), k) && match k {
                    Ok(k) => call_ensures(M::over, (m, &total, &k), ok),
                    Err(e) => ok == Err::<M::T, M::E>(e),
                };
            assert((c.of)(mask) =~= places);
            assert forall|i: int| 0 <= i < n implies #[trigger] (c.of)(kept)[i] == want[i] by {
                let (a, b) = ((c.of)(x)[i], places[i]);
                assert(a * b == if b == 0real {
                    0real
                } else {
                    a
                }) by (nonlinear_arith)
                    requires
                        b == 0real || b == 1real,
                ;
            }
            assert((c.of)(kept) =~= want);
            let (s, k, q) = (exact::sum(want), (c.of)(by->Ok_0)[0], (c.of)(r)[0]);
            assert(q * k == s) by (nonlinear_arith)
                requires
                    q == s / k,
                    k >= 1real,
            ;
            if exact::sum(places) < 1real {
                assert(q * 1real == q) by (nonlinear_arith);
            }
        },
    }
}

proof fn ones_count(s: Seq<real>)
    requires
        forall|i: int| 0 <= i < s.len() ==> #[trigger] s[i] == 1real,
    ensures
        exact::sum(s) == s.len() as int as real,
    decreases s.len(),
{
    if s.len() > 0 {
        assert forall|i: int| 0 <= i < s.drop_last().len() implies #[trigger] s.drop_last()[i]
            == 1real by {
            assert(s.drop_last()[i] == s[i]);
        }
        ones_count(s.drop_last());
    }
}

/// Logits at positions whose target is ignored do not change a cross-entropy.
pub proof fn ignored_positions_do_not_count<M: LossMath>(
    m: &M,
    c: Costs<M::T, M::W>,
    logits: M::T,
    others: M::T,
    targets: M::T,
    class: u32,
    r: M::T,
    q: M::T,
)
    requires
        are_real_losses(m, c),
        (c.classes)(targets).len() > 0,
        loss::is_cross_entropy(m, logits, targets, Some(class), Ok::<M::T, M::E>(r)),
        loss::is_cross_entropy(m, others, targets, Some(class), Ok::<M::T, M::E>(q)),
        forall|i: int|
            0 <= i < (c.classes)(targets).len() && (c.classes)(targets)[i] != class ==> #[trigger] (
            c.log_prob)(logits, i, (c.classes)(targets)[i]) == (c.log_prob)(
                others,
                i,
                (c.classes)(targets)[i],
            ),
    ensures
        (c.of)(r) == (c.of)(q),
{
    cross_entropy_is_the_mean_cost(m, c, logits, targets, Some(class), r);
    cross_entropy_is_the_mean_cost(m, c, others, targets, Some(class), q);
    let a = kept_costs(c, logits, targets, Some(class));
    let b = kept_costs(c, others, targets, Some(class));
    assert forall|i: int| 0 <= i < a.len() implies #[trigger] a[i] == b[i] by {
        if (c.classes)(targets)[i] != class {
            assert((c.log_prob)(logits, i, (c.classes)(targets)[i]) == (c.log_prob)(
                others,
                i,
                (c.classes)(targets)[i],
            ));
        }
    }
    assert(a =~= b);
    let (k, x, y) = (
        exact::sum(kept_places(c, targets, Some(class))),
        (c.of)(r)[0],
        (c.of)(q)[0],
    );
    if k >= 1real {
        assert(x == y) by (nonlinear_arith)
            requires
                x * k == y * k,
                k >= 1real,
        ;
    }
    assert((c.of)(r) =~= (c.of)(q));
}

/// A deep supervision loss is the sum over all steps of the cross-entropy of the step times its
/// weight, where the weights are those given, or each is one over the number of steps.
pub proof fn supervision_adds_weighed_steps<M: LossMath>(
    m: &M,
    c: Costs<M::T, M::W>,
    steps: Seq<M::T>,
    targets: M::T,
    weights: Option<&[M::W]>,
    ignored: Option<u32>,
    ws: Seq<M::W>,
    r: M::T,
) -> (each: Seq<M::T>)
    requires
        are_real_losses(m, c),
        steps.len() <= usize::MAX,
        weights matches Some(w) ==> w@.len() >= steps.len(),
        loss::are_step_weights(m, weights, steps.len(), ws),
        loss::is_supervision_loss(m, targets, ignored, steps, ws, Ok::<M::T, M::E>(r)),
    ensures
        each.len() == steps.len(),
        forall|i: int|
            0 <= i < steps.len() ==> loss::is_cross_entropy(
                m,
                #[trigger] steps[i],
                targets,
                ignored,
                Ok::<M::T, M::E>(each[i]),
            ),
        forall|i: int|
            0 <= i < steps.len() ==> match weights {
                Some(w) => #[trigger] ws[i] == w@[i],
                None => (c.weight)(ws[i]) * (steps.len() as int as real) == 1real,
            },
        (c.of)(r)[0] == exact::sum(
            Seq::new(steps.len(), |i: int| (c.of)(each[i])[0] * (c.weight)(ws[i])),
        ),
{
    let run = choose|run: Seq<M::T>| #[trigger]
        loss::are_loss_sums(m, targets, ignored, steps, ws, run) && run.len() == steps.len() + 1
            && r == run.last();
    let each = Seq::new(
        steps.len(),
        |i: int|
            choose|ce: M::T|
                {
                    &&& #[trigger] loss::is_cross_entropy(
                        m,
                        steps[i],
                        targets,
                        ignored,
                        Ok::<M::T, M::E>(ce),
                    )
                    &&& loss::is_weighed_sum(m, run[i], ce, ws[i], Ok::<M::T, M::E>(run[i + 1]))
                },
    );
    assert forall|i: int| 0 <= i < steps.len() implies loss::is_cross_entropy(
        m,
        #[trigger] steps[i],
        targets,
        ignored,
        Ok::<M::T, M::E>(each[i]),
    ) && loss::is_weighed_sum(m, run[i], each[i], ws[i], Ok::<M::T, M::E>(run[i + 1])) by {
        let next = Ok::<M::T, M::E>(run[i + 1]);
        assert(loss::is_loss_step(m, targets, ignored, run[i], steps[i], ws[i], next));
        let ce = choose|ce: Result<M::T, M::E>| #[trigger]
            loss::is_cross_entropy(m, steps[i], targets, ignored, ce) && match ce {
                Ok(ce) => loss::is_weighed_sum(m, run[i], ce, ws[i], next),
                Err(e) => next == Err::<M::T, M::E>(e),
            };
        assert(loss::is_cross_entropy(
            m,
            steps[i],
            targets,
            ignored,
            Ok::<M::T, M::E>(ce->Ok_0),
        ));
    }
    running_sum(m, c, steps, ws, run, each, steps.len() as int);
    let terms = Seq::new(steps.len(), |i: int| (c.of)(each[i])[0] * (c.weight)(ws[i]));
    assert(terms.take(steps.len() as int) =~= terms);
    each
}

proof fn running_sum<M: LossMath>(
    m: &M,
    c: Costs<M::T, M::W>,
    steps: Seq<M::T>,
    ws: Seq<M::W>,
    run: Seq<M::T>,
    each: Seq<M::T>,
    k: int,
)
    requires
        are_real_losses(m, c),
        run.len() == steps.len() + 1,
        each.len() == steps.len(),
        (c.of)(run[0]) == seq![0real],
        forall|i: int|
            0 <= i < steps.len() ==> #[trigger] loss::is_weighed_sum(
                m,
                run[i],
                each[i],
                ws[i],
                Ok::<M::T, M::E>(run[i + 1]),
            ),
        0 <= k <= steps.len(),
    ensures
        (c.of)(run[k])[0] == exact::sum(
            Seq::new(steps.len(), |i: int| (c.of)(each[i])[0] * (c.weight)(ws[i])).take(k),
        ),
    decreases k,
{
    let terms = Seq::new(steps.len(), |i: int| (c.of)(each[i])[0] * (c.weight)(ws[i]));
    if k > 0 {
        running_sum(m, c, steps, ws, run, each, k - 1);
        assert(terms.take(k).drop_last() =~= terms.take(k - 1));
        let next = Ok::<M::T, M::E>(run[k - 1 + 1]);
        assert(loss::is_weighed_sum(m, run[k - 1], each[k - 1], ws[k - 1], next));
        let t = choose|t: Result<M::T, M::E>| #[trigger]
            call_ensures(M::weighed, (m, &each[k - 1], ws[k - 1]), t) && match t {
                Ok(t) => call_ensures(M::plus, (m, &run[k - 1], &t), next),
                Err(e) => next == Err::<M::T, M::E>(e),
            };
        assert((c.of)(t->Ok_0)[0] == (c.of)(each[k - 1])[0] * (c.weight)(ws[k - 1]));
    }
}

/// The mean of what probabilities leave to one.
pub open spec fn left_over(p: Seq<real>) -> real {
    exact::sum(Seq::new(p.len(), |i: int| 1real - p[i])) / (p.len() as int as real)
}

proof fn remainder_value<M: LossMath>(m: &M, c: Costs<M::T, M::W>, p: M::T, r: M::T)
    requires
        are_real_losses(m, c),
        (c.of)(p).len() > 0,
        loss::is_remainder(m, p, Ok::<M::T, M::E>(r)),
    ensures
        (c.of)(r) == seq![left_over((c.of)(p))],
{
    let ok = Ok::<M::T, M::E>(r);
    let n = choose|n: Result<M::T, M::E>| #[trigger]
        call_ensures(M::negated, (m, &p), n) && match n {
            Ok(n) => loss::is_raised_mean(m, n, ok),
            Err(e) => ok == Err::<M::T, M::E>(e),
        };
    let q = choose|q: Result<M::T, M::E>| #[trigger]
        call_ensures(M::one_more, (m, &n->Ok_0), q) && match q {
            Ok(q) => call_ensures(M::mean, (m, &q), ok),
            Err(e) => ok == Err::<M::T, M::E>(e),
        };
    assert((c.of)(q->Ok_0) =~= Seq::new((c.of)(p).len(), |i: int| 1real - (c.of)(p)[i]));
}

proof fn ponder_sum<M: LossMath>(
    m: &M,
    c: Costs<M::T, M::W>,
    probs: Seq<M::T>,
    run: Seq<M::T>,
    k: int,
)
    requires
        are_real_losses(m, c),
        forall|i: int| 0 <= i < probs.len() ==> (c.of)(#[trigger] probs[i]).len() > 0,
        loss::are_ponder_sums(m, probs, run),
        run.len() == probs.len() + 1,
        0 <= k <= probs.len(),
    ensures
        (c.of)(run[k])[0] == exact::sum(
            Seq::new(probs.len(), |i: int| left_over((c.of)(probs[i]))).take(k),
        ),
    decreases k,
{
    let terms = Seq::new(probs.len(), |i: int| left_over((c.of)(probs[i])));
    if k > 0 {
        ponder_sum(m, c, probs, run, k - 1);
        assert(terms.take(k).drop_last() =~= terms.take(k - 1));
        let next = Ok::<M::T, M::E>(run[k - 1 + 1]);
        assert(loss::is_ponder_step(m, run[k - 1], probs[k - 1], next));
        let x = choose|x: Result<M::T, M::E>| #[trigger]
            loss::is_remainder(m, probs[k - 1], x) && match x {
                Ok(x) => call_ensures(M::plus, (m, &run[k - 1], &x), next),
                Err(e) => next == Err::<M::T, M::E>(e),
            };
        remainder_value(m, c, probs[k - 1], x->Ok_0);
    }
}

/// The cost of pondering is `lambda` times the sum, over the halting probabilities of all steps,
/// of the mean of what they leave to one: nothing where every step is certain to halt.
pub proof fn pondering_costs_what_is_left<M: LossMath>(
    m: &M,
    c: Costs<M::T, M::W>,
    probs: Seq<M::T>,
    lambda: M::W,
    r: M::T,
)
    requires
        are_real_losses(m, c),
        forall|i: int| 0 <= i < probs.len() ==> (c.of)(#[trigger] probs[i]).len() > 0,
        loss::is_ponder_loss(m, probs, lambda, Ok::<M::T, M::E>(r)),
    ensures
        probs.len() == 0 ==> (c.of)(r)[0] == 0real,
        probs.len() > 0 ==> (c.of)(r)[0] == exact::sum(
            Seq::new(
                probs.len(),
                |i: int|
                    exact::sum(Seq::new((c.of)(probs[i]).len(), |j: int| 1real - (c.of)(probs[i])[j]))
                        / ((c.of)(probs[i]).len() as int as real),
            ),
        ) * (c.weight)(lambda),
{
    let ok = Ok::<M::T, M::E>(r);
    if probs.len() > 0 {
        let run = choose|run: Seq<M::T>| #[trigger]
            loss::are_ponder_sums(m, probs, run) && if run.len() == probs.len() + 1 {
                probs.len() > 0 && call_ensures(M::weighed, (m, &run.last(), lambda), ok)
            } else {
                run.len() <= probs.len() && ok is Err && loss::is_ponder_step(
                    m,
                    run.last(),
                    probs[run.len() - 1],
                    ok,
                )
            };
        ponder_sum(m, c, probs, run, probs.len() as int);
        let terms = Seq::new(probs.len(), |i: int| left_over((c.of)(probs[i])));
        assert(terms.take(probs.len() as int) =~= terms);
        let want = Seq::new(
            probs.len(),
            |i: int|
                exact::sum(Seq::new((c.of)(probs[i]).len(), |j: int| 1real - (c.of)(probs[i])[j])) / ((
                c.of)(probs[i]).len() as int as real),
        );
        assert forall|i: int| 0 <= i < terms.len() implies #[trigger] terms[i] == want[i] by {
            assert(Seq::new((c.of)(probs[i]).len(), |j: int| 1real - (c.of)(probs[i])[j]) =~= {
                let p = (c.of)(probs[i]);
                Seq::new(p.len(), |k: int| 1real - p[k])
            });
        }
        assert(terms =~= want);
    }
}

/// What a fraction stands for.
pub open spec fn fraction(r: Ratio) -> real {
    (r.num as int as real) / (r.den as int as real)
}

proof fn fractions_add(w: Seq<Ratio>, den: int, k: int)
    requires
        den > 0,
        0 <= k <= w.len(),
        forall|i: int| 0 <= i < w.len() ==> (#[trigger] w[i]).den == den,
    ensures
        exact::sum(Seq::new(w.len(), |i: int| fraction(w[i])).take(k)) * (den as real) == loss::num_sum(
            w.take(k),
        ) as real,
    decreases k,
{
    let f = Seq::new(w.len(), |i: int| fraction(w[i]));
    if k == 0 {
        assert(0real * (den as real) == 0real) by (nonlinear_arith);
    } else {
        fractions_add(w, den, k - 1);
        assert(f.take(k).drop_last() =~= f.take(k - 1));
        assert(w.take(k).drop_last() =~= w.take(k - 1));
        assert(w[k - 1].den == den);
        let (s, x, n, d) = (
            exact::sum(f.take(k - 1)),
            f[k - 1],
            w[k - 1].num as int as real,
            den as real,
        );
        assert((s + x) * d == s * d + n) by (nonlinear_arith)
            requires
                x == n / d,
                d > 0real,
        ;
    }
}

/// The weights of supervised steps add up to one under every scheme. Uniform ones are all alike,
/// growing ones are the first one times the number of their step, and where only the last step
/// counts the others weigh nothing.
pub proof fn supervision_weights_add_up_to_one(scheme: DsWeightScheme, n: usize, w: Seq<Ratio>)
    requires
        n > 0,
        w == Seq::new(n as nat, |i: int| loss::supervision_weight(scheme, n as int, i)),
    ensures
        w.len() == n,
        exact::sum(Seq::new(w.len(), |i: int| fraction(w[i]))) == 1real,
        scheme == DsWeightScheme::Uniform ==> forall|i: int|
            0 <= i < n ==> fraction(#[trigger] w[i]) == fraction(w[0]),
        scheme == DsWeightScheme::LinearIncreasing ==> forall|i: int|
            0 <= i < n ==> fraction(#[trigger] w[i]) == fraction(w[0]) * ((i + 1) as real),
        scheme == DsWeightScheme::LastOnly ==> forall|i: int|
            0 <= i < n - 1 ==> fraction(#[trigger] w[i]) == 0real,
{
    let f = Seq::new(w.len(), |i: int| fraction(w[i]));
    assert(w.take(w.len() as int) =~= w);
    assert(f.take(f.len() as int) =~= f);
    match scheme {
        DsWeightScheme::Uniform => {
            fractions_add(w, n as int, n as int);
            alike_nums(w, n as int);
            let (s, d) = (exact::sum(f), n as int as real);
            assert(s == 1real) by (nonlinear_arith)
                requires
                    s * d == d,
                    d >= 1real,
            ;
        },
        DsWeightScheme::LinearIncreasing => {
            assert(w =~= Seq::new(n as nat, |i: int| loss::rising_weight(n as int, i)));
            loss::rising_weights_sum_to_one(n, w);
            let den = loss::triangle(n as int);
            assert(w[0].den == den);
            fractions_add(w, den, n as int);
            let (s, d) = (exact::sum(f), den as real);
            assert(s == 1real) by (nonlinear_arith)
                requires
                    s * d == d,
                    d >= 1real,
            ;
            assert forall|i: int| 0 <= i < n implies fraction(#[trigger] w[i]) == fraction(w[0])
                * ((i + 1) as real) by {
                assert(w[i].den == den);
                let (a, k) = (fraction(w[0]), (i + 1) as real);
                assert(k / d == (1real / d) * k) by (nonlinear_arith)
                    requires
                        d >= 1real,
                ;
            }
        },
        DsWeightScheme::LastOnly => {
            fractions_add(w, 1, n as int);
            assert forall|i: int| 0 <= i < n - 1 implies fraction(#[trigger] w[i]) == 0real by {
                assert(0real / 1real == 0real) by (nonlinear_arith);
            }
            last_num(w, n as int);
            let s = exact::sum(f);
            assert(s * 1real == s) by (nonlinear_arith);
        },
    }
}

proof fn alike_nums(w: Seq<Ratio>, k: int)
    requires
        0 <= k <= w.len(),
        forall|i: int| 0 <= i < w.len() ==> (#[trigger] w[i]).num == 1,
    ensures
        loss::num_sum(w.take(k)) == k,
    decreases k,
{
    if k > 0 {
        alike_nums(w, k - 1);
        assert(w.take(k).drop_last() =~= w.take(k - 1));
        assert(w[k - 1].num == 1);
    }
}

proof fn no_nums(w: Seq<Ratio>, k: int)
    requires
        0 <= k <= w.len(),
        forall|i: int| 0 <= i < k ==> (#[trigger] w[i]).num == 0,
    ensures
        loss::num_sum(w.take(k)) == 0,
    decreases k,
{
    if k > 0 {
        no_nums(w, k - 1);
        assert(w.take(k).drop_last() =~= w.take(k - 1));
        assert(w[k - 1].num == 0);
    }
}

proof fn last_num(w: Seq<Ratio>, n: int)
    requires
        0 < n == w.len(),
        forall|i: int| 0 <= i < n - 1 ==> (#[trigger] w[i]).num == 0,
        w[n - 1].num == 1,
    ensures
        loss::num_sum(w.take(n)) == 1,
{
    no_nums(w, n - 1);
    assert(w.take(n).drop_last() =~= w.take(n - 1));
}

/// How many entries of a list hold.
pub open spec fn tally(s: Seq<bool>) -> int
    decreases s.len(),
{
    if s.len() == 0 {
        0
    } else {
        tally(s.drop_last()) + if s.last() {
            1int
        } else {
            0
        }
    }
}

proof fn hits_tally(preds: Seq<Seq<u32>>, targets: Seq<Seq<u32>>, n: int)
    requires
        0 <= n <= preds.len(),
        n <= targets.len(),
    ensures
        loss::exact_hits(preds, targets, n as nat) == tally(
            Seq::new(n as nat, |i: int| preds[i] == targets[i]),
        ),
    decreases n,
{
    let s = Seq::new(n as nat, |i: int| preds[i] == targets[i]);
    if n > 0 {
        hits_tally(preds, targets, n - 1);
        assert(s.drop_last() =~= Seq::new((n - 1) as nat, |i: int| preds[i] == targets[i]));
    }
}

/// The exact accuracy of as many predictions as targets is how many predictions are their target,
/// token by token, out of how many there are; of none it is zero.
pub proof fn exact_accuracy_counts_equal_rows(
    preds: Seq<Seq<u32>>,
    targets: Seq<Seq<u32>>,
    r: Ratio,
)
    requires
        preds.len() == targets.len(),
        preds.len() <= usize::MAX,
        r == loss::exact_share(preds, targets),
    ensures
        preds.len() == 0 ==> r.num == 0 && r.den == 1,
        preds.len() > 0 ==> r.den == preds.len() && r.num == tally(
            Seq::new(preds.len(), |i: int| preds[i] == targets[i]),
        ),
{
    hits_tally(preds, targets, preds.len() as int);
    tally_bound(Seq::new(preds.len(), |i: int| preds[i] == targets[i]));
}

proof fn tally_bound(s: Seq<bool>)
    ensures
        0 <= tally(s) <= s.len(),
    decreases s.len(),
{
    if s.len() > 0 {
        tally_bound(s.drop_last());
    }
}

/// Whether the tokens agree, for every token of the predictions that has a target, row by row.
pub open spec fn agreements(preds: Seq<Seq<u32>>, targets: Seq<Seq<u32>>) -> Seq<bool>
    decreases preds.len(),
{
    if preds.len() == 0 {
        Seq::empty()
    } else {
        let (p, t) = (preds.last(), targets[preds.len() - 1]);
        agreements(preds.drop_last(), targets) + Seq::new(
            if p.len() < t.len() {
                p.len()
            } else {
                t.len()
            },
            |i: int| p[i] == t[i],
        )
    }
}

proof fn row_tally(p: Seq<u32>, t: Seq<u32>, n: int)
    requires
        0 <= n <= p.len(),
        n <= t.len(),
    ensures
        loss::row_hits(p, t, n as nat) == tally(Seq::new(n as nat, |i: int| p[i] == t[i])),
    decreases n,
{
    let s = Seq::new(n as nat, |i: int| p[i] == t[i]);
    if n > 0 {
        row_tally(p, t, n - 1);
        assert(s.drop_last() =~= Seq::new((n - 1) as nat, |i: int| p[i] == t[i]));
    }
}

proof fn tally_adds(a: Seq<bool>, b: Seq<bool>)
    ensures
        tally(a + b) == tally(a) + tally(b),
    decreases b.len(),
{
    if b.len() == 0 {
        assert(a + b =~= a);
    } else {
        tally_adds(a, b.drop_last());
        assert((a + b).drop_last() =~= a + b.drop_last());
    }
}

proof fn tokens_tally(preds: Seq<Seq<u32>>, targets: Seq<Seq<u32>>, n: int)
    requires
        0 <= n <= preds.len(),
        n <= targets.len(),
    ensures
        loss::token_hits(preds, targets, n as nat) == tally(agreements(preds.take(n), targets)),
        loss::token_total(preds, targets, n as nat) == agreements(preds.take(n), targets).len(),
    decreases n,
{
    if n > 0 {
        tokens_tally(preds, targets, n - 1);
        assert(preds.take(n).drop_last() =~= preds.take(n - 1));
        let (p, t) = (preds[n - 1], targets[n - 1]);
        let k = if p.len() < t.len() {
            p.len()
        } else {
            t.len()
        };
        row_tally(p, t, k as int);
        tally_adds(
            agreements(preds.take(n - 1), targets),
            Seq::new(k, |i: int| p[i] == t[i]),
        );
    }
}

/// The token accuracy of as many predictions as targets is how many tokens agree out of how many
/// are compared; where none is compared it is zero.
pub proof fn token_accuracy_counts_equal_tokens(
    preds: Seq<Seq<u32>>,
    targets: Seq<Seq<u32>>,
    r: Ratio,
)
    requires
        preds.len() == targets.len(),
        agreements(preds, targets).len() <= u128::MAX,
        r == loss::token_share(preds, targets),
    ensures
        agreements(preds, targets).len() == 0 ==> r.num == 0 && r.den == 1,
        agreements(preds, targets).len() > 0 ==> r.den == agreements(preds, targets).len()
            && r.num == tally(agreements(preds, targets)),
{
    tokens_tally(preds, targets, preds.len() as int);
    assert(preds.take(preds.len() as int) =~= preds);
    tally_bound(agreements(preds, targets));
}

} // verus!
