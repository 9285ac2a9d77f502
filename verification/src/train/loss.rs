//! Losses, weights for deep supervision, and accuracies.

use crate::ratio;
use crate::ratio::Ratio;
use vstd::prelude::*;

verus! {

/// How the supervised steps are weighted.
#[derive(Debug, Clone, Copy, PartialEq, Eq, Structural)]
pub enum DsWeightScheme {
    Uniform,
    LinearIncreasing,
    LastOnly,
}

/// The sum of the numbers from 1 to `n`.
pub open spec fn triangle(n: int) -> int {
    n * (n + 1) / 2
}

/// Weight `i` of `n` increasing ones: its place over the sum of all places.
pub open spec fn rising_weight(n: int, i: int) -> Ratio {
    Ratio { num: (i + 1) as u128, den: triangle(n) as u128 }
}

proof fn triangle_step(n: int)
    requires
        0 <= n,
    ensures
        triangle(n + 1) == triangle(n) + n + 1,
        n * (n + 1) % 2 == 0,
    decreases n,
{
    let p = n * (n + 1);
    assert((n + 1) * (n + 2) == p + 2 * (n + 1)) by (nonlinear_arith)
        requires
            p == n * (n + 1),
    ;
    if n > 0 {
        triangle_step(n - 1);
        let q = (n - 1) * n;
        assert(p == q + 2 * n && (n - 1) * (n - 1 + 1) == q) by (nonlinear_arith)
            requires
                p == n * (n + 1),
                q == (n - 1) * n,
        ;
    } else {
        assert(0 * (0 + 1) == 0) by (nonlinear_arith);
    }
}

proof fn triangle_fits(n: usize)
    ensures
        n * (n + 1) <= u128::MAX,
        0 <= triangle(n as int) <= u128::MAX,
{
    assert(0 <= n * (n + 1) <= 0xffff_ffff_ffff_ffff * 0x1_0000_0000_0000_0000) by (nonlinear_arith)
        requires
            0 <= n <= 0xffff_ffff_ffff_ffff,
    ;
}

/// Weights that grow linearly from step to step.
pub fn linear_increasing_weights(n: usize) -> (r: Vec<Ratio>)
    ensures
        r@ == Seq::new(n as nat, |i: int| rising_weight(n as int, i)),
{
    proof {
        triangle_fits(n);
    }
    let m: u128 = n as u128;
    let den: u128 = m * (m + 1) / 2;
    let mut out: Vec<Ratio> = Vec::new();
    let mut i: usize = 0;
    while i < n
        invariant
            i <= n,
            den == triangle(n as int),
            out@ == Seq::new(i as nat, |k: int| rising_weight(n as int, k)),
        decreases n - i,
    {
        out.push(Ratio { num: i as u128 + 1, den });
        assert(out@ =~= Seq::new((i + 1) as nat, |k: int| rising_weight(n as int, k)));
        i = i + 1;
    }
    out
}

/// The sum of the numerators.
pub open spec fn num_sum(w: Seq<Ratio>) -> int
    decreases w.len(),
{
    if w.len() == 0 {
        0
    } else {
        num_sum(w.drop_last()) + w.last().num
    }
}

proof fn rising_sum(n: usize, k: nat)
    requires
        k <= n,
    ensures
        num_sum(Seq::new(k, |i: int| rising_weight(n as int, i))) == triangle(k as int),
    decreases k,
{
    let w = Seq::new(k, |i: int| rising_weight(n as int, i));
    if k > 0 {
        rising_sum(n, (k - 1) as nat);
        assert(w.drop_last() =~= Seq::new((k - 1) as nat, |i: int| rising_weight(n as int, i)));
        triangle_step(k - 1);
    } else {
        assert(0 * (0 + 1) == 0) by (nonlinear_arith);
    }
}

/// Linearly growing weights add up to one: their numerators add up to their common denominator.
/// Each is larger than the one before it.
pub proof fn rising_weights_sum_to_one(n: usize, w: Seq<Ratio>)
    requires
        n > 0,
        w == Seq::new(n as nat, |i: int| rising_weight(n as int, i)),
    ensures
        num_sum(w) == triangle(n as int),
        forall|i: int| 0 <= i < n ==> (#[trigger] w[i]).den == triangle(n as int) && w[i].den > 0,
        forall|i: int, j: int| 0 <= i < j < n ==> (#[trigger] w[i]).num < (#[trigger] w[j]).num,
{
    rising_sum(n, n as nat);
    triangle_fits(n);
    triangle_step(n - 1);
    assert(0 <= (n - 1) * n) by (nonlinear_arith)
        requires
            n >= 1,
    ;
}

/// Weight `i` of `n` where only the last step counts.
pub open spec fn last_weight(n: int, i: int) -> Ratio {
    Ratio {
        num: if i == n - 1 {
            1
        } else {
            0
        },
        den: 1,
    }
}

/// Weights that leave only the last step.
pub fn last_step_only_weights(n: usize) -> (r: Vec<Ratio>)
    ensures
        r@ == Seq::new(n as nat, |i: int| last_weight(n as int, i)),
{
    let mut out: Vec<Ratio> = Vec::new();
    let mut i: usize = 0;
    while i < n
        invariant
            i <= n,
            out@ == Seq::new(i as nat, |k: int| last_weight(n as int, k)),
        decreases n - i,
    {
        if i == n - 1 {
            out.push(Ratio { num: 1, den: 1 });
        } else {
            out.push(Ratio { num: 0, den: 1 });
        }
        assert(out@ =~= Seq::new((i + 1) as nat, |k: int| last_weight(n as int, k)));
        i = i + 1;
    }
    out
}

/// The weight of step `i` of `n` under a scheme; uniform weights are one over `n`.
pub open spec fn supervision_weight(scheme: DsWeightScheme, n: int, i: int) -> Ratio {
    match scheme {
        DsWeightScheme::Uniform => Ratio { num: 1, den: n as u128 },
        DsWeightScheme::LinearIncreasing => rising_weight(n, i),
        DsWeightScheme::LastOnly => last_weight(n, i),
    }
}

/// The weights of `n` supervised steps under a scheme.
pub fn supervision_weights(scheme: DsWeightScheme, n: usize) -> (r: Vec<Ratio>)
    ensures
        r@ == Seq::new(n as nat, |i: int| supervision_weight(scheme, n as int, i)),
{
    match scheme {
        DsWeightScheme::Uniform => {
            let mut out: Vec<Ratio> = Vec::new();
            let mut i: usize = 0;
            while i < n
                invariant
                    i <= n,
                    scheme is Uniform,
                    out@ == Seq::new(i as nat, |k: int| supervision_weight(scheme, n as int, k)),
                decreases n - i,
            {
                out.push(Ratio { num: 1, den: n as u128 });
                assert(out@ =~= Seq::new(
                    (i + 1) as nat,
                    |k: int| supervision_weight(scheme, n as int, k),
                ));
                i = i + 1;
            }
            out
        },
        DsWeightScheme::LinearIncreasing => {
            let w = linear_increasing_weights(n);
            assert(w@ =~= Seq::new(n as nat, |k: int| supervision_weight(scheme, n as int, k)));
            w
        },
        DsWeightScheme::LastOnly => {
            let w = last_step_only_weights(n);
            assert(w@ =~= Seq::new(n as nat, |k: int| supervision_weight(scheme, n as int, k)));
            w
        },
    }
}

/// Several token rows, each by its tokens.
pub open spec fn token_rows(v: Seq<Vec<u32>>) -> Seq<Seq<u32>> {
    Seq::new(v.len(), |i: int| v[i]@)
}

/// The shorter of two lengths.
pub open spec fn shorter(a: nat, b: nat) -> nat {
    if a < b {
        a
    } else {
        b
    }
}

/// How many of the first `n` predictions equal their targets.
pub open spec fn exact_hits(preds: Seq<Seq<u32>>, targets: Seq<Seq<u32>>, n: nat) -> nat
    decreases n,
{
    if n == 0 {
        0
    } else {
        exact_hits(preds, targets, (n - 1) as nat) + if preds[n - 1] == targets[n - 1] {
            1nat
        } else {
            0
        }
    }
}

/// The share of predictions that equal their targets. Predictions without a target miss.
pub open spec fn exact_share(preds: Seq<Seq<u32>>, targets: Seq<Seq<u32>>) -> Ratio {
    ratio::share(
        exact_hits(preds, targets, shorter(preds.len(), targets.len())) as int,
        preds.len() as int,
    )
}

fn same_row(a: &Vec<u32>, b: &Vec<u32>) -> (r: bool)
    ensures
        r == (a@ == b@),
{
    if a.len() != b.len() {
        return false;
    }
    let mut i: usize = 0;
    while i < a.len()
        invariant
            i <= a@.len(),
            a@.len() == b@.len(),
            forall|j: int| 0 <= j < i ==> a@[j] == b@[j],
        decreases a@.len() - i,
    {
        if a[i] != b[i] {
            return false;
        }
        i = i + 1;
    }
    assert(a@ =~= b@);
    true
}

/// The share of predictions that equal their targets.
pub fn exact_match_accuracy(preds: &[Vec<u32>], targets: &[Vec<u32>]) -> (r: Ratio)
    ensures
        r == exact_share(token_rows(preds@), token_rows(targets@)),
        r.num <= r.den,
{
    let ghost ps = token_rows(preds@);
    let ghost ts = token_rows(targets@);
    let n: usize = if preds.len() < targets.len() {
        preds.len()
    } else {
        targets.len()
    };
    let mut correct: usize = 0;
    let mut i: usize = 0;
    while i < n
        invariant
            i <= n,
            n <= preds@.len(),
            n <= targets@.len(),
            ps == token_rows(preds@),
            ts == token_rows(targets@),
            correct == exact_hits(ps, ts, i as nat),
            correct <= i,
        decreases n - i,
    {
        assert(ps[i as int] == preds@[i as int]@ && ts[i as int] == targets@[i as int]@);
        if same_row(&preds[i], &targets[i]) {
            correct = correct + 1;
        }
        i = i + 1;
    }
    ratio::share_of(correct as u128, preds.len() as u128)
}

/// How many of the first `n` tokens agree.
pub open spec fn row_hits(p: Seq<u32>, t: Seq<u32>, n: nat) -> nat
    decreases n,
{
    if n == 0 {
        0
    } else {
        row_hits(p, t, (n - 1) as nat) + if p[n - 1] == t[n - 1] {
            1nat
        } else {
            0
        }
    }
}

/// How many tokens agree in the first `n` rows, compared up to the shorter of each pair.
pub open spec fn token_hits(preds: Seq<Seq<u32>>, targets: Seq<Seq<u32>>, n: nat) -> nat
    decreases n,
{
    if n == 0 {
        0
    } else {
        token_hits(preds, targets, (n - 1) as nat) + row_hits(
            preds[n - 1],
            targets[n - 1],
            shorter(preds[n - 1].len(), targets[n - 1].len()),
        )
    }
}

/// How many tokens are compared in the first `n` rows.
pub open spec fn token_total(preds: Seq<Seq<u32>>, targets: Seq<Seq<u32>>, n: nat) -> nat
    decreases n,
{
    if n == 0 {
        0
    } else {
        token_total(preds, targets, (n - 1) as nat) + shorter(
            preds[n - 1].len(),
            targets[n - 1].len(),
        )
    }
}

/// The share of compared tokens that agree.
pub open spec fn token_share(preds: Seq<Seq<u32>>, targets: Seq<Seq<u32>>) -> Ratio {
    let n = shorter(preds.len(), targets.len());
    ratio::share(token_hits(preds, targets, n) as int, token_total(preds, targets, n) as int)
}

fn count_row(p: &Vec<u32>, t: &Vec<u32>) -> (r: (usize, usize))
    ensures
        r.1 == shorter(p@.len(), t@.len()),
        r.0 == row_hits(p@, t@, r.1 as nat),
        r.0 <= r.1,
{
    let n: usize = if p.len() < t.len() {
        p.len()
    } else {
        t.len()
    };
    let mut hits: usize = 0;
    let mut i: usize = 0;
    while i < n
        invariant
            i <= n,
            n <= p@.len(),
            n <= t@.len(),
            hits == row_hits(p@, t@, i as nat),
            hits <= i,
        decreases n - i,
    {
        if p[i] == t[i] {
            hits = hits + 1;
        }
        i = i + 1;
    }
    (hits, n)
}

/// The share of compared tokens that agree; rows and tokens without a partner are left out.
pub fn token_accuracy(preds: &[Vec<u32>], targets: &[Vec<u32>]) -> (r: Ratio)
    ensures
        r == token_share(token_rows(preds@), token_rows(targets@)),
        r.num <= r.den,
{
    let ghost ps = token_rows(preds@);
    let ghost ts = token_rows(targets@);
    let n: usize = if preds.len() < targets.len() {
        preds.len()
    } else {
        targets.len()
    };
    let mut correct: u128 = 0;
    let mut total: u128 = 0;
    let mut i: usize = 0;
    assert(0 * 0x1_0000_0000_0000_0000 == 0);
    while i < n
        invariant
            i <= n,
            n <= preds@.len(),
            n <= targets@.len(),
            ps == token_rows(preds@),
            ts == token_rows(targets@),
            correct == token_hits(ps, ts, i as nat),
            total == token_total(ps, ts, i as nat),
            correct <= total <= i * 0xffff_ffff_ffff_ffff,
        decreases n - i,
    {
        assert(ps[i as int] == preds@[i as int]@ && ts[i as int] == targets@[i as int]@);
        let (hits, count) = count_row(&preds[i], &targets[i]);
        assert(i * 0xffff_ffff_ffff_ffff + 0xffff_ffff_ffff_ffff <= u128::MAX);
        correct = correct + hits as u128;
        total = total + count as u128;
        i = i + 1;
    }
    ratio::share_of(correct, total)
}

/// The tensor operations that losses are made of. Nothing is demanded of them beyond that they
/// return.
pub trait LossMath {
    /// A tensor.
    type T;

    /// A weight.
    type W: Copy;

    type E;

    /// The loss zero, to be added to what is computed where `like` is.
    fn zero(&self, like: Option<&Self::T>) -> Result<Self::T, Self::E>;

    /// The logarithms of the softmax over the classes.
    fn log_softmax(&self, logits: &Self::T) -> Result<Self::T, Self::E>;

    /// At every position, the entry of its target class.
    fn at_targets(&self, t: &Self::T, targets: &Self::T) -> Result<Self::T, Self::E>;

    /// At every position, one where the target is another class than that, and zero where it is
    /// that one.
    fn differs(&self, targets: &Self::T, class: u32) -> Result<Self::T, Self::E>;

    /// The tensor with every sign changed.
    fn negated(&self, t: &Self::T) -> Result<Self::T, Self::E>;

    /// The tensor with one added everywhere.
    fn one_more(&self, t: &Self::T) -> Result<Self::T, Self::E>;

    /// The product, element by element.
    fn times(&self, a: &Self::T, b: &Self::T) -> Result<Self::T, Self::E>;

    /// The sum of all elements.
    fn total(&self, t: &Self::T) -> Result<Self::T, Self::E>;

    /// The mean of all elements.
    fn mean(&self, t: &Self::T) -> Result<Self::T, Self::E>;

    /// A number, or one where it is below one.
    fn at_least_one(&self, t: &Self::T) -> Result<Self::T, Self::E>;

    /// The quotient of two numbers.
    fn over(&self, a: &Self::T, b: &Self::T) -> Result<Self::T, Self::E>;

    /// The weight one over `n`.
    fn uniform(&self, n: usize) -> Self::W;

    /// A loss times a weight.
    fn weighed(&self, loss: &Self::T, w: Self::W) -> Result<Self::T, Self::E>;

    /// The sum of two losses.
    fn plus(&self, a: &Self::T, b: &Self::T) -> Result<Self::T, Self::E>;
}

/// `r` is the negative of the log-probability of every target.
pub open spec fn is_target_cost<M: LossMath>(
    m: &M,
    log_probs: M::T,
    targets: M::T,
    r: Result<M::T, M::E>,
) -> bool {
    exists|g: Result<M::T, M::E>| #[trigger]
        call_ensures(M::at_targets, (m, &log_probs, &targets), g) && match g {
            Ok(g) => call_ensures(M::negated, (m, &g), r),
            Err(e) => r == Err::<M::T, M::E>(e),
        }
}

/// `r` is the cost of every position: minus the logarithm of the probability that its target
/// class is given.
pub open spec fn are_costs<M: LossMath>(
    m: &M,
    logits: M::T,
    targets: M::T,
    r: Result<M::T, M::E>,
) -> bool {
    exists|p: Result<M::T, M::E>| #[trigger]
        call_ensures(M::log_softmax, (m, &logits), p) && match p {
            Ok(p) => is_target_cost(m, p, targets, r),
            Err(e) => r == Err::<M::T, M::E>(e),
        }
}

/// `r` is `sum` over `count`, or over one where `count` is below one.
pub open spec fn is_over_count<M: LossMath>(
    m: &M,
    sum: M::T,
    count: M::T,
    r: Result<M::T, M::E>,
) -> bool {
    exists|k: Result<M::T, M::E>| #[trigger]
        call_ensures(M::at_least_one, (m, &count), k) && match k {
            Ok(k) => call_ensures(M::over, (m, &sum, &k), r),
            Err(e) => r == Err::<M::T, M::E>(e),
        }
}

/// `r` is `sum` over how many positions the mask keeps.
pub open spec fn is_over_kept<M: LossMath>(
    m: &M,
    sum: M::T,
    mask: M::T,
    r: Result<M::T, M::E>,
) -> bool {
    exists|c: Result<M::T, M::E>| #[trigger]
        call_ensures(M::total, (m, &mask), c) && match c {
            Ok(c) => is_over_count(m, sum, c, r),
            Err(e) => r == Err::<M::T, M::E>(e),
        }
}

/// `r` is the sum of the kept costs over how many there are.
pub open spec fn is_kept_mean<M: LossMath>(
    m: &M,
    kept: M::T,
    mask: M::T,
    r: Result<M::T, M::E>,
) -> bool {
    exists|s: Result<M::T, M::E>| #[trigger]
        call_ensures(M::total, (m, &kept), s) && match s {
            Ok(s) => is_over_kept(m, s, mask, r),
            Err(e) => r == Err::<M::T, M::E>(e),
        }
}

/// `r` is the mean of the costs that the mask keeps.
pub open spec fn is_masked_mean<M: LossMath>(
    m: &M,
    costs: M::T,
    mask: M::T,
    r: Result<M::T, M::E>,
) -> bool {
    exists|k: Result<M::T, M::E>| #[trigger]
        call_ensures(M::times, (m, &costs, &mask), k) && match k {
            Ok(k) => is_kept_mean(m, k, mask, r),
            Err(e) => r == Err::<M::T, M::E>(e),
        }
}

/// `r` is the mean of the costs, without those of positions whose target is `ignored`.
pub open spec fn is_mean_cost<M: LossMath>(
    m: &M,
    costs: M::T,
    targets: M::T,
    ignored: Option<u32>,
    r: Result<M::T, M::E>,
) -> bool {
    match ignored {
        None => call_ensures(M::mean, (m, &costs), r),
        Some(class) => exists|mask: Result<M::T, M::E>| #[trigger]
            call_ensures(M::differs, (m, &targets, class), mask) && match mask {
                Ok(mask) => is_masked_mean(m, costs, mask, r),
                Err(e) => r == Err::<M::T, M::E>(e),
            },
    }
}

/// `r` is the cross-entropy of the predictions, or the first failure on the way to it.
pub open spec fn is_cross_entropy<M: LossMath>(
    m: &M,
    logits: M::T,
    targets: M::T,
    ignored: Option<u32>,
    r: Result<M::T, M::E>,
) -> bool {
    exists|costs: Result<M::T, M::E>| #[trigger]
        are_costs(m, logits, targets, costs) && match costs {
            Ok(costs) => is_mean_cost(m, costs, targets, ignored, r),
            Err(e) => r == Err::<M::T, M::E>(e),
        }
}

fn costs_of<M: LossMath>(math: &M, logits: &M::T, targets: &M::T) -> (r: Result<M::T, M::E>)
    ensures
        are_costs(math, *logits, *targets, r),
{
    let p = math.log_softmax(logits);
    assert(call_ensures(M::log_softmax, (math, logits), p));
    match p {
        Ok(p) => {
            let g = math.at_targets(&p, targets);
            assert(call_ensures(M::at_targets, (math, &p, targets), g));
            let out = match g {
                Ok(g) => math.negated(&g),
                Err(e) => Err(e),
            };
            assert(is_target_cost(math, p, *targets, out));
            out
        },
        Err(e) => Err(e),
    }
}

fn masked_mean<M: LossMath>(math: &M, costs: &M::T, mask: &M::T) -> (r: Result<M::T, M::E>)
    ensures
        is_masked_mean(math, *costs, *mask, r),
{
    let k = math.times(costs, mask);
    assert(call_ensures(M::times, (math, costs, mask), k));
    let kept = match k {
        Ok(k) => k,
        Err(e) => {
            return Err(e);
        },
    };
    let s = math.total(&kept);
    assert(call_ensures(M::total, (math, &kept), s));
    let sum = match s {
        Ok(s) => s,
        Err(e) => {
            assert(is_kept_mean(math, kept, *mask, Err::<M::T, M::E>(e)));
            return Err(e);
        },
    };
    let c = math.total(mask);
    assert(call_ensures(M::total, (math, mask), c));
    let out = match c {
        Ok(count) => {
            let k = math.at_least_one(&count);
            assert(call_ensures(M::at_least_one, (math, &count), k));
            let q = match k {
                Ok(k) => math.over(&sum, &k),
                Err(e) => Err(e),
            };
            assert(is_over_count(math, sum, count, q));
            q
        },
        Err(e) => Err(e),
    };
    assert(is_over_kept(math, sum, *mask, out));
    assert(is_kept_mean(math, kept, *mask, out));
    out
}

/// The cross-entropy of predictions against target classes: the mean cost of the positions.
/// Positions whose target is `ignore_index` do not count; where none is left, the loss is zero
/// over one.
pub fn cross_entropy<M: LossMath>(
    math: &M,
    logits: &M::T,
    targets: &M::T,
    ignore_index: Option<u32>,
) -> (r: Result<M::T, M::E>)
    ensures
        is_cross_entropy(math, *logits, *targets, ignore_index, r),
{
    let costs = costs_of(math, logits, targets);
    match costs {
        Ok(costs) => {
            let out = match ignore_index {
                None => math.mean(&costs),
                Some(class) => {
                    let mask = math.differs(targets, class);
                    assert(call_ensures(M::differs, (math, targets, class), mask));
                    match mask {
                        Ok(mask) => masked_mean(math, &costs, &mask),
                        Err(e) => Err(e),
                    }
                },
            };
            assert(is_mean_cost(math, costs, *targets, ignore_index, out));
            out
        },
        Err(e) => Err(e),
    }
}

/// A weighed loss is added.
pub open spec fn is_weighed_sum<M: LossMath>(
    m: &M,
    acc: M::T,
    loss: M::T,
    w: M::W,
    r: Result<M::T, M::E>,
) -> bool {
    exists|t: Result<M::T, M::E>| #[trigger]
        call_ensures(M::weighed, (m, &loss, w), t) && match t {
            Ok(t) => call_ensures(M::plus, (m, &acc, &t), r),
            Err(e) => r == Err::<M::T, M::E>(e),
        }
}

/// `r` is `acc` with the weighed cross-entropy of one step added.
pub open spec fn is_loss_step<M: LossMath>(
    m: &M,
    targets: M::T,
    ignored: Option<u32>,
    acc: M::T,
    logits: M::T,
    w: M::W,
    r: Result<M::T, M::E>,
) -> bool {
    exists|ce: Result<M::T, M::E>| #[trigger]
        is_cross_entropy(m, logits, targets, ignored, ce) && match ce {
            Ok(ce) => is_weighed_sum(m, acc, ce, w, r),
            Err(e) => r == Err::<M::T, M::E>(e),
        }
}

fn loss_step<M: LossMath>(
    math: &M,
    targets: &M::T,
    ignore_index: Option<u32>,
    acc: &M::T,
    logits: &M::T,
    w: M::W,
) -> (r: Result<M::T, M::E>)
    ensures
        is_loss_step(math, *targets, ignore_index, *acc, *logits, w, r),
{
    let ce = cross_entropy(math, logits, targets, ignore_index);
    match ce {
        Ok(ce) => {
            let t = math.weighed(&ce, w);
            assert(call_ensures(M::weighed, (math, &ce, w), t));
            match t {
                Ok(t) => {
                    let out = math.plus(acc, &t);
                    assert(is_weighed_sum(math, *acc, ce, w, out));
                    out
                },
                Err(e) => Err(e),
            }
        },
        Err(e) => Err(e),
    }
}

/// The weight of each step: as given, or one over their number.
pub open spec fn are_step_weights<M: LossMath>(
    m: &M,
    weights: Option<&[M::W]>,
    n: nat,
    ws: Seq<M::W>,
) -> bool {
    match weights {
        Some(given) => ws == given@.take(n as int),
        None => ws.len() == n && exists|u: M::W| #[trigger]
            call_ensures(M::uniform, (m, n as usize), u) && forall|i: int|
                0 <= i < n ==> #[trigger] ws[i] == u,
    }
}

/// `run` are the sums after the first steps, `run[0]` the zero loss.
pub open spec fn are_loss_sums<M: LossMath>(
    m: &M,
    targets: M::T,
    ignored: Option<u32>,
    steps: Seq<M::T>,
    ws: Seq<M::W>,
    run: Seq<M::T>,
) -> bool {
    &&& run.len() > 0
    &&& call_ensures(M::zero, (m, Some(&targets)), Ok::<M::T, M::E>(run[0]))
    &&& forall|i: int|
        0 <= i < run.len() - 1 ==> is_loss_step(
            m,
            targets,
            ignored,
            #[trigger] run[i],
            steps[i],
            ws[i],
            Ok::<M::T, M::E>(run[i + 1]),
        )
}

/// `r` is the weighed sum of the cross-entropies of all steps, added up in order, or the first
/// failure on the way.
pub open spec fn is_supervision_loss<M: LossMath>(
    m: &M,
    targets: M::T,
    ignored: Option<u32>,
    steps: Seq<M::T>,
    ws: Seq<M::W>,
    r: Result<M::T, M::E>,
) -> bool {
    match r {
        Ok(total) => exists|run: Seq<M::T>| #[trigger]
            are_loss_sums(m, targets, ignored, steps, ws, run) && run.len() == steps.len() + 1 && total
                == run.last(),
        Err(e) => call_ensures(M::zero, (m, Some(&targets)), r) || exists|run: Seq<M::T>| #[trigger]
            are_loss_sums(m, targets, ignored, steps, ws, run) && run.len() <= steps.len() && is_loss_step(
                m,
                targets,
                ignored,
                run.last(),
                steps[run.len() - 1],
                ws[run.len() - 1],
                r,
            ),
    }
}

/// The deep supervision loss: the cross-entropies of all steps, weighed and added up.
pub fn deep_supervision_loss<M: LossMath>(
    math: &M,
    intermediates: &[M::T],
    targets: &M::T,
    weights: Option<&[M::W]>,
    ignore_index: Option<u32>,
) -> (r: Result<M::T, M::E>)
    requires
        weights matches Some(w) ==> w@.len() >= intermediates@.len(),
    ensures
        exists|ws: Seq<M::W>| #[trigger]
            are_step_weights(math, weights, intermediates@.len(), ws) && is_supervision_loss(
                math,
                *targets,
                ignore_index,
                intermediates@,
                ws,
                r,
            ),
{
    let n: usize = intermediates.len();
    let default_w = math.uniform(n);
    let ghost ws = match weights {
        Some(given) => given@.take(n as int),
        None => Seq::new(n as nat, |i: int| default_w),
    };
    proof {
        assert(call_ensures(M::uniform, (math, n), default_w));
        assert(are_step_weights(math, weights, intermediates@.len(), ws));
    }
    let z = math.zero(Some(targets));
    match z {
        Ok(zero) => {
            let mut total = zero;
            let ghost mut run: Seq<M::T> = seq![total];
            let mut i: usize = 0;
            while i < n
                invariant
                    i <= n,
                    n == intermediates@.len(),
                    weights matches Some(w) ==> w@.len() >= n,
                    ws.len() == n,
                    forall|k: int|
                        0 <= k < n ==> #[trigger] ws[k] == (match weights {
                            Some(w) => w@[k],
                            None => default_w,
                        }),
                    run.len() == i + 1,
                    run.last() == total,
                    are_loss_sums(math, *targets, ignore_index, intermediates@, ws, run),
                    are_step_weights(math, weights, intermediates@.len(), ws),
                decreases n - i,
            {
                let w = match weights {
                    Some(given) => given[i],
                    None => default_w,
                };
                assert(w == ws[i as int]);
                let step = loss_step(math, targets, ignore_index, &total, &intermediates[i], w);
                match step {
                    Ok(next) => {
                        let ghost before = run;
                        proof {
                            run = run.push(next);
                            assert forall|k: int| 0 <= k < run.len() - 1 implies is_loss_step(
                                math,
                                *targets,
                                ignore_index,
                                #[trigger] run[k],
                                intermediates@[k],
                                ws[k],
                                Ok::<M::T, M::E>(run[k + 1]),
                            ) by {
                                assert(run[k] == before[k]);
                                if k < before.len() - 1 {
                                    assert(run[k + 1] == before[k + 1]);
                                }
                            }
                        }
                        total = next;
                    },
                    Err(e) => {
                        assert(is_supervision_loss(
                            math,
                            *targets,
                            ignore_index,
                            intermediates@,
                            ws,
                            Err::<M::T, M::E>(e),
                        ));
                        return Err(e);
                    },
                }
                i = i + 1;
            }
            assert(is_supervision_loss(
                math,
                *targets,
                ignore_index,
                intermediates@,
                ws,
                Ok::<M::T, M::E>(total),
            ));
            Ok(total)
        },
        Err(e) => {
            assert(call_ensures(M::zero, (math, Some(targets)), Err::<M::T, M::E>(e)));
            assert(is_supervision_loss(
                math,
                *targets,
                ignore_index,
                intermediates@,
                ws,
                Err::<M::T, M::E>(e),
            ));
            Err(e)
        },
    }
}

/// `r` is the mean of `negative` with one added.
pub open spec fn is_raised_mean<M: LossMath>(
    m: &M,
    negative: M::T,
    r: Result<M::T, M::E>,
) -> bool {
    exists|q: Result<M::T, M::E>| #[trigger]
        call_ensures(M::one_more, (m, &negative), q) && match q {
            Ok(q) => call_ensures(M::mean, (m, &q), r),
            Err(e) => r == Err::<M::T, M::E>(e),
        }
}

/// `r` is the mean of what the probabilities leave to one.
pub open spec fn is_remainder<M: LossMath>(m: &M, p: M::T, r: Result<M::T, M::E>) -> bool {
    exists|n: Result<M::T, M::E>| #[trigger]
        call_ensures(M::negated, (m, &p), n) && match n {
            Ok(n) => is_raised_mean(m, n, r),
            Err(e) => r == Err::<M::T, M::E>(e),
        }
}

fn remainder<M: LossMath>(math: &M, p: &M::T) -> (r: Result<M::T, M::E>)
    ensures
        is_remainder(math, *p, r),
{
    let n = math.negated(p);
    assert(call_ensures(M::negated, (math, p), n));
    match n {
        Ok(n) => {
            let q = math.one_more(&n);
            assert(call_ensures(M::one_more, (math, &n), q));
            let out = match q {
                Ok(q) => math.mean(&q),
                Err(e) => Err(e),
            };
            assert(is_raised_mean(math, n, out));
            out
        },
        Err(e) => Err(e),
    }
}

/// `r` is `acc` with the remainder of one probability added.
pub open spec fn is_ponder_step<M: LossMath>(
    m: &M,
    acc: M::T,
    p: M::T,
    r: Result<M::T, M::E>,
) -> bool {
    exists|c: Result<M::T, M::E>| #[trigger]
        is_remainder(m, p, c) && match c {
            Ok(c) => call_ensures(M::plus, (m, &acc, &c), r),
            Err(e) => r == Err::<M::T, M::E>(e),
        }
}

/// The first of several tensors.
pub open spec fn first_of<'a, T>(s: Seq<T>) -> Option<&'a T> {
    if s.len() > 0 {
        Some(&s[0])
    } else {
        None
    }
}

/// `run` are the sums after the first probabilities, `run[0]` the zero loss.
pub open spec fn are_ponder_sums<M: LossMath>(m: &M, probs: Seq<M::T>, run: Seq<M::T>) -> bool {
    &&& run.len() > 0
    &&& call_ensures(M::zero, (m, first_of(probs)), Ok::<M::T, M::E>(run[0]))
    &&& forall|i: int|
        0 <= i < run.len() - 1 ==> is_ponder_step(
            m,
            #[trigger] run[i],
            probs[i],
            Ok::<M::T, M::E>(run[i + 1]),
        )
}

/// `r` is the sum of all remainders times `lambda`, zero where there are no probabilities, or
/// the first failure on the way.
pub open spec fn is_ponder_loss<M: LossMath>(
    m: &M,
    probs: Seq<M::T>,
    lambda: M::W,
    r: Result<M::T, M::E>,
) -> bool {
    ||| (probs.len() == 0 || r is Err) && call_ensures(M::zero, (m, first_of(probs)), r)
    ||| exists|run: Seq<M::T>| #[trigger]
        are_ponder_sums(m, probs, run) && if run.len() == probs.len() + 1 {
            probs.len() > 0 && call_ensures(M::weighed, (m, &run.last(), lambda), r)
        } else {
            run.len() <= probs.len() && r is Err && is_ponder_step(
                m,
                run.last(),
                probs[run.len() - 1],
                r,
            )
        }
}

/// The cost of pondering: what the halting probabilities leave to one, added up and scaled.
pub fn halting_ponder_loss<M: LossMath>(math: &M, halt_probs: &[M::T], lambda: M::W) -> (r: Result<
    M::T,
    M::E,
>)
    ensures
        is_ponder_loss(math, halt_probs@, lambda, r),
{
    let z = math.zero(
        if halt_probs.len() > 0 {
            Some(&halt_probs[0])
        } else {
            None
        },
    );
    assert(call_ensures(M::zero, (math, first_of(halt_probs@)), z));
    if halt_probs.len() == 0 {
        return z;
    }
    match z {
        Ok(zero) => {
            let mut ponder = zero;
            let ghost mut run: Seq<M::T> = seq![ponder];
            let mut i: usize = 0;
            while i < halt_probs.len()
                invariant
                    i <= halt_probs@.len(),
                    halt_probs@.len() > 0,
                    run.len() == i + 1,
                    run.last() == ponder,
                    are_ponder_sums(math, halt_probs@, run),
                decreases halt_probs@.len() - i,
            {
                let c = remainder(math, &halt_probs[i]);
                let step = match c {
                    Ok(c) => math.plus(&ponder, &c),
                    Err(e) => Err(e),
                };
                assert(is_ponder_step(math, ponder, halt_probs@[i as int], step));
                match step {
                    Ok(next) => {
                        let ghost before = run;
                        proof {
                            run = run.push(next);
                            assert forall|k: int| 0 <= k < run.len() - 1 implies is_ponder_step(
                                math,
                                #[trigger] run[k],
                                halt_probs@[k],
                                Ok::<M::T, M::E>(run[k + 1]),
                            ) by {
                                assert(run[k] == before[k]);
                                if k < before.len() - 1 {
                                    assert(run[k + 1] == before[k + 1]);
                                }
                            }
                        }
                        ponder = next;
                    },
                    Err(e) => {
                        return Err(e);
                    },
                }
                i = i + 1;
            }
            math.weighed(&ponder, lambda)
        },
        Err(e) => Err(e),
    }
}

} // verus!
