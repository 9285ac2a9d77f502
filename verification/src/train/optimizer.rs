//! AdamW over named parameters in groups, and the learning-rate schedule.

use crate::arith;
use crate::arith::Arith;
use crate::named;
use crate::named::{str_same, NameMap};
use crate::text;
use vstd::prelude::*;

verus! {

/// A group of parameters and its settings. `F` is the type of the settings.
#[derive(Debug, Clone)]
pub struct ParamGroup<F> {
    pub lr: F,
    pub weight_decay: F,
    pub beta1: F,
    pub beta2: F,
    pub eps: F,
    pub use_atan2: bool,
    pub name_patterns: Vec<String>,
}

/// The settings that the default groups share.
#[derive(Debug, Clone, Copy)]
pub struct AdamDefaults<F> {
    pub beta1: F,
    pub beta2: F,
    pub eps: F,
}

/// A pattern is `*`, a text with `*` at its end or at its front, or a name.
pub open spec fn matches_name(pattern: Seq<char>, name: Seq<char>) -> bool {
    if pattern == "*"@ {
        true
    } else if pattern.len() > 0 && pattern.last() == '*' {
        text::occurs_at(name, pattern.drop_last(), 0)
    } else if pattern.len() > 0 && pattern[0] == '*' {
        text::occurs_at(name, pattern.drop_first(), name.len() - (pattern.len() - 1))
    } else {
        pattern == name
    }
}

/// Whether a pattern covers a name.
pub fn pattern_matches(pattern: &str, name: &str) -> (r: bool)
    ensures
        r == matches_name(pattern@, name@),
{
    if str_same(pattern, "*") {
        return true;
    }
    let chars = text::chars_of(pattern);
    let n: usize = chars.len();
    if n > 0 && chars[n - 1] == '*' {
        let prefix = text::text_of(&chars, 0, n - 1);
        assert(prefix@ =~= pattern@.drop_last());
        return text::starts_with(name, prefix.as_str());
    }
    if n > 0 && chars[0] == '*' {
        let suffix = text::text_of(&chars, 1, n);
        assert(suffix@ =~= pattern@.drop_first());
        return text::ends_with(name, suffix.as_str());
    }
    str_same(pattern, name)
}

/// One of the group's patterns covers the name.
pub open spec fn group_covers<F>(g: ParamGroup<F>, name: Seq<char>) -> bool {
    exists|i: int|
        0 <= i < g.name_patterns@.len() && matches_name((#[trigger] g.name_patterns@[i])@, name)
}

/// The first group that covers the name, or the first group where none does.
pub open spec fn group_index<F>(groups: Seq<ParamGroup<F>>, name: Seq<char>, from: nat) -> nat
    decreases groups.len() - from,
{
    if from >= groups.len() {
        0
    } else if group_covers(groups[from as int], name) {
        from
    } else {
        group_index(groups, name, from + 1)
    }
}

fn covers<F>(g: &ParamGroup<F>, name: &str) -> (r: bool)
    ensures
        r == group_covers(*g, name@),
{
    let mut i: usize = 0;
    while i < g.name_patterns.len()
        invariant
            i <= g.name_patterns@.len(),
            forall|k: int|
                0 <= k < i ==> !matches_name((#[trigger] g.name_patterns@[k])@, name@),
        decreases g.name_patterns@.len() - i,
    {
        if pattern_matches(g.name_patterns[i].as_str(), name) {
            return true;
        }
        i = i + 1;
    }
    false
}

/// What the tensor library computes for the optimizer. Nothing is demanded of the operations
/// beyond that they return.
pub trait TensorMath<F> {
    type T;

    type E;

    /// A tensor of zeros in the shape of `t`.
    fn zeros_like(&self, t: &Self::T) -> Self::T;

    /// How many dimensions `t` has.
    fn rank(&self, t: &Self::T) -> usize;

    /// `t * mul + shift`.
    fn affine(&self, t: &Self::T, mul: F, shift: F) -> Result<Self::T, Self::E>;

    /// `a + b`.
    fn plus(&self, a: &Self::T, b: &Self::T) -> Result<Self::T, Self::E>;

    /// `a - b`.
    fn minus(&self, a: &Self::T, b: &Self::T) -> Result<Self::T, Self::E>;

    /// `a / b`.
    fn over(&self, a: &Self::T, b: &Self::T) -> Result<Self::T, Self::E>;

    /// The angle of the points `(b, a)`.
    fn atan2(&self, a: &Self::T, b: &Self::T) -> Result<Self::T, Self::E>;

    /// `a * a`.
    fn square(&self, a: &Self::T) -> Result<Self::T, Self::E>;

    /// The square root of `a`.
    fn root(&self, a: &Self::T) -> Result<Self::T, Self::E>;

    /// A second tensor with the elements of `a`.
    fn copy(&self, a: &Self::T) -> Result<Self::T, Self::E>;

    /// The sum of the squares of `a`.
    fn square_sum(&self, a: &Self::T) -> Result<F, Self::E>;

    /// `base` to the power `t`.
    fn power(&self, base: F, t: i32) -> F;

    /// `x`, kept off zero.
    fn off_zero(&self, x: F) -> F;

    /// Whether a clip factor is a positive number.
    fn usable_clip(&self, x: F) -> bool;

    /// Whether a loss scale is large enough to divide by.
    fn invertible(&self, x: F) -> bool;

    /// Whether `x <= 0`.
    fn nonpositive(&self, x: F) -> bool;

    /// The length of a vector whose squares add up to `total`; a negative total counts as zero.
    fn length(&self, total: F) -> F;
}

/// `r` is `t` times `mul`.
pub open spec fn is_scaled<A: Arith, M: TensorMath<A::Num>>(
    ar: &A,
    math: &M,
    t: M::T,
    mul: A::Num,
    r: Result<M::T, M::E>,
) -> bool {
    exists|zero: A::Num|
        arith::is_whole(ar, 0, zero) && #[trigger] call_ensures(
            M::affine,
            (math, &t, mul, zero),
            r,
        )
}

/// `r` is `1 - x`.
pub open spec fn is_rest<A: Arith>(ar: &A, x: A::Num, r: A::Num) -> bool {
    exists|one: A::Num|
        arith::is_whole(ar, 1, one) && #[trigger] arith::is_difference(ar, one, x, r)
}

/// `r` is `kept + rest * x`.
pub open spec fn is_share_added<A: Arith, M: TensorMath<A::Num>>(
    ar: &A,
    math: &M,
    kept: M::T,
    rest: A::Num,
    x: M::T,
    r: Result<M::T, M::E>,
) -> bool {
    exists|added: Result<M::T, M::E>| #[trigger]
        is_scaled(ar, math, x, rest, added) && match added {
            Ok(added) => call_ensures(M::plus, (math, &kept, &added), r),
            Err(e) => r == Err::<M::T, M::E>(e),
        }
}

/// `r` is `kept + (1 - beta) * x`.
pub open spec fn is_rest_added<A: Arith, M: TensorMath<A::Num>>(
    ar: &A,
    math: &M,
    kept: M::T,
    beta: A::Num,
    x: M::T,
    r: Result<M::T, M::E>,
) -> bool {
    exists|rest: A::Num| #[trigger]
        is_rest(ar, beta, rest) && is_share_added(ar, math, kept, rest, x, r)
}

/// `r` is the running mean `beta * before + (1 - beta) * g`.
pub open spec fn is_mean<A: Arith, M: TensorMath<A::Num>>(
    ar: &A,
    math: &M,
    before: M::T,
    beta: A::Num,
    g: M::T,
    r: Result<M::T, M::E>,
) -> bool {
    exists|kept: Result<M::T, M::E>| #[trigger]
        is_scaled(ar, math, before, beta, kept) && match kept {
            Ok(kept) => is_rest_added(ar, math, kept, beta, g, r),
            Err(e) => r == Err::<M::T, M::E>(e),
        }
}

/// `r` is `kept + (1 - beta) * g^2`.
pub open spec fn is_square_added<A: Arith, M: TensorMath<A::Num>>(
    ar: &A,
    math: &M,
    kept: M::T,
    beta: A::Num,
    g: M::T,
    r: Result<M::T, M::E>,
) -> bool {
    exists|g2: Result<M::T, M::E>| #[trigger]
        call_ensures(M::square, (math, &g), g2) && match g2 {
            Ok(g2) => is_rest_added(ar, math, kept, beta, g2, r),
            Err(e) => r == Err::<M::T, M::E>(e),
        }
}

/// `r` is the running mean `beta * before + (1 - beta) * g^2`.
pub open spec fn is_square_mean<A: Arith, M: TensorMath<A::Num>>(
    ar: &A,
    math: &M,
    before: M::T,
    beta: A::Num,
    g: M::T,
    r: Result<M::T, M::E>,
) -> bool {
    exists|kept: Result<M::T, M::E>| #[trigger]
        is_scaled(ar, math, before, beta, kept) && match kept {
            Ok(kept) => is_square_added(ar, math, kept, beta, g, r),
            Err(e) => r == Err::<M::T, M::E>(e),
        }
}

/// `inv` is one over `1 - beta^t`, which is kept off zero.
pub open spec fn is_correction<A: Arith, M: TensorMath<A::Num>>(
    ar: &A,
    math: &M,
    beta: A::Num,
    t: i32,
    inv: A::Num,
) -> bool {
    exists|power: A::Num, rest: A::Num, off: A::Num, one: A::Num|
        {
            &&& #[trigger] call_ensures(M::power, (math, beta, t), power)
            &&& #[trigger] is_rest(ar, power, rest)
            &&& #[trigger] call_ensures(M::off_zero, (math, rest), off)
            &&& arith::is_whole(ar, 1, one)
            &&& #[trigger] arith::is_quotient(ar, one, off, inv)
        }
}

/// `r` is the running mean `m` over `1 - beta^t`, which is kept off zero.
pub open spec fn is_corrected<A: Arith, M: TensorMath<A::Num>>(
    ar: &A,
    math: &M,
    m: M::T,
    beta: A::Num,
    t: i32,
    r: Result<M::T, M::E>,
) -> bool {
    exists|inv: A::Num| #[trigger]
        is_correction::<A, M>(ar, math, beta, t, inv) && is_scaled(ar, math, m, inv, r)
}

/// `r` is `a / (b + eps)`.
pub open spec fn is_padded_quotient<A: Arith, M: TensorMath<A::Num>>(
    ar: &A,
    math: &M,
    eps: A::Num,
    a: M::T,
    b: M::T,
    r: Result<M::T, M::E>,
) -> bool {
    exists|one: A::Num, padded: Result<M::T, M::E>|
        {
            &&& arith::is_whole(ar, 1, one)
            &&& #[trigger] call_ensures(M::affine, (math, &b, one, eps), padded)
            &&& match padded {
                Ok(padded) => call_ensures(M::over, (math, &a, &padded), r),
                Err(e) => r == Err::<M::T, M::E>(e),
            }
        }
}

/// `r` is the direction of the update: the angle of mean over root, or their quotient with
/// `eps` added below.
pub open spec fn is_direction<A: Arith, M: TensorMath<A::Num>>(
    ar: &A,
    math: &M,
    group: ParamGroup<A::Num>,
    m_hat: M::T,
    v_hat: M::T,
    r: Result<M::T, M::E>,
) -> bool {
    exists|root: Result<M::T, M::E>| #[trigger]
        call_ensures(M::root, (math, &v_hat), root) && match root {
            Ok(root) => if group.use_atan2 {
                call_ensures(M::atan2, (math, &m_hat, &root), r)
            } else {
                is_padded_quotient(ar, math, group.eps, m_hat, root, r)
            },
            Err(e) => r == Err::<M::T, M::E>(e),
        }
}

/// `wd` is the weight decay of a parameter: that of its group for matrices, none for vectors.
pub open spec fn is_decay<A: Arith>(
    ar: &A,
    group: ParamGroup<A::Num>,
    rank: usize,
    wd: A::Num,
) -> bool {
    if rank > 1 {
        wd == group.weight_decay
    } else {
        arith::is_whole(ar, 0, wd)
    }
}

/// `wd` differs from zero in magnitude.
pub open spec fn is_nonzero<A: Arith>(ar: &A, wd: A::Num, r: bool) -> bool {
    exists|mag: A::Num, zero: A::Num|
        {
            &&& arith::is_magnitude(ar, wd, mag)
            &&& arith::is_whole(ar, 0, zero)
            &&& #[trigger] arith::is_exceeds(ar, mag, zero, r)
        }
}

/// `r` is the parameter times `1 - lr * wd`.
pub open spec fn is_shrunk<A: Arith, M: TensorMath<A::Num>>(
    ar: &A,
    math: &M,
    lr: A::Num,
    wd: A::Num,
    param: M::T,
    r: Result<M::T, M::E>,
) -> bool {
    exists|product: A::Num, keep: A::Num|
        {
            &&& arith::is_product(ar, lr, wd, product)
            &&& #[trigger] is_rest(ar, product, keep)
            &&& is_scaled(ar, math, param, keep, r)
        }
}

/// `r` is the parameter shrunk by `1 - lr * wd`, or a copy of it where nothing decays.
pub open spec fn is_decayed<A: Arith, M: TensorMath<A::Num>>(
    ar: &A,
    math: &M,
    group: ParamGroup<A::Num>,
    rank: usize,
    param: M::T,
    r: Result<M::T, M::E>,
) -> bool {
    exists|wd: A::Num, decays: bool|
        {
            &&& is_decay(ar, group, rank, wd)
            &&& #[trigger] is_nonzero(ar, wd, decays)
            &&& if decays {
                is_shrunk(ar, math, group.lr, wd, param, r)
            } else {
                call_ensures(M::copy, (math, &param), r)
            }
        }
}

/// `r` is the decayed parameter less the step along the direction.
pub open spec fn is_moved<A: Arith, M: TensorMath<A::Num>>(
    ar: &A,
    math: &M,
    lr: A::Num,
    decayed: M::T,
    direction: M::T,
    r: Result<M::T, M::E>,
) -> bool {
    exists|step: Result<M::T, M::E>| #[trigger]
        is_scaled(ar, math, direction, lr, step) && match step {
            Ok(step) => call_ensures(M::minus, (math, &decayed, &step), r),
            Err(e) => r == Err::<M::T, M::E>(e),
        }
}

/// The running means of a parameter and how often it has been stepped.
pub struct AdamState<T> {
    pub m: T,
    pub v: T,
    pub step: u64,
}

/// `r` is the mean of the squares beside the mean `m` of the gradients.
pub open spec fn is_with_square<A: Arith, M: TensorMath<A::Num>>(
    ar: &A,
    math: &M,
    group: ParamGroup<A::Num>,
    before: AdamState<M::T>,
    g: M::T,
    m: M::T,
    r: Result<(M::T, M::T), M::E>,
) -> bool {
    exists|v: Result<M::T, M::E>| #[trigger]
        is_square_mean(ar, math, before.v, group.beta2, g, v) && match v {
            Ok(v) => r == Ok::<(M::T, M::T), M::E>((m, v)),
            Err(e) => r == Err::<(M::T, M::T), M::E>(e),
        }
}

/// `r` are the running means after one more gradient.
pub open spec fn are_moments<A: Arith, M: TensorMath<A::Num>>(
    ar: &A,
    math: &M,
    group: ParamGroup<A::Num>,
    before: AdamState<M::T>,
    g: M::T,
    r: Result<(M::T, M::T), M::E>,
) -> bool {
    exists|m: Result<M::T, M::E>| #[trigger]
        is_mean(ar, math, before.m, group.beta1, g, m) && match m {
            Ok(m) => is_with_square(ar, math, group, before, g, m, r),
            Err(e) => r == Err::<(M::T, M::T), M::E>(e),
        }
}

/// `r` is the parameter, after decay, moved along the direction.
pub open spec fn is_decayed_move<A: Arith, M: TensorMath<A::Num>>(
    ar: &A,
    math: &M,
    group: ParamGroup<A::Num>,
    param: M::T,
    direction: M::T,
    r: Result<M::T, M::E>,
) -> bool {
    exists|rank: usize, decayed: Result<M::T, M::E>|
        {
            &&& call_ensures(M::rank, (math, &param), rank)
            &&& #[trigger] is_decayed(ar, math, group, rank, param, decayed)
            &&& match decayed {
                Ok(decayed) => is_moved(ar, math, group.lr, decayed, direction, r),
                Err(e) => r == Err::<M::T, M::E>(e),
            }
        }
}

/// `r` is the parameter moved by both corrected means.
pub open spec fn is_directed<A: Arith, M: TensorMath<A::Num>>(
    ar: &A,
    math: &M,
    group: ParamGroup<A::Num>,
    m_hat: M::T,
    v_hat: M::T,
    param: M::T,
    r: Result<M::T, M::E>,
) -> bool {
    exists|direction: Result<M::T, M::E>| #[trigger]
        is_direction(ar, math, group, m_hat, v_hat, direction) && match direction {
            Ok(direction) => is_decayed_move(ar, math, group, param, direction, r),
            Err(e) => r == Err::<M::T, M::E>(e),
        }
}

/// `r` is the parameter moved by the corrected mean `m_hat` and the mean of the squares.
pub open spec fn is_squares_corrected<A: Arith, M: TensorMath<A::Num>>(
    ar: &A,
    math: &M,
    group: ParamGroup<A::Num>,
    s: AdamState<M::T>,
    m_hat: M::T,
    param: M::T,
    r: Result<M::T, M::E>,
) -> bool {
    exists|v_hat: Result<M::T, M::E>| #[trigger]
        is_corrected(ar, math, s.v, group.beta2, s.step as i32, v_hat) && match v_hat {
            Ok(v_hat) => is_directed(ar, math, group, m_hat, v_hat, param, r),
            Err(e) => r == Err::<M::T, M::E>(e),
        }
}

/// `r` is the value of a parameter moved by the running means `s`.
pub open spec fn is_adam_value<A: Arith, M: TensorMath<A::Num>>(
    ar: &A,
    math: &M,
    group: ParamGroup<A::Num>,
    s: AdamState<M::T>,
    param: M::T,
    r: Result<M::T, M::E>,
) -> bool {
    exists|m_hat: Result<M::T, M::E>| #[trigger]
        is_corrected(ar, math, s.m, group.beta1, s.step as i32, m_hat) && match m_hat {
            Ok(m_hat) => is_squares_corrected(ar, math, group, s, m_hat, param, r),
            Err(e) => r == Err::<M::T, M::E>(e),
        }
}

/// `after` and `r` are the state and value of a parameter after one step with gradient `g`. The
/// step counts even where the means cannot be taken; the means are kept where only the move
/// fails.
pub open spec fn is_adam<A: Arith, M: TensorMath<A::Num>>(
    ar: &A,
    math: &M,
    group: ParamGroup<A::Num>,
    before: AdamState<M::T>,
    g: M::T,
    param: M::T,
    after: AdamState<M::T>,
    r: Result<M::T, M::E>,
) -> bool {
    exists|means: Result<(M::T, M::T), M::E>|
        {
            &&& #[trigger] are_moments(ar, math, group, before, g, means)
            &&& after.step == before.step + 1
            &&& match means {
                Ok((m, v)) => after.m == m && after.v == v && is_adam_value(
                    ar,
                    math,
                    group,
                    after,
                    param,
                    r,
                ),
                Err(e) => after.m == before.m && after.v == before.v && r == Err::<M::T, M::E>(e),
            }
        }
}

fn scaled<A: Arith, M: TensorMath<A::Num>>(ar: &A, math: &M, t: &M::T, mul: A::Num) -> (r: Result<
    M::T,
    M::E,
>)
    ensures
        is_scaled(ar, math, *t, mul, r),
{
    let zero = ar.whole(0);
    let r = math.affine(t, mul, zero);
    assert(call_ensures(M::affine, (math, t, mul, zero), r));
    r
}

fn rest_of<A: Arith>(ar: &A, x: A::Num) -> (r: A::Num)
    ensures
        is_rest(ar, x, r),
{
    let one = ar.whole(1);
    let r = ar.minus(one, x);
    assert(arith::is_difference(ar, one, x, r));
    r
}

fn add_rest<A: Arith, M: TensorMath<A::Num>>(
    ar: &A,
    math: &M,
    kept: &M::T,
    beta: A::Num,
    x: &M::T,
) -> (r: Result<M::T, M::E>)
    ensures
        is_rest_added(ar, math, *kept, beta, *x, r),
{
    let rest = rest_of(ar, beta);
    let added = scaled(ar, math, x, rest);
    let r = match added {
        Ok(added) => math.plus(kept, &added),
        Err(e) => Err(e),
    };
    assert(is_share_added(ar, math, *kept, rest, *x, r));
    r
}

fn mean<A: Arith, M: TensorMath<A::Num>>(
    ar: &A,
    math: &M,
    before: &M::T,
    beta: A::Num,
    g: &M::T,
) -> (r: Result<M::T, M::E>)
    ensures
        is_mean(ar, math, *before, beta, *g, r),
{
    match scaled(ar, math, before, beta) {
        Ok(kept) => add_rest(ar, math, &kept, beta, g),
        Err(e) => Err(e),
    }
}

fn square_mean<A: Arith, M: TensorMath<A::Num>>(
    ar: &A,
    math: &M,
    before: &M::T,
    beta: A::Num,
    g: &M::T,
) -> (r: Result<M::T, M::E>)
    ensures
        is_square_mean(ar, math, *before, beta, *g, r),
{
    match scaled(ar, math, before, beta) {
        Ok(kept) => {
            let g2 = math.square(g);
            assert(call_ensures(M::square, (math, g), g2));
            let r = match g2 {
                Ok(g2) => add_rest(ar, math, &kept, beta, &g2),
                Err(e) => Err(e),
            };
            assert(is_square_added(ar, math, kept, beta, *g, r));
            r
        },
        Err(e) => Err(e),
    }
}

fn corrected<A: Arith, M: TensorMath<A::Num>>(
    ar: &A,
    math: &M,
    m: &M::T,
    beta: A::Num,
    t: i32,
) -> (r: Result<M::T, M::E>)
    ensures
        is_corrected(ar, math, *m, beta, t, r),
{
    let power = math.power(beta, t);
    let rest = rest_of(ar, power);
    let off = math.off_zero(rest);
    let one = ar.whole(1);
    let inv = ar.over(one, off);
    assert(call_ensures(M::power, (math, beta, t), power));
    assert(call_ensures(M::off_zero, (math, rest), off));
    assert(arith::is_quotient(ar, one, off, inv));
    assert(is_correction::<A, M>(ar, math, beta, t, inv));
    scaled(ar, math, m, inv)
}

fn direction_of<A: Arith, M: TensorMath<A::Num>>(
    ar: &A,
    math: &M,
    group: &ParamGroup<A::Num>,
    m_hat: &M::T,
    v_hat: &M::T,
) -> (r: Result<M::T, M::E>)
    ensures
        is_direction(ar, math, *group, *m_hat, *v_hat, r),
{
    let rooted = math.root(v_hat);
    assert(call_ensures(M::root, (math, v_hat), rooted));
    match rooted {
        Ok(root) => {
            if group.use_atan2 {
                math.atan2(m_hat, &root)
            } else {
                let one = ar.whole(1);
                let shifted = math.affine(&root, one, group.eps);
                assert(call_ensures(M::affine, (math, &root, one, group.eps), shifted));
                let r = match shifted {
                    Ok(padded) => math.over(m_hat, &padded),
                    Err(e) => Err(e),
                };
                assert(is_padded_quotient(ar, math, group.eps, *m_hat, root, r));
                r
            }
        },
        Err(e) => Err(e),
    }
}

fn decayed_of<A: Arith, M: TensorMath<A::Num>>(
    ar: &A,
    math: &M,
    group: &ParamGroup<A::Num>,
    rank: usize,
    param: &M::T,
) -> (r: Result<M::T, M::E>)
    ensures
        is_decayed(ar, math, *group, rank, *param, r),
{
    let wd = if rank > 1 {
        group.weight_decay
    } else {
        ar.whole(0)
    };
    let mag = ar.magnitude(wd);
    let zero = ar.whole(0);
    let decays = ar.exceeds(mag, zero);
    assert(arith::is_exceeds(ar, mag, zero, decays));
    assert(is_nonzero(ar, wd, decays));
    if decays {
        let product = ar.times(group.lr, wd);
        let keep = rest_of(ar, product);
        let r = scaled(ar, math, param, keep);
        assert(is_shrunk(ar, math, group.lr, wd, *param, r));
        r
    } else {
        math.copy(param)
    }
}

fn move_param<A: Arith, M: TensorMath<A::Num>>(
    ar: &A,
    math: &M,
    group: &ParamGroup<A::Num>,
    param: &M::T,
    direction: &M::T,
) -> (r: Result<M::T, M::E>)
    ensures
        is_decayed_move(ar, math, *group, *param, *direction, r),
{
    let rank: usize = math.rank(param);
    let decayed = decayed_of(ar, math, group, rank, param);
    match decayed {
        Ok(decayed) => {
            let step = scaled(ar, math, direction, group.lr);
            let r = match step {
                Ok(step) => math.minus(&decayed, &step),
                Err(e) => Err(e),
            };
            assert(is_moved(ar, math, group.lr, decayed, *direction, r));
            r
        },
        Err(e) => Err(e),
    }
}

fn adam_value<A: Arith, M: TensorMath<A::Num>>(
    ar: &A,
    math: &M,
    group: &ParamGroup<A::Num>,
    s: &AdamState<M::T>,
    param: &M::T,
) -> (r: Result<M::T, M::E>)
    ensures
        is_adam_value(ar, math, *group, *s, *param, r),
{
    let t: i32 = #[verifier::truncate]
    (s.step as i32);
    let m_hat = match corrected(ar, math, &s.m, group.beta1, t) {
        Ok(x) => x,
        Err(e) => {
            return Err(e);
        },
    };
    let v_hat = match corrected(ar, math, &s.v, group.beta2, t) {
        Ok(x) => x,
        Err(e) => {
            assert(is_squares_corrected(
                ar,
                math,
                *group,
                *s,
                m_hat,
                *param,
                Err::<M::T, M::E>(e),
            ));
            return Err(e);
        },
    };
    let direction = direction_of(ar, math, group, &m_hat, &v_hat);
    let r = match direction {
        Ok(direction) => move_param(ar, math, group, param, &direction),
        Err(e) => Err(e),
    };
    assert(is_directed(ar, math, *group, m_hat, v_hat, *param, r));
    assert(is_squares_corrected(ar, math, *group, *s, m_hat, *param, r));
    r
}

fn moments<A: Arith, M: TensorMath<A::Num>>(
    ar: &A,
    math: &M,
    group: &ParamGroup<A::Num>,
    before: &AdamState<M::T>,
    g: &M::T,
) -> (r: Result<(M::T, M::T), M::E>)
    ensures
        are_moments(ar, math, *group, *before, *g, r),
{
    match mean(ar, math, &before.m, group.beta1, g) {
        Ok(m) => {
            let v = square_mean(ar, math, &before.v, group.beta2, g);
            let ghost had = m;
            let r = match v {
                Ok(v) => Ok((m, v)),
                Err(e) => Err(e),
            };
            assert(is_with_square(ar, math, *group, *before, *g, had, r));
            r
        },
        Err(e) => Err(e),
    }
}

fn adam_step<A: Arith, M: TensorMath<A::Num>>(
    ar: &A,
    math: &M,
    group: &ParamGroup<A::Num>,
    before: AdamState<M::T>,
    g: &M::T,
    param: &M::T,
) -> (r: (AdamState<M::T>, Result<M::T, M::E>))
    requires
        before.step < u64::MAX,
    ensures
        is_adam(ar, math, *group, before, *g, *param, r.0, r.1),
{
    let means = moments(ar, math, group, &before, g);
    let step: u64 = before.step + 1;
    match means {
        Ok((m, v)) => {
            let after = AdamState { m, v, step };
            let next = adam_value(ar, math, group, &after, param);
            (after, next)
        },
        Err(e) => (AdamState { m: before.m, v: before.v, step }, Err(e)),
    }
}

/// `r` is one over the loss scale, or one where that is too small to divide by.
pub open spec fn is_inverse_loss<A: Arith, M: TensorMath<A::Num>>(
    ar: &A,
    math: &M,
    loss: A::Num,
    r: A::Num,
) -> bool {
    exists|ok: bool, one: A::Num|
        {
            &&& #[trigger] call_ensures(M::invertible, (math, loss), ok)
            &&& #[trigger] arith::is_whole(ar, 1, one)
            &&& if ok {
                arith::is_quotient(ar, one, loss, r)
            } else {
                r == one
            }
        }
}

/// `r` is the clip factor, or one where that is no positive number.
pub open spec fn is_clip<A: Arith, M: TensorMath<A::Num>>(
    ar: &A,
    math: &M,
    clip: A::Num,
    r: A::Num,
) -> bool {
    exists|ok: bool| #[trigger]
        call_ensures(M::usable_clip, (math, clip), ok) && if ok {
            r == clip
        } else {
            arith::is_whole(ar, 1, r)
        }
}

/// `f` is what every gradient is multiplied by: the inverse loss scale times the clip factor.
pub open spec fn is_factor<A: Arith, M: TensorMath<A::Num>>(
    ar: &A,
    math: &M,
    loss: A::Num,
    clip: A::Num,
    f: A::Num,
) -> bool {
    exists|inv: A::Num, cl: A::Num|
        {
            &&& #[trigger] is_inverse_loss(ar, math, loss, inv)
            &&& #[trigger] is_clip(ar, math, clip, cl)
            &&& arith::is_product(ar, inv, cl, f)
        }
}

/// `s` is where a parameter starts from: its state, or zeros where it has none yet.
pub open spec fn is_start<F, M: TensorMath<F>>(
    math: &M,
    state: Option<AdamState<M::T>>,
    param: M::T,
    s: AdamState<M::T>,
) -> bool {
    match state {
        Some(old_state) => s == old_state,
        None => {
            &&& s.step == 0
            &&& call_ensures(M::zeros_like, (math, &param), s.m)
            &&& call_ensures(M::zeros_like, (math, &param), s.v)
        },
    }
}

/// A step with the scaled gradient `g`, from the running means `m` and `v` after `step` steps.
pub open spec fn is_grad_step<A: Arith, M: TensorMath<A::Num>>(
    ar: &A,
    math: &M,
    group: ParamGroup<A::Num>,
    g: M::T,
    state: Option<AdamState<M::T>>,
    param: M::T,
    m: M::T,
    v: M::T,
    step: u64,
    next_state: Option<AdamState<M::T>>,
    r: Result<M::T, M::E>,
) -> bool {
    let start = AdamState { m, v, step };
    &&& is_start::<A::Num, M>(math, state, param, start)
    &&& next_state is Some
    &&& is_adam(ar, math, group, start, g, param, next_state->Some_0, r)
}

/// The state and the value of a parameter after a step with the scaled gradient `g`.
pub open spec fn is_scaled_step<A: Arith, M: TensorMath<A::Num>>(
    ar: &A,
    math: &M,
    group: ParamGroup<A::Num>,
    g: M::T,
    state: Option<AdamState<M::T>>,
    param: M::T,
    next_state: Option<AdamState<M::T>>,
    r: Result<M::T, M::E>,
) -> bool {
    exists|m: M::T, v: M::T, step: u64| #[trigger]
        is_grad_step(ar, math, group, g, state, param, m, v, step, next_state, r)
}

/// The state and the value of a parameter after a step with the gradient `grad`, which is scaled
/// first.
pub open spec fn is_given_step<A: Arith, M: TensorMath<A::Num>>(
    ar: &A,
    math: &M,
    factor: A::Num,
    group: ParamGroup<A::Num>,
    grad: M::T,
    state: Option<AdamState<M::T>>,
    param: M::T,
    next_state: Option<AdamState<M::T>>,
    r: Result<M::T, M::E>,
) -> bool {
    exists|g: Result<M::T, M::E>| #[trigger]
        is_scaled(ar, math, grad, factor, g) && match g {
            Ok(g) => is_scaled_step(ar, math, group, g, state, param, next_state, r),
            Err(e) => next_state == state && r == Err::<M::T, M::E>(e),
        }
}

/// One parameter before and after a step: without a gradient nothing changes, with one it makes
/// an AdamW step in its group. `r` is its value, or the first operation of the step that failed.
pub open spec fn is_stepped<A: Arith, M: TensorMath<A::Num>>(
    ar: &A,
    math: &M,
    factor: A::Num,
    group: ParamGroup<A::Num>,
    grad: Option<M::T>,
    state: Option<AdamState<M::T>>,
    param: M::T,
    next_state: Option<AdamState<M::T>>,
    r: Result<M::T, M::E>,
) -> bool {
    match grad {
        None => next_state == state && r == Ok::<M::T, M::E>(param),
        Some(grad) => is_given_step(
            ar,
            math,
            factor,
            group,
            grad,
            state,
            param,
            next_state,
            r,
        ),
    }
}

/// AdamW with a group of settings for each kind of parameter.
pub struct MultiGroupOptimizer<F, T> {
    pub groups: Vec<ParamGroup<F>>,
    pub states: NameMap<AdamState<T>>,
    pub pending: NameMap<T>,
    pub current_clip_scale: F,
    pub loss_scale: F,
}

/// One gradient folded into the pending ones: added to the one of its name, or put there.
pub open spec fn is_folded<F, M: TensorMath<F>>(
    math: &M,
    before: Seq<(Seq<char>, M::T)>,
    name: Seq<char>,
    g: M::T,
    after: Seq<(Seq<char>, M::T)>,
) -> bool {
    match named::found(before, name) {
        None => after == named::inserted(before, name, g),
        Some(old_g) => exists|sum: M::T| #[trigger]
            call_ensures(M::plus, (math, &old_g, &g), Ok::<M::T, M::E>(sum)) && after
                == named::inserted(named::removed(before, name), name, sum),
    }
}

/// `run` lists the pending gradients after each of the first folds.
pub open spec fn is_fold_run<F, M: TensorMath<F>>(
    math: &M,
    before: Seq<(Seq<char>, M::T)>,
    pairs: Seq<(String, M::T)>,
    run: Seq<Seq<(Seq<char>, M::T)>>,
) -> bool {
    &&& 0 < run.len() <= pairs.len() + 1
    &&& run[0] == before
    &&& forall|i: int|
        0 <= i < run.len() - 1 ==> is_folded::<F, M>(
            math,
            run[i],
            (#[trigger] pairs[i]).0@,
            pairs[i].1,
            run[i + 1],
        )
}

impl<F, T> MultiGroupOptimizer<F, T> {
    /// The maps are in order.
    pub open spec fn wf(&self) -> bool {
        self.states.wf() && self.pending.wf()
    }

    /// An optimizer with these groups, no state and nothing pending.
    pub fn new(groups: Vec<ParamGroup<F>>, one: F) -> (r: Self) where F: Copy
        ensures
            r.wf(),
            r.groups == groups,
            r.states@.len() == 0,
            r.pending@.len() == 0,
            r.current_clip_scale == one,
            r.loss_scale == one,
    {
        MultiGroupOptimizer {
            groups,
            states: NameMap::new(),
            pending: NameMap::new(),
            current_clip_scale: one,
            loss_scale: one,
        }
    }

    /// The place of the group of a parameter: the first that covers its name, else the first.
    pub fn find_group(&self, name: &str) -> (r: usize)
        requires
            self.groups@.len() > 0,
        ensures
            r == group_index(self.groups@, name@, 0),
            r < self.groups@.len(),
    {
        let mut i: usize = 0;
        while i < self.groups.len()
            invariant
                i <= self.groups@.len(),
                self.groups@.len() > 0,
                group_index(self.groups@, name@, 0) == group_index(self.groups@, name@, i as nat),
            decreases self.groups@.len() - i,
        {
            if covers(&self.groups[i], name) {
                return i;
            }
            i = i + 1;
        }
        0
    }

    /// How many parameters have a pending gradient.
    pub fn pending_count(&self) -> (r: usize)
        ensures
            r == self.pending@.len(),
    {
        self.pending.len()
    }

    /// Folds the gradients of a backward pass into the pending ones. A sum that fails ends it,
    /// and the gradient it was for is gone.
    pub fn accumulate<M: TensorMath<F, T = T>>(&mut self, math: &M, pairs: Vec<(String, T)>) -> (r:
        Result<(), M::E>)
        requires
            old(self).wf(),
        ensures
            final(self).wf(),
            final(self).groups == old(self).groups,
            final(self).states == old(self).states,
            final(self).current_clip_scale == old(self).current_clip_scale,
            final(self).loss_scale == old(self).loss_scale,
            exists|run: Seq<Seq<(Seq<char>, T)>>|
                {
                    let k = run.len() - 1;
                    &&& #[trigger] is_fold_run::<F, M>(math, old(self).pending@, pairs@, run)
                    &&& match r {
                        Ok(()) => k == pairs@.len() && final(self).pending@ == run[k],
                        Err(e) => {
                            &&& k < pairs@.len()
                            &&& named::found(run[k], pairs@[k].0@) is Some
                            &&& call_ensures(
                                M::plus,
                                (
                                    math,
                                    &named::found(run[k], pairs@[k].0@)->Some_0,
                                    &pairs@[k].1,
                                ),
                                Err::<T, M::E>(e),
                            )
                            &&& final(self).pending@ == named::removed(run[k], pairs@[k].0@)
                        },
                    }
                },
    {
        let ghost before = self.pending@;
        let ghost given = pairs@;
        let ghost mut run: Seq<Seq<(Seq<char>, T)>> = seq![before];
        for pair in it: pairs.into_iter()
            invariant
                it.seq() == given,
                given == pairs@,
                before == old(self).pending@,
                self.wf(),
                self.groups == old(self).groups,
                self.states == old(self).states,
                self.current_clip_scale == old(self).current_clip_scale,
                self.loss_scale == old(self).loss_scale,
                run.len() == it.index() + 1,
                run[it.index() as int] == self.pending@,
                is_fold_run::<F, M>(math, before, given, run),
        {
            let ghost k = it.index() as int;
            let ghost here = self.pending@;
            let (name, g) = pair;
            assert(given[k] == (name, g));
            match self.pending.remove(name.as_str()) {
                Some(old_g) => {
                    let sum = math.plus(&old_g, &g);
                    assert(call_ensures(M::plus, (math, &old_g, &g), sum));
                    match sum {
                        Ok(t) => {
                            self.pending.insert(name, t);
                        },
                        Err(e) => {
                            assert(run[k] == here);
                            return Err(e);
                        },
                    }
                },
                None => {
                    assert(named::removed(here, name@) == here);
                    self.pending.insert(name, g);
                },
            }
            proof {
                let longer = run.push(self.pending@);
                assert forall|i: int| 0 <= i < longer.len() - 1 implies is_folded::<F, M>(
                    math,
                    longer[i],
                    (#[trigger] given[i]).0@,
                    given[i].1,
                    longer[i + 1],
                ) by {
                    if i < k {
                        assert(longer[i] == run[i] && longer[i + 1] == run[i + 1]);
                    }
                }
                run = longer;
            }
        }
        Ok(())
    }

    /// Drops the pending gradients.
    pub fn zero_grad(&mut self)
        ensures
            final(self).pending.wf(),
            final(self).pending@.len() == 0,
            final(self).groups == old(self).groups,
            final(self).states == old(self).states,
            final(self).current_clip_scale == old(self).current_clip_scale,
            final(self).loss_scale == old(self).loss_scale,
    {
        self.pending.clear();
    }
}

/// What a step makes of the variable at place `i`: `r` is its value, or the first operation that
/// failed.
pub open spec fn is_stepped_at<A: Arith, M: TensorMath<A::Num>>(
    ar: &A,
    math: &M,
    factor: A::Num,
    groups: Seq<ParamGroup<A::Num>>,
    pending: Seq<(Seq<char>, M::T)>,
    states: Seq<(Seq<char>, AdamState<M::T>)>,
    vars: Seq<(Seq<char>, M::T)>,
    next_states: Seq<(Seq<char>, AdamState<M::T>)>,
    i: int,
    r: Result<M::T, M::E>,
) -> bool {
    let name = vars[i].0;
    is_stepped(
        ar,
        math,
        factor,
        groups[group_index(groups, name, 0) as int],
        named::found(pending, name),
        named::found(states, name),
        vars[i].1,
        named::found(next_states, name),
        r,
    )
}

/// The variable at place `i` has been stepped.
pub open spec fn is_done_at<A: Arith, M: TensorMath<A::Num>>(
    ar: &A,
    math: &M,
    factor: A::Num,
    groups: Seq<ParamGroup<A::Num>>,
    pending: Seq<(Seq<char>, M::T)>,
    states: Seq<(Seq<char>, AdamState<M::T>)>,
    vars: Seq<(Seq<char>, M::T)>,
    next_states: Seq<(Seq<char>, AdamState<M::T>)>,
    next_vars: Seq<(Seq<char>, M::T)>,
    i: int,
) -> bool {
    &&& next_vars[i].0 == vars[i].0
    &&& is_stepped_at(
        ar,
        math,
        factor,
        groups,
        pending,
        states,
        vars,
        next_states,
        i,
        Ok::<M::T, M::E>(next_vars[i].1),
    )
}

/// The variable at place `i` and its moments are as they were.
pub open spec fn is_left_at<T>(
    states: Seq<(Seq<char>, AdamState<T>)>,
    vars: Seq<(Seq<char>, T)>,
    next_states: Seq<(Seq<char>, AdamState<T>)>,
    next_vars: Seq<(Seq<char>, T)>,
    i: int,
) -> bool {
    &&& next_vars[i] == vars[i]
    &&& named::found(next_states, vars[i].0) == named::found(states, vars[i].0)
}

/// The variables before place `at` have been stepped, and those behind it are left.
pub open spec fn are_stepped_about<A: Arith, M: TensorMath<A::Num>>(
    ar: &A,
    math: &M,
    factor: A::Num,
    groups: Seq<ParamGroup<A::Num>>,
    pending: Seq<(Seq<char>, M::T)>,
    states: Seq<(Seq<char>, AdamState<M::T>)>,
    vars: Seq<(Seq<char>, M::T)>,
    next_states: Seq<(Seq<char>, AdamState<M::T>)>,
    next_vars: Seq<(Seq<char>, M::T)>,
    at: int,
) -> bool {
    &&& next_vars.len() == vars.len()
    &&& forall|i: int|
        0 <= i < at ==> #[trigger] is_done_at(
            ar,
            math,
            factor,
            groups,
            pending,
            states,
            vars,
            next_states,
            next_vars,
            i,
        )
    &&& forall|i: int|
        at < i < vars.len() ==> #[trigger] is_left_at(states, vars, next_states, next_vars, i)
    &&& forall|k: Seq<char>|
        named::found(vars, k) is None ==> #[trigger] named::found(next_states, k) == named::found(
            states,
            k,
        )
}

/// A step ended at the variable at place `at`, where an operation failed with `e`.
pub open spec fn is_stopped_at<A: Arith, M: TensorMath<A::Num>>(
    ar: &A,
    math: &M,
    factor: A::Num,
    groups: Seq<ParamGroup<A::Num>>,
    pending: Seq<(Seq<char>, M::T)>,
    states: Seq<(Seq<char>, AdamState<M::T>)>,
    vars: Seq<(Seq<char>, M::T)>,
    next_states: Seq<(Seq<char>, AdamState<M::T>)>,
    next_vars: Seq<(Seq<char>, M::T)>,
    at: int,
    e: M::E,
) -> bool {
    &&& 0 <= at < vars.len()
    &&& are_stepped_about(
        ar,
        math,
        factor,
        groups,
        pending,
        states,
        vars,
        next_states,
        next_vars,
        at,
    )
    &&& next_vars[at] == vars[at]
    &&& is_stepped_at(
        ar,
        math,
        factor,
        groups,
        pending,
        states,
        vars,
        next_states,
        at,
        Err::<M::T, M::E>(e),
    )
}

/// A step ended at some variable, where an operation failed with `e`.
pub open spec fn is_stopped<A: Arith, M: TensorMath<A::Num>>(
    ar: &A,
    math: &M,
    factor: A::Num,
    groups: Seq<ParamGroup<A::Num>>,
    pending: Seq<(Seq<char>, M::T)>,
    states: Seq<(Seq<char>, AdamState<M::T>)>,
    vars: Seq<(Seq<char>, M::T)>,
    next_states: Seq<(Seq<char>, AdamState<M::T>)>,
    next_vars: Seq<(Seq<char>, M::T)>,
    e: M::E,
) -> bool {
    exists|at: int| #[trigger]
        is_stopped_at(
            ar,
            math,
            factor,
            groups,
            pending,
            states,
            vars,
            next_states,
            next_vars,
            at,
            e,
        )
}

/// What a step at this factor leads to: all variables are stepped, or the first operation that
/// failed ended it.
pub open spec fn is_factor_step<A: Arith, M: TensorMath<A::Num>>(
    ar: &A,
    math: &M,
    factor: A::Num,
    groups: Seq<ParamGroup<A::Num>>,
    pending: Seq<(Seq<char>, M::T)>,
    states: Seq<(Seq<char>, AdamState<M::T>)>,
    vars: Seq<(Seq<char>, M::T)>,
    next_states: Seq<(Seq<char>, AdamState<M::T>)>,
    next_vars: Seq<(Seq<char>, M::T)>,
    r: Result<(), M::E>,
) -> bool {
    match r {
        Ok(()) => are_stepped_about(
            ar,
            math,
            factor,
            groups,
            pending,
            states,
            vars,
            next_states,
            next_vars,
            vars.len() as int,
        ),
        Err(e) => is_stopped(
            ar,
            math,
            factor,
            groups,
            pending,
            states,
            vars,
            next_states,
            next_vars,
            e,
        ),
    }
}

/// What a step at these scales leads to.
pub open spec fn is_step<A: Arith, M: TensorMath<A::Num>>(
    ar: &A,
    math: &M,
    loss_scale: A::Num,
    clip_scale: A::Num,
    groups: Seq<ParamGroup<A::Num>>,
    pending: Seq<(Seq<char>, M::T)>,
    states: Seq<(Seq<char>, AdamState<M::T>)>,
    vars: Seq<(Seq<char>, M::T)>,
    next_states: Seq<(Seq<char>, AdamState<M::T>)>,
    next_vars: Seq<(Seq<char>, M::T)>,
    r: Result<(), M::E>,
) -> bool {
    exists|factor: A::Num| #[trigger]
        is_factor(ar, math, loss_scale, clip_scale, factor) && is_factor_step(
            ar,
            math,
            factor,
            groups,
            pending,
            states,
            vars,
            next_states,
            next_vars,
            r,
        )
}

/// What happens to the variable at one place leaves what has been done at the others.
proof fn about_frame<A: Arith, M: TensorMath<A::Num>>(
    ar: &A,
    math: &M,
    factor: A::Num,
    groups: Seq<ParamGroup<A::Num>>,
    pending: Seq<(Seq<char>, M::T)>,
    states: Seq<(Seq<char>, AdamState<M::T>)>,
    vars: Seq<(Seq<char>, M::T)>,
    states1: Seq<(Seq<char>, AdamState<M::T>)>,
    vars1: Seq<(Seq<char>, M::T)>,
    states2: Seq<(Seq<char>, AdamState<M::T>)>,
    vars2: Seq<(Seq<char>, M::T)>,
    at: int,
)
    requires
        named::sorted(vars),
        0 <= at < vars.len(),
        are_stepped_about(
            ar,
            math,
            factor,
            groups,
            pending,
            states,
            vars,
            states1,
            vars1,
            at,
        ),
        vars2.len() == vars1.len(),
        forall|k: int| 0 <= k < vars.len() && k != at ==> #[trigger] vars2[k] == vars1[k],
        forall|q: Seq<char>|
            q != vars[at].0 ==> #[trigger] named::found(states2, q) == named::found(states1, q),
    ensures
        are_stepped_about(
            ar,
            math,
            factor,
            groups,
            pending,
            states,
            vars,
            states2,
            vars2,
            at,
        ),
{
    assert forall|k: int| 0 <= k < vars.len() && k != at implies (#[trigger] vars[k]).0
        != vars[at].0 by {
        named::name_lt_strict_total(vars[at].0, vars[at].0, vars[at].0);
        if k < at {
            assert(named::name_lt(vars[k].0, vars[at].0));
        } else {
            assert(named::name_lt(vars[at].0, vars[k].0));
        }
    }
    assert forall|k: int| 0 <= k < at implies #[trigger] is_done_at(
        ar,
        math,
        factor,
        groups,
        pending,
        states,
        vars,
        states2,
        vars2,
        k,
    ) by {
        assert(vars[k].0 != vars[at].0);
        assert(vars2[k] == vars1[k]);
        assert(is_done_at(
            ar,
            math,
            factor,
            groups,
            pending,
            states,
            vars,
            states1,
            vars1,
            k,
        ));
    }
    assert forall|k: int| at < k < vars.len() implies #[trigger] is_left_at(
        states,
        vars,
        states2,
        vars2,
        k,
    ) by {
        assert(vars[k].0 != vars[at].0);
        assert(vars2[k] == vars1[k]);
        assert(is_left_at(states, vars, states1, vars1, k));
    }
    named::found_at(vars, vars[at].0);
    assert forall|k: Seq<char>| named::found(vars, k) is None implies #[trigger] named::found(
        states2,
        k,
    ) == named::found(states, k) by {
        if k == vars[at].0 {
            assert(vars[at].0 == k);
        }
    }
}

fn factor_of<A: Arith, M: TensorMath<A::Num>>(
    ar: &A,
    math: &M,
    loss: A::Num,
    clip: A::Num,
) -> (r: A::Num)
    ensures
        is_factor(ar, math, loss, clip, r),
{
    let ok = math.invertible(loss);
    assert(call_ensures(M::invertible, (math, loss), ok));
    let one = ar.whole(1);
    assert(arith::is_whole(ar, 1, one));
    let inv = if ok {
        ar.over(one, loss)
    } else {
        one
    };
    assert(is_inverse_loss(ar, math, loss, inv));
    let usable = math.usable_clip(clip);
    assert(call_ensures(M::usable_clip, (math, clip), usable));
    let cl = if usable {
        clip
    } else {
        ar.whole(1)
    };
    assert(is_clip(ar, math, clip, cl));
    ar.times(inv, cl)
}

fn step_param<A: Arith, M: TensorMath<A::Num>>(
    ar: &A,
    math: &M,
    group: &ParamGroup<A::Num>,
    g: &M::T,
    state: Option<AdamState<M::T>>,
    param: &M::T,
) -> (r: (AdamState<M::T>, Result<M::T, M::E>))
    requires
        state matches Some(s) ==> s.step < u64::MAX,
    ensures
        is_scaled_step(ar, math, *group, *g, state, *param, Some(r.0), r.1),
{
    let start = match state {
        Some(s) => s,
        None => AdamState { m: math.zeros_like(param), v: math.zeros_like(param), step: 0 },
    };
    let ghost (m, v, step) = (start.m, start.v, start.step);
    let r = adam_step(ar, math, group, start, g, param);
    assert(is_grad_step(ar, math, *group, *g, state, *param, m, v, step, Some(r.0), r.1));
    r
}

/// Every state can be stepped once more.
pub open spec fn steps_fit<T>(states: Seq<(Seq<char>, AdamState<T>)>) -> bool {
    forall|k: Seq<char>|
        (#[trigger] named::found(states, k)) matches Some(s) ==> s.step < u64::MAX
}

/// Some variable has a pending gradient.
pub open spec fn some_pending<T>(pending: Seq<(Seq<char>, T)>, vars: Seq<(Seq<char>, T)>) -> bool {
    exists|i: int| 0 <= i < vars.len() && named::found(pending, (#[trigger] vars[i]).0) is Some
}

impl<F: Copy, T> MultiGroupOptimizer<F, T> {
    /// Steps every variable that has a pending gradient, in name order. The gradients stay
    /// pending. The first operation that fails ends it, with the state of its variable as far as
    /// the step had come.
    pub fn step<A: Arith<Num = F>, M: TensorMath<F, T = T>>(
        &mut self,
        ar: &A,
        math: &M,
        vars: &mut NameMap<T>,
        clip_scale: F,
        loss_scale: F,
    ) -> (r: Result<(), M::E>)
        requires
            old(self).wf(),
            old(vars).wf(),
            some_pending(old(self).pending@, old(vars)@) ==> old(self).groups@.len() > 0,
            steps_fit(old(self).states@),
        ensures
            final(self).wf(),
            final(vars).wf(),
            final(self).groups == old(self).groups,
            final(self).pending == old(self).pending,
            final(self).current_clip_scale == old(self).current_clip_scale,
            final(self).loss_scale == loss_scale,
            is_step(
                ar,
                math,
                loss_scale,
                clip_scale,
                old(self).groups@,
                old(self).pending@,
                old(self).states@,
                old(vars)@,
                final(self).states@,
                final(vars)@,
                r,
            ),
    {
        self.loss_scale = loss_scale;
        let factor = factor_of(ar, math, loss_scale, clip_scale);
        let ghost vars0 = vars@;
        let ghost states0 = self.states@;
        let n: usize = vars.len();
        let mut i: usize = 0;
        while i < n
            invariant
                i <= n,
                n == vars0.len(),
                vars0 == old(vars)@,
                states0 == old(self).states@,
                named::sorted(vars0),
                self.wf(),
                vars.wf(),
                self.groups == old(self).groups,
                self.pending == old(self).pending,
                self.current_clip_scale == old(self).current_clip_scale,
                self.loss_scale == loss_scale,
                some_pending(self.pending@, vars0) ==> self.groups@.len() > 0,
                steps_fit(states0),
                is_factor(ar, math, loss_scale, clip_scale, factor),
                i < n ==> is_left_at(states0, vars0, self.states@, vars@, i as int),
                are_stepped_about(
                    ar,
                    math,
                    factor,
                    self.groups@,
                    self.pending@,
                    states0,
                    vars0,
                    self.states@,
                    vars@,
                    i as int,
                ),
            decreases n - i,
        {
            let ghost vars1 = vars@;
            let ghost states1 = self.states@;
            let name: String = vars.name_at(i).clone();
            match self.pending.get(name.as_str()) {
                Some(grad) => {
                    assert(named::found(self.pending@, vars0[i as int].0) is Some);
                    let at: usize = self.find_group(name.as_str());
                    let g = scaled(ar, math, grad, factor);
                    match g {
                        Ok(g) => {
                            assert(is_scaled(ar, math, *grad, factor, Ok::<T, M::E>(g)));
                            let state = self.states.remove(name.as_str());
                            let (after, next) = step_param(
                                ar,
                                math,
                                &self.groups[at],
                                &g,
                                state,
                                vars.value_at(i),
                            );
                            let ghost states2 = self.states@;
                            self.states.insert(name, after);
                            proof {
                                named::insert_then_find(states2, name@, after, name@);
                                assert forall|q: Seq<char>| q != name@ implies #[trigger] named::found(
                                    self.states@,
                                    q,
                                ) == named::found(states1, q) by {
                                    named::insert_then_find(states2, name@, after, q);
                                    named::remove_then_find(states1, name@, q);
                                }
                                assert(is_left_at(states0, vars0, states1, vars1, i as int));
                                assert(is_scaled_step(
                                    ar,
                                    math,
                                    self.groups@[at as int],
                                    g,
                                    named::found(states0, name@),
                                    vars0[i as int].1,
                                    named::found(self.states@, name@),
                                    next,
                                ));
                                assert(is_given_step(
                                    ar,
                                    math,
                                    factor,
                                    self.groups@[at as int],
                                    *grad,
                                    named::found(states0, name@),
                                    vars0[i as int].1,
                                    named::found(self.states@, name@),
                                    next,
                                ));
                            }
                            match next {
                                Ok(x) => {
                                    vars.set_value_at(i, x);
                                    proof {
                                        about_frame(
                                            ar,
                                            math,
                                            factor,
                                            self.groups@,
                                            self.pending@,
                                            states0,
                                            vars0,
                                            states1,
                                            vars1,
                                            self.states@,
                                            vars@,
                                            i as int,
                                        );
                                        assert(is_done_at(
                                            ar,
                                            math,
                                            factor,
                                            self.groups@,
                                            self.pending@,
                                            states0,
                                            vars0,
                                            self.states@,
                                            vars@,
                                            i as int,
                                        ));
                                        if i + 1 < n {
                                            assert(is_left_at(
                                                states0,
                                                vars0,
                                                self.states@,
                                                vars@,
                                                i + 1,
                                            ));
                                        }
                                    }
                                },
                                Err(e) => {
                                    proof {
                                        about_frame(
                                            ar,
                                            math,
                                            factor,
                                            self.groups@,
                                            self.pending@,
                                            states0,
                                            vars0,
                                            states1,
                                            vars1,
                                            self.states@,
                                            vars@,
                                            i as int,
                                        );
                                        assert(is_stopped_at(
                                            ar,
                                            math,
                                            factor,
                                            self.groups@,
                                            self.pending@,
                                            states0,
                                            vars0,
                                            self.states@,
                                            vars@,
                                            i as int,
                                            e,
                                        ));
                                    }
                                    return Err(e);
                                },
                            }
                        },
                        Err(e) => {
                            assert(is_stopped_at(
                                ar,
                                math,
                                factor,
                                self.groups@,
                                self.pending@,
                                states0,
                                vars0,
                                self.states@,
                                vars@,
                                i as int,
                                e,
                            ));
                            return Err(e);
                        },
                    }
                },
                None => {
                    assert(is_done_at(
                        ar,
                        math,
                        factor,
                        self.groups@,
                        self.pending@,
                        states0,
                        vars0,
                        self.states@,
                        vars@,
                        i as int,
                    ));
                    if i + 1 < n {
                        assert(is_left_at(states0, vars0, self.states@, vars@, i + 1));
                    }
                },
            }
            i = i + 1;
        }
        Ok(())
    }
}

/// `sums` lists the square sums of the first gradients.
pub open spec fn are_square_sums<F, M: TensorMath<F>>(
    math: &M,
    pending: Seq<(Seq<char>, M::T)>,
    sums: Seq<F>,
) -> bool {
    &&& sums.len() <= pending.len()
    &&& forall|i: int|
        0 <= i < sums.len() ==> call_ensures(
            M::square_sum,
            (math, &(#[trigger] pending[i]).1),
            Ok::<F, M::E>(sums[i]),
        )
}

/// `scale` is `max_norm` over the length of all gradients together, where that is larger, and
/// one where it is not.
pub open spec fn is_norm_scale<A: Arith, M: TensorMath<A::Num>>(
    ar: &A,
    math: &M,
    pending: Seq<(Seq<char>, M::T)>,
    max_norm: A::Num,
    scale: A::Num,
) -> bool {
    exists|sums: Seq<A::Num>, zero: A::Num, total: A::Num, norm: A::Num, over: bool|
        {
            &&& #[trigger] are_square_sums::<A::Num, M>(math, pending, sums)
            &&& sums.len() == pending.len()
            &&& arith::is_whole(ar, 0, zero)
            &&& #[trigger] arith::is_total(ar, zero, sums, total)
            &&& #[trigger] call_ensures(M::length, (math, total), norm)
            &&& #[trigger] arith::is_exceeds(ar, norm, max_norm, over)
            &&& if over {
                arith::is_quotient(ar, max_norm, norm, scale)
            } else {
                arith::is_whole(ar, 1, scale)
            }
        }
}

/// The square sum of one gradient failed with `e`, and those before it did not.
pub open spec fn is_sum_fault<F, M: TensorMath<F>>(
    math: &M,
    pending: Seq<(Seq<char>, M::T)>,
    e: M::E,
) -> bool {
    exists|sums: Seq<F>|
        {
            &&& #[trigger] are_square_sums::<F, M>(math, pending, sums)
            &&& sums.len() < pending.len()
            &&& call_ensures(
                M::square_sum,
                (math, &pending[sums.len() as int].1),
                Err::<F, M::E>(e),
            )
        }
}

/// `r` is the clip factor of the pending gradients: one where there are none or the bound is not
/// positive. It fails only where a square sum does.
pub open spec fn is_clip_result<A: Arith, M: TensorMath<A::Num>>(
    ar: &A,
    math: &M,
    pending: Seq<(Seq<char>, M::T)>,
    max_norm: A::Num,
    r: Result<A::Num, M::E>,
) -> bool {
    exists|off: bool| #[trigger]
        call_ensures(M::nonpositive, (math, max_norm), off) && match r {
            Ok(scale) => if off || pending.len() == 0 {
                arith::is_whole(ar, 1, scale)
            } else {
                is_norm_scale(ar, math, pending, max_norm, scale)
            },
            Err(e) => !off && is_sum_fault::<A::Num, M>(math, pending, e),
        }
}

/// The groups with these learning rates, as far as both lists go.
pub open spec fn rated<F>(groups: Seq<ParamGroup<F>>, lrs: Seq<F>) -> Seq<ParamGroup<F>> {
    Seq::new(
        groups.len(),
        |i: int|
            if i < lrs.len() {
                ParamGroup { lr: lrs[i], ..groups[i] }
            } else {
                groups[i]
            },
    )
}

/// The names that the network group covers.
pub open spec fn network_patterns() -> Seq<Seq<char>> {
    seq![
        "shared_network.*"@,
        "embeddings.token.*"@,
        "embeddings.segment.*"@,
        "embeddings.init_*"@,
        "halt_head.*"@,
        "trm_block.*"@,
        "decoder.*"@,
    ]
}

/// The names that the puzzle group covers.
pub open spec fn puzzle_patterns() -> Seq<Seq<char>> {
    seq!["embeddings.puzzle.*"@]
}

impl<F: Copy, T> MultiGroupOptimizer<F, T> {
    /// The two default groups: the network, which steps by angle, and the puzzle embeddings.
    pub fn trm_default(
        defaults: AdamDefaults<F>,
        base_lr: F,
        puzzle_lr: F,
        weight_decay: F,
        puzzle_wd: F,
        one: F,
    ) -> (r: Self)
        ensures
            r.wf(),
            r.states@.len() == 0,
            r.pending@.len() == 0,
            r.current_clip_scale == one,
            r.loss_scale == one,
            r.groups@.len() == 2,
            ({
                let g = r.groups@[0];
                &&& g.lr == base_lr && g.weight_decay == weight_decay && g.use_atan2
                &&& g.beta1 == defaults.beta1 && g.beta2 == defaults.beta2 && g.eps == defaults.eps
                &&& text::strings(g.name_patterns@) == network_patterns()
            }),
            ({
                let g = r.groups@[1];
                &&& g.lr == puzzle_lr && g.weight_decay == puzzle_wd && !g.use_atan2
                &&& g.beta1 == defaults.beta1 && g.beta2 == defaults.beta2 && g.eps == defaults.eps
                &&& text::strings(g.name_patterns@) == puzzle_patterns()
            }),
    {
        let mut names: Vec<String> = Vec::new();
        names.push("shared_network.*".to_owned());
        names.push("embeddings.token.*".to_owned());
        names.push("embeddings.segment.*".to_owned());
        names.push("embeddings.init_*".to_owned());
        names.push("halt_head.*".to_owned());
        names.push("trm_block.*".to_owned());
        names.push("decoder.*".to_owned());
        assert(text::strings(names@) =~= network_patterns());
        let mut puzzle: Vec<String> = Vec::new();
        puzzle.push("embeddings.puzzle.*".to_owned());
        assert(text::strings(puzzle@) =~= puzzle_patterns());
        let mut groups: Vec<ParamGroup<F>> = Vec::new();
        groups.push(
            ParamGroup {
                lr: base_lr,
                weight_decay,
                beta1: defaults.beta1,
                beta2: defaults.beta2,
                eps: defaults.eps,
                use_atan2: true,
                name_patterns: names,
            },
        );
        groups.push(
            ParamGroup {
                lr: puzzle_lr,
                weight_decay: puzzle_wd,
                beta1: defaults.beta1,
                beta2: defaults.beta2,
                eps: defaults.eps,
                use_atan2: false,
                name_patterns: puzzle,
            },
        );
        Self::new(groups, one)
    }

    /// The factor that brings the pending gradients together down to `max_norm`. It is one
    /// where `max_norm` is not positive or nothing is pending.
    pub fn clip_scale<A: Arith<Num = F>, M: TensorMath<F, T = T>>(
        &mut self,
        ar: &A,
        math: &M,
        max_norm: F,
    ) -> (r: Result<F, M::E>)
        requires
            old(self).wf(),
        ensures
            final(self).wf(),
            final(self).groups == old(self).groups,
            final(self).states == old(self).states,
            final(self).pending == old(self).pending,
            final(self).loss_scale == old(self).loss_scale,
            final(self).current_clip_scale == (match r {
                Ok(scale) => scale,
                Err(_) => old(self).current_clip_scale,
            }),
            is_clip_result(ar, math, old(self).pending@, max_norm, r),
    {
        let off = math.nonpositive(max_norm);
        assert(call_ensures(M::nonpositive, (math, max_norm), off));
        if off || self.pending.len() == 0 {
            let one = ar.whole(1);
            self.current_clip_scale = one;
            return Ok(one);
        }
        let zero = ar.whole(0);
        let mut total = zero;
        let ghost mut sums: Seq<F> = Seq::empty();
        proof {
            arith::empty_total(ar, zero);
        }
        let mut i: usize = 0;
        while i < self.pending.len()
            invariant
                i <= self.pending@.len(),
                *self == *old(self),
                self.wf(),
                !off,
                call_ensures(M::nonpositive, (math, max_norm), off),
                sums.len() == i,
                are_square_sums::<F, M>(math, self.pending@, sums),
                arith::is_total(ar, zero, sums, total),
            decreases self.pending@.len() - i,
        {
            let sq = math.square_sum(self.pending.value_at(i));
            assert(call_ensures(M::square_sum, (math, &self.pending@[i as int].1), sq));
            match sq {
                Ok(x) => {
                    let next = ar.plus(total, x);
                    proof {
                        arith::total_step(ar, zero, sums, total, x, next);
                        sums = sums.push(x);
                    }
                    total = next;
                },
                Err(e) => {
                    return Err(e);
                },
            }
            i = i + 1;
        }
        let norm = math.length(total);
        let over = ar.exceeds(norm, max_norm);
        let scale = if over {
            ar.over(max_norm, norm)
        } else {
            ar.whole(1)
        };
        proof {
            assert(are_square_sums::<F, M>(math, self.pending@, sums));
            assert(call_ensures(M::length, (math, total), norm));
            assert(arith::is_exceeds(ar, norm, max_norm, over));
            assert(is_norm_scale(ar, math, self.pending@, max_norm, scale));
        }
        self.current_clip_scale = scale;
        Ok(scale)
    }

    /// Gives the groups their learning rates, as far as both lists go.
    pub fn set_lrs(&mut self, lrs: &[F])
        ensures
            final(self).states == old(self).states,
            final(self).pending == old(self).pending,
            final(self).current_clip_scale == old(self).current_clip_scale,
            final(self).loss_scale == old(self).loss_scale,
            final(self).groups@ == rated(old(self).groups@, lrs@),
    {
        let ghost start = self.groups@;
        let mut i: usize = 0;
        while i < self.groups.len() && i < lrs.len()
            invariant
                i <= start.len(),
                i <= lrs@.len(),
                self.groups@.len() == start.len(),
                start == old(self).groups@,
                self.states == old(self).states,
                self.pending == old(self).pending,
                self.current_clip_scale == old(self).current_clip_scale,
                self.loss_scale == old(self).loss_scale,
                forall|k: int|
                    0 <= k < i ==> #[trigger] self.groups@[k] == (ParamGroup {
                        lr: lrs@[k],
                        ..start[k]
                    }),
                forall|k: int| i <= k < start.len() ==> #[trigger] self.groups@[k] == start[k],
            decreases start.len() - i,
        {
            assert(self.groups@[i as int] == start[i as int]);
            let lr = lrs[i];
            self.groups[i].lr = lr;
            i = i + 1;
        }
        assert(self.groups@ =~= rated(start, lrs@));
    }
}

/// A puzzle embedding belongs to the second of the default groups, any name that the network
/// patterns cover to the first, and a name that none covers to the first as well.
pub proof fn default_group_of<F>(groups: Seq<ParamGroup<F>>, name: Seq<char>)
    requires
        groups.len() == 2,
        text::strings(groups[0].name_patterns@) == network_patterns(),
        text::strings(groups[1].name_patterns@) == puzzle_patterns(),
    ensures
        group_index(groups, name, 0) == 1 <==> !group_covers(groups[0], name) && matches_name(
            "embeddings.puzzle.*"@,
            name,
        ),
        group_index(groups, name, 0) <= 1,
{
    reveal_with_fuel(group_index, 3);
    let p = groups[1].name_patterns@;
    assert(text::strings(p).len() == 1);
    assert(p[0]@ == text::strings(p)[0]);
    assert(group_covers(groups[1], name) == matches_name("embeddings.puzzle.*"@, name)) by {
        if group_covers(groups[1], name) {
            let i = choose|i: int| 0 <= i < p.len() && matches_name((#[trigger] p[i])@, name);
            assert(i == 0);
        }
    }
}

/// Where a step stands in the schedule.
#[derive(Debug, Clone, Copy, PartialEq, Eq, Structural)]
pub enum Phase {
    /// Warming up: `done` of `of` steps.
    Warmup { done: u64, of: u64 },
    /// Decaying: `done` of `of` steps.
    Decay { done: u64, of: u64 },
    /// Past the end.
    Floor,
}

/// The phase of a step.
pub open spec fn phase_of(warmup: u64, total: u64, step: u64) -> Phase {
    if step < warmup {
        Phase::Warmup { done: step, of: warmup }
    } else if step >= total {
        Phase::Floor
    } else {
        Phase::Decay { done: (step - warmup) as u64, of: (total - warmup) as u64 }
    }
}

/// A phase is never over before it ends: what is done is less than what there is to do.
pub proof fn phase_in_range(warmup: u64, total: u64, step: u64)
    ensures
        phase_of(warmup, total, step) matches Phase::Warmup { done, of } ==> done < of,
        phase_of(warmup, total, step) matches Phase::Decay { done, of } ==> done < of,
{
}

/// `q` is `done / of`.
pub open spec fn is_progress<A: Arith>(ar: &A, done: u64, of: u64, q: A::Num) -> bool {
    exists|d: A::Num, n: A::Num|
        {
            &&& arith::is_whole(ar, done as int, d)
            &&& arith::is_whole(ar, of as int, n)
            &&& #[trigger] arith::is_quotient(ar, d, n, q)
        }
}

/// `r` is half of one plus the cosine, which `cos_pi` gives of the progress.
pub open spec fn is_half_cosine<A: Arith, C>(ar: &A, cos_pi: C, q: A::Num, r: A::Num) -> bool where
    C: Fn(A::Num) -> A::Num,
 {
    exists|c: A::Num, one: A::Num, s: A::Num, two: A::Num|
        {
            &&& #[trigger] call_ensures(cos_pi, (q,), c)
            &&& arith::is_whole(ar, 1, one)
            &&& #[trigger] arith::is_sum(ar, one, c, s)
            &&& arith::is_whole(ar, 2, two)
            &&& #[trigger] arith::is_quotient(ar, s, two, r)
        }
}

/// `r` is `low + (base - low) * share`.
pub open spec fn is_between<A: Arith>(
    ar: &A,
    low: A::Num,
    base: A::Num,
    share: A::Num,
    r: A::Num,
) -> bool {
    exists|span: A::Num, part: A::Num|
        {
            &&& #[trigger] arith::is_difference(ar, base, low, span)
            &&& #[trigger] arith::is_product(ar, span, share, part)
            &&& arith::is_sum(ar, low, part, r)
        }
}

/// `r` is the learning rate for a base rate: it rises linearly while warming up, falls along a
/// half cosine to its floor, and stays there.
pub open spec fn is_rate<A: Arith, C>(
    ar: &A,
    cos_pi: C,
    base: A::Num,
    min_ratio: A::Num,
    phase: Phase,
    r: A::Num,
) -> bool where C: Fn(A::Num) -> A::Num {
    match phase {
        Phase::Warmup { done, of } => exists|q: A::Num| #[trigger]
            is_progress(ar, done, of, q) && arith::is_product(ar, base, q, r),
        Phase::Floor => arith::is_product(ar, base, min_ratio, r),
        Phase::Decay { done, of } => exists|low: A::Num, q: A::Num, share: A::Num|
            {
                &&& arith::is_product(ar, base, min_ratio, low)
                &&& #[trigger] is_progress(ar, done, of, q)
                &&& #[trigger] is_half_cosine(ar, cos_pi, q, share)
                &&& #[trigger] is_between(ar, low, base, share, r)
            },
    }
}

/// Warm-up followed by cosine decay.
#[derive(Debug, Clone)]
pub struct CosineScheduler<F> {
    pub base_lrs: Vec<F>,
    pub warmup_steps: u64,
    pub total_steps: u64,
    pub min_lr_ratio: F,
}

impl<F: Copy> CosineScheduler<F> {
    /// A schedule over these base rates.
    pub fn new(base_lrs: Vec<F>, warmup_steps: u64, total_steps: u64, min_lr_ratio: F) -> (r: Self)
        ensures
            r == (CosineScheduler { base_lrs, warmup_steps, total_steps, min_lr_ratio }),
    {
        CosineScheduler { base_lrs, warmup_steps, total_steps, min_lr_ratio }
    }

    /// `lrs` are the learning rates of a step, one for each base rate.
    pub open spec fn are_rates<A: Arith<Num = F>, C: Fn(F) -> F>(
        &self,
        ar: &A,
        cos_pi: C,
        step: u64,
        lrs: Seq<F>,
    ) -> bool {
        &&& lrs.len() == self.base_lrs@.len()
        &&& forall|i: int|
            0 <= i < lrs.len() ==> is_rate(
                ar,
                cos_pi,
                self.base_lrs@[i],
                self.min_lr_ratio,
                phase_of(self.warmup_steps, self.total_steps, step),
                #[trigger] lrs[i],
            )
    }

    /// The phase of a step.
    pub fn phase(&self, step: u64) -> (r: Phase)
        ensures
            r == phase_of(self.warmup_steps, self.total_steps, step),
    {
        if step < self.warmup_steps {
            Phase::Warmup { done: step, of: self.warmup_steps }
        } else if step >= self.total_steps {
            Phase::Floor
        } else {
            Phase::Decay {
                done: step - self.warmup_steps,
                of: self.total_steps - self.warmup_steps,
            }
        }
    }

    /// The learning rates of a step, one for each base rate. `cos_pi` gives the cosine of so
    /// many half turns.
    pub fn get_lrs<A: Arith<Num = F>, C: Fn(F) -> F>(&self, ar: &A, cos_pi: &C, step: u64) -> (r:
        Vec<F>)
        requires
            forall|x: F| call_requires(*cos_pi, (x,)),
        ensures
            self.are_rates(ar, *cos_pi, step, r@),
    {
        let phase = self.phase(step);
        let mut out: Vec<F> = Vec::new();
        let mut i: usize = 0;
        while i < self.base_lrs.len()
            invariant
                i <= self.base_lrs@.len(),
                out@.len() == i,
                forall|x: F| call_requires(*cos_pi, (x,)),
                forall|k: int|
                    0 <= k < i ==> is_rate(
                        ar,
                        *cos_pi,
                        self.base_lrs@[k],
                        self.min_lr_ratio,
                        phase,
                        #[trigger] out@[k],
                    ),
            decreases self.base_lrs@.len() - i,
        {
            let base = self.base_lrs[i];
            let r = match phase {
                Phase::Warmup { done, of } => {
                    let q = progress_of(ar, done, of);
                    ar.times(base, q)
                },
                Phase::Floor => ar.times(base, self.min_lr_ratio),
                Phase::Decay { done, of } => {
                    let low = ar.times(base, self.min_lr_ratio);
                    let q = progress_of(ar, done, of);
                    let c = cos_pi(q);
                    let one = ar.whole(1);
                    let s = ar.plus(one, c);
                    let two = ar.whole(2);
                    let share = ar.over(s, two);
                    let span = ar.minus(base, low);
                    let part = ar.times(span, share);
                    let rate = ar.plus(low, part);
                    proof {
                        assert(call_ensures(*cos_pi, (q,), c));
                        assert(arith::is_sum(ar, one, c, s));
                        assert(arith::is_quotient(ar, s, two, share));
                        assert(is_half_cosine(ar, *cos_pi, q, share));
                        assert(arith::is_difference(ar, base, low, span));
                        assert(arith::is_product(ar, span, share, part));
                        assert(is_between(ar, low, base, share, rate));
                    }
                    rate
                },
            };
            assert(is_rate(ar, *cos_pi, base, self.min_lr_ratio, phase, r));
            out.push(r);
            i = i + 1;
        }
        out
    }
}

fn progress_of<A: Arith>(ar: &A, done: u64, of: u64) -> (r: A::Num)
    ensures
        is_progress(ar, done, of, r),
{
    let d = ar.whole(done as i128);
    let n = ar.whole(of as i128);
    let q = ar.over(d, n);
    assert(arith::is_quotient(ar, d, n, q));
    q
}

/// What the clipped part of a scheduled step leads to: the gradients are dropped where it went
/// through, and stay pending where it did not.
pub open spec fn is_clipped_step<A: Arith, M: TensorMath<A::Num>>(
    ar: &A,
    math: &M,
    clip: A::Num,
    before: MultiGroupOptimizer<A::Num, M::T>,
    vars: Seq<(Seq<char>, M::T)>,
    after: MultiGroupOptimizer<A::Num, M::T>,
    next_vars: Seq<(Seq<char>, M::T)>,
    r: Result<(), M::E>,
) -> bool {
    &&& after.current_clip_scale == clip
    &&& arith::is_whole(ar, 1, after.loss_scale)
    &&& match r {
        Ok(()) => after.pending@.len() == 0,
        Err(_) => after.pending == before.pending,
    }
    &&& is_step(
        ar,
        math,
        after.loss_scale,
        clip,
        after.groups@,
        before.pending@,
        before.states@,
        vars,
        after.states@,
        next_vars,
        r,
    )
}

/// The optimizer and the variables after a scheduled step, beside the rates of the groups. Where
/// the clip factor cannot be taken, nothing else changes.
pub open spec fn is_scheduled_step<A: Arith, M: TensorMath<A::Num>>(
    ar: &A,
    math: &M,
    max_norm: A::Num,
    before: MultiGroupOptimizer<A::Num, M::T>,
    vars: Seq<(Seq<char>, M::T)>,
    after: MultiGroupOptimizer<A::Num, M::T>,
    next_vars: Seq<(Seq<char>, M::T)>,
    r: Result<(), M::E>,
) -> bool {
    exists|clip: Result<A::Num, M::E>| #[trigger]
        is_clip_result(ar, math, before.pending@, max_norm, clip) && match clip {
            Ok(clip) => is_clipped_step(ar, math, clip, before, vars, after, next_vars, r),
            Err(e) => {
                &&& r == Err::<(), M::E>(e)
                &&& after.states == before.states
                &&& after.pending == before.pending
                &&& after.current_clip_scale == before.current_clip_scale
                &&& after.loss_scale == before.loss_scale
                &&& next_vars == vars
            },
        }
}

impl<F: Copy, T> MultiGroupOptimizer<F, T> {
    /// An optimizer step of a run: the groups get the rates of the schedule, the pending
    /// gradients are clipped, the variables are stepped, and the gradients are dropped. Where it
    /// fails, they stay pending.
    pub fn scheduled_step<A: Arith<Num = F>, M: TensorMath<F, T = T>, C: Fn(F) -> F>(
        &mut self,
        ar: &A,
        math: &M,
        cos_pi: &C,
        scheduler: &CosineScheduler<F>,
        vars: &mut NameMap<T>,
        step: u64,
        max_norm: F,
    ) -> (r: Result<(), M::E>)
        requires
            old(self).wf(),
            old(vars).wf(),
            some_pending(old(self).pending@, old(vars)@) ==> old(self).groups@.len() > 0,
            steps_fit(old(self).states@),
            forall|x: F| call_requires(*cos_pi, (x,)),
        ensures
            final(self).wf(),
            final(vars).wf(),
            exists|lrs: Seq<F>|
                final(self).groups@ == rated(old(self).groups@, lrs)
                    && #[trigger] scheduler.are_rates(ar, *cos_pi, step, lrs),
            is_scheduled_step(
                ar,
                math,
                max_norm,
                *old(self),
                old(vars)@,
                *final(self),
                final(vars)@,
                r,
            ),
    {
        let lrs = scheduler.get_lrs(ar, cos_pi, step);
        self.set_lrs(lrs.as_slice());
        assert(scheduler.are_rates(ar, *cos_pi, step, lrs@));
        let clip = self.clip_scale(ar, math, max_norm);
        assert(is_clip_result(ar, math, old(self).pending@, max_norm, clip));
        match clip {
            Ok(clip) => {
                let one = ar.whole(1);
                let r = self.step(ar, math, vars, clip, one);
                if r.is_ok() {
                    self.zero_grad();
                }
                assert(is_clipped_step(ar, math, clip, *old(self), old(vars)@, *self, vars@, r));
                r
            },
            Err(e) => Err(e),
        }
    }
}

/// No tensor operation fails.
pub open spec fn never_fails<F, M: TensorMath<F>>(math: &M) -> bool {
    &&& forall|t: &M::T, mul: F, shift: F, r: Result<M::T, M::E>| #[trigger]
        call_ensures(M::affine, (math, t, mul, shift), r) ==> r is Ok
    &&& forall|a: &M::T, b: &M::T, r: Result<M::T, M::E>| #[trigger]
        call_ensures(M::plus, (math, a, b), r) ==> r is Ok
    &&& forall|a: &M::T, b: &M::T, r: Result<M::T, M::E>| #[trigger]
        call_ensures(M::minus, (math, a, b), r) ==> r is Ok
    &&& forall|a: &M::T, b: &M::T, r: Result<M::T, M::E>| #[trigger]
        call_ensures(M::over, (math, a, b), r) ==> r is Ok
    &&& forall|a: &M::T, b: &M::T, r: Result<M::T, M::E>| #[trigger]
        call_ensures(M::atan2, (math, a, b), r) ==> r is Ok
    &&& forall|a: &M::T, r: Result<M::T, M::E>| #[trigger]
        call_ensures(M::square, (math, a), r) ==> r is Ok
    &&& forall|a: &M::T, r: Result<M::T, M::E>| #[trigger]
        call_ensures(M::root, (math, a), r) ==> r is Ok
    &&& forall|a: &M::T, r: Result<M::T, M::E>| #[trigger]
        call_ensures(M::copy, (math, a), r) ==> r is Ok
    &&& forall|a: &M::T, r: Result<F, M::E>| #[trigger]
        call_ensures(M::square_sum, (math, a), r) ==> r is Ok
}

proof fn moments_succeed<A: Arith, M: TensorMath<A::Num>>(
    ar: &A,
    math: &M,
    group: ParamGroup<A::Num>,
    before: AdamState<M::T>,
    g: M::T,
    r: Result<(M::T, M::T), M::E>,
)
    requires
        never_fails::<A::Num, M>(math),
        are_moments(ar, math, group, before, g, r),
    ensures
        r is Ok,
{
}

proof fn value_succeeds<A: Arith, M: TensorMath<A::Num>>(
    ar: &A,
    math: &M,
    group: ParamGroup<A::Num>,
    s: AdamState<M::T>,
    param: M::T,
    r: Result<M::T, M::E>,
)
    requires
        never_fails::<A::Num, M>(math),
        is_adam_value(ar, math, group, s, param, r),
    ensures
        r is Ok,
{
}

/// A step succeeds where no tensor operation fails: every variable with a pending gradient is
/// stepped, and every other one is left as it is.
pub proof fn step_succeeds<A: Arith, M: TensorMath<A::Num>>(
    ar: &A,
    math: &M,
    loss_scale: A::Num,
    clip_scale: A::Num,
    groups: Seq<ParamGroup<A::Num>>,
    pending: Seq<(Seq<char>, M::T)>,
    states: Seq<(Seq<char>, AdamState<M::T>)>,
    vars: Seq<(Seq<char>, M::T)>,
    next_states: Seq<(Seq<char>, AdamState<M::T>)>,
    next_vars: Seq<(Seq<char>, M::T)>,
    r: Result<(), M::E>,
)
    requires
        never_fails::<A::Num, M>(math),
        is_step(
            ar,
            math,
            loss_scale,
            clip_scale,
            groups,
            pending,
            states,
            vars,
            next_states,
            next_vars,
            r,
        ),
    ensures
        r is Ok,
        forall|i: int|
            0 <= i < vars.len() && named::found(pending, vars[i].0) is None
                ==> #[trigger] next_vars[i] == vars[i],
{
    let factor = choose|factor: A::Num| #[trigger]
        is_factor(ar, math, loss_scale, clip_scale, factor) && is_factor_step(
            ar,
            math,
            factor,
            groups,
            pending,
            states,
            vars,
            next_states,
            next_vars,
            r,
        );
    if let Err(e) = r {
        let at = choose|at: int| #[trigger]
            is_stopped_at(
                ar,
                math,
                factor,
                groups,
                pending,
                states,
                vars,
                next_states,
                next_vars,
                at,
                e,
            );
        let name = vars[at].0;
        let group = groups[group_index(groups, name, 0) as int];
        let after = named::found(next_states, name)->Some_0;
        let failure = Err::<M::T, M::E>(e);
        let grad = named::found(pending, name)->Some_0;
        let g = choose|g: Result<M::T, M::E>| #[trigger]
            is_scaled(ar, math, grad, factor, g) && match g {
                Ok(g) => is_scaled_step(
                    ar,
                    math,
                    group,
                    g,
                    named::found(states, name),
                    vars[at].1,
                    named::found(next_states, name),
                    failure,
                ),
                Err(e) => named::found(next_states, name) == named::found(states, name) && failure
                    == Err::<M::T, M::E>(e),
            };
        assert(g is Ok);
        let (m, v, step) = choose|m: M::T, v: M::T, step: u64| #[trigger]
            is_grad_step(
                ar,
                math,
                group,
                g->Ok_0,
                named::found(states, name),
                vars[at].1,
                m,
                v,
                step,
                named::found(next_states, name),
                failure,
            );
        let start = AdamState { m, v, step };
        let means = choose|means: Result<(M::T, M::T), M::E>|
            {
                &&& #[trigger] are_moments(ar, math, group, start, g->Ok_0, means)
                &&& after.step == start.step + 1
                &&& match means {
                    Ok((m, v)) => after.m == m && after.v == v && is_adam_value(
                        ar,
                        math,
                        group,
                        after,
                        vars[at].1,
                        failure,
                    ),
                    Err(e) => after.m == start.m && after.v == start.v && failure == Err::<
                        M::T,
                        M::E,
                    >(e),
                }
            };
        moments_succeed(ar, math, group, start, g->Ok_0, means);
        value_succeeds(ar, math, group, after, vars[at].1, failure);
    } else {
        assert forall|i: int|
            0 <= i < vars.len() && named::found(pending, vars[i].0) is None implies
            #[trigger] next_vars[i] == vars[i] by {
            assert(is_done_at(
                ar,
                math,
                factor,
                groups,
                pending,
                states,
                vars,
                next_states,
                next_vars,
                i,
            ));
        }
    }
}

/// A clip factor comes back where no sum of squares fails, and it is one where clipping is off.
pub proof fn clip_succeeds<A: Arith, M: TensorMath<A::Num>>(
    ar: &A,
    math: &M,
    pending: Seq<(Seq<char>, M::T)>,
    max_norm: A::Num,
    r: Result<A::Num, M::E>,
)
    requires
        is_clip_result(ar, math, pending, max_norm, r),
    ensures
        never_fails::<A::Num, M>(math) ==> r is Ok,
        r is Err ==> call_ensures(M::nonpositive, (math, max_norm), false) && pending.len() > 0,
        (forall|off: bool| #[trigger]
            call_ensures(M::nonpositive, (math, max_norm), off) ==> off) ==> (r matches Ok(scale)
            && arith::is_whole(ar, 1, scale)),
{
}

} // verus!
