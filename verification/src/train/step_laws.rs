//! What an optimizer step comes to, where arithmetic does not round and the tensor operations
//! mean what they are named for.

use crate::arith;
use crate::arith::Arith;
use crate::exact;
use crate::named;
use crate::train::optimizer;
use crate::train::optimizer::{AdamState, MultiGroupOptimizer, ParamGroup, TensorMath};
use vstd::prelude::*;

verus! {

/// What tensors hold, and the functions that are not made of sums and products.
#[verifier::reject_recursive_types(T)]
pub struct Cells<T> {
    /// The elements of a tensor.
    pub of: spec_fn(T) -> Seq<real>,
    /// How many dimensions a tensor has.
    pub rank: spec_fn(T) -> nat,
    /// The square root.
    pub root: spec_fn(real) -> real,
    /// The angle of a point, given its height first.
    pub angle: spec_fn(real, real) -> real,
    /// A number to a whole power.
    pub power: spec_fn(real, int) -> real,
    /// A number, kept off zero.
    pub off_zero: spec_fn(real) -> real,
    /// Whether a number is large enough to divide by.
    pub invertible: spec_fn(real) -> bool,
}

/// A tensor holds, element by element, what `f` makes of another one.
pub open spec fn is_mapped(a: Seq<real>, f: spec_fn(real) -> real, r: Seq<real>) -> bool {
    &&& r.len() == a.len()
    &&& forall|i: int| 0 <= i < a.len() ==> #[trigger] r[i] == f(a[i])
}

/// A tensor holds, element by element, what `f` makes of two others of its size.
pub open spec fn is_paired(
    a: Seq<real>,
    b: Seq<real>,
    f: spec_fn(real, real) -> real,
    r: Seq<real>,
) -> bool {
    &&& a.len() == b.len()
    &&& r.len() == a.len()
    &&& forall|i: int| 0 <= i < a.len() ==> #[trigger] r[i] == f(a[i], b[i])
}

/// The sum of the squares of a list.
pub open spec fn square_sum(s: Seq<real>) -> real
    decreases s.len(),
{
    if s.len() == 0 {
        0real
    } else {
        square_sum(s.drop_last()) + s.last() * s.last()
    }
}

/// The tensor operations mean what they are named for.
pub open spec fn are_real_tensors<F, M: TensorMath<F>>(
    math: &M,
    of: spec_fn(F) -> real,
    c: Cells<M::T>,
) -> bool {
    &&& forall|t: &M::T, r: M::T| #[trigger]
        call_ensures(M::zeros_like, (math, t), r) ==> is_mapped(
            (c.of)(*t),
            |x: real| 0real,
            (c.of)(r),
        )
    &&& forall|t: &M::T, r: usize| #[trigger]
        call_ensures(M::rank, (math, t), r) ==> r == (c.rank)(*t)
    &&& forall|t: &M::T, mul: F, shift: F, r: M::T| #[trigger]
        call_ensures(M::affine, (math, t, mul, shift), Ok::<M::T, M::E>(r)) ==> is_mapped(
            (c.of)(*t),
            |x: real| x * of(mul) + of(shift),
            (c.of)(r),
        )
    &&& forall|a: &M::T, b: &M::T, r: M::T| #[trigger]
        call_ensures(M::plus, (math, a, b), Ok::<M::T, M::E>(r)) ==> is_paired(
            (c.of)(*a),
            (c.of)(*b),
            |x: real, y: real| x + y,
            (c.of)(r),
        )
    &&& forall|a: &M::T, b: &M::T, r: M::T| #[trigger]
        call_ensures(M::minus, (math, a, b), Ok::<M::T, M::E>(r)) ==> is_paired(
            (c.of)(*a),
            (c.of)(*b),
            |x: real, y: real| x - y,
            (c.of)(r),
        )
    &&& forall|a: &M::T, b: &M::T, r: M::T| #[trigger]
        call_ensures(M::over, (math, a, b), Ok::<M::T, M::E>(r)) ==> is_paired(
            (c.of)(*a),
            (c.of)(*b),
            |x: real, y: real| x / y,
            (c.of)(r),
        )
    &&& forall|a: &M::T, b: &M::T, r: M::T| #[trigger]
        call_ensures(M::atan2, (math, a, b), Ok::<M::T, M::E>(r)) ==> is_paired(
            (c.of)(*a),
            (c.of)(*b),
            c.angle,
            (c.of)(r),
        )
    &&& forall|a: &M::T, r: M::T| #[trigger]
        call_ensures(M::square, (math, a), Ok::<M::T, M::E>(r)) ==> is_mapped(
            (c.of)(*a),
            |x: real| x * x,
            (c.of)(r),
        )
    &&& forall|a: &M::T, r: M::T| #[trigger]
        call_ensures(M::root, (math, a), Ok::<M::T, M::E>(r)) ==> is_mapped(
            (c.of)(*a),
            c.root,
            (c.of)(r),
        )
    &&& forall|a: &M::T, r: M::T| #[trigger]
        call_ensures(M::copy, (math, a), Ok::<M::T, M::E>(r)) ==> (c.of)(r) == (c.of)(*a)
    &&& forall|a: &M::T, r: F| #[trigger]
        call_ensures(M::square_sum, (math, a), Ok::<F, M::E>(r)) ==> of(r) == square_sum(
            (c.of)(*a),
        )
    &&& forall|base: F, t: i32, r: F| #[trigger]
        call_ensures(M::power, (math, base, t), r) ==> of(r) == (c.power)(of(base), t as int)
    &&& forall|x: F, r: F| #[trigger]
        call_ensures(M::off_zero, (math, x), r) ==> of(r) == (c.off_zero)(of(x)) && of(r) != 0real
    &&& forall|x: F, r: bool| #[trigger]
        call_ensures(M::usable_clip, (math, x), r) ==> r == (of(x) > 0real)
    &&& forall|x: F, r: bool| #[trigger]
        call_ensures(M::invertible, (math, x), r) ==> r == (c.invertible)(of(x)) && (r ==> of(x)
            != 0real)
    &&& forall|x: F, r: bool| #[trigger]
        call_ensures(M::nonpositive, (math, x), r) ==> r == (of(x) <= 0real)
    &&& forall|x: F, r: F| #[trigger]
        call_ensures(M::length, (math, x), r) ==> of(r) == (c.root)(
            if of(x) < 0real {
                0real
            } else {
                of(x)
            },
        )
}

proof fn scaled_cell<A: Arith, M: TensorMath<A::Num>>(
    ar: &A,
    math: &M,
    of: spec_fn(A::Num) -> real,
    c: Cells<M::T>,
    t: M::T,
    mul: A::Num,
    r: M::T,
)
    requires
        exact::is_real(ar, of),
        are_real_tensors::<A::Num, M>(math, of, c),
        optimizer::is_scaled(ar, math, t, mul, Ok::<M::T, M::E>(r)),
    ensures
        (c.of)(r).len() == (c.of)(t).len(),
        forall|j: int| 0 <= j < (c.of)(t).len() ==> #[trigger] (c.of)(r)[j] == (c.of)(t)[j] * of(mul),
{
    let zero = choose|zero: A::Num|
        arith::is_whole(ar, 0, zero) && #[trigger] call_ensures(
            M::affine,
            (math, &t, mul, zero),
            Ok::<M::T, M::E>(r),
        );
    assert(of(zero) == 0real);
}

proof fn rest_value<A: Arith>(ar: &A, of: spec_fn(A::Num) -> real, x: A::Num, r: A::Num)
    requires
        exact::is_real(ar, of),
        optimizer::is_rest(ar, x, r),
    ensures
        of(r) == 1real - of(x),
{
    let one = choose|one: A::Num|
        arith::is_whole(ar, 1, one) && #[trigger] arith::is_difference(ar, one, x, r);
    assert(of(one) == 1real);
}

proof fn rest_added_cell<A: Arith, M: TensorMath<A::Num>>(
    ar: &A,
    math: &M,
    of: spec_fn(A::Num) -> real,
    c: Cells<M::T>,
    kept: M::T,
    beta: A::Num,
    x: M::T,
    r: M::T,
)
    requires
        exact::is_real(ar, of),
        are_real_tensors::<A::Num, M>(math, of, c),
        optimizer::is_rest_added(ar, math, kept, beta, x, Ok::<M::T, M::E>(r)),
    ensures
        (c.of)(r).len() == (c.of)(kept).len(),
        (c.of)(r).len() == (c.of)(x).len(),
        forall|j: int|
            0 <= j < (c.of)(r).len() ==> #[trigger] (c.of)(r)[j] == (c.of)(kept)[j] + (c.of)(x)[j]
                * (1real - of(beta)),
{
    let rest = choose|rest: A::Num| #[trigger]
        optimizer::is_rest(ar, beta, rest) && optimizer::is_share_added(
            ar,
            math,
            kept,
            rest,
            x,
            Ok::<M::T, M::E>(r),
        );
    rest_value(ar, of, beta, rest);
    let added = choose|added: Result<M::T, M::E>| #[trigger]
        optimizer::is_scaled(ar, math, x, rest, added) && match added {
            Ok(added) => call_ensures(M::plus, (math, &kept, &added), Ok::<M::T, M::E>(r)),
            Err(e) => Ok::<M::T, M::E>(r) == Err::<M::T, M::E>(e),
        };
    scaled_cell(ar, math, of, c, x, rest, added->Ok_0);
}

proof fn moments_cells<A: Arith, M: TensorMath<A::Num>>(
    ar: &A,
    math: &M,
    of: spec_fn(A::Num) -> real,
    c: Cells<M::T>,
    group: ParamGroup<A::Num>,
    before: AdamState<M::T>,
    g: M::T,
    m: M::T,
    v: M::T,
)
    requires
        exact::is_real(ar, of),
        are_real_tensors::<A::Num, M>(math, of, c),
        optimizer::are_moments(ar, math, group, before, g, Ok::<(M::T, M::T), M::E>((m, v))),
    ensures
        (c.of)(m).len() == (c.of)(g).len(),
        (c.of)(m).len() == (c.of)(before.m).len(),
        (c.of)(v).len() == (c.of)(g).len(),
        (c.of)(v).len() == (c.of)(before.v).len(),
        forall|j: int|
            0 <= j < (c.of)(g).len() ==> #[trigger] (c.of)(m)[j] == (c.of)(before.m)[j] * of(
                group.beta1,
            ) + (c.of)(g)[j] * (1real - of(group.beta1)),
        forall|j: int|
            0 <= j < (c.of)(g).len() ==> #[trigger] (c.of)(v)[j] == (c.of)(before.v)[j] * of(
                group.beta2,
            ) + ((c.of)(g)[j] * (c.of)(g)[j]) * (1real - of(group.beta2)),
{
    let means = Ok::<(M::T, M::T), M::E>((m, v));
    let mm = choose|x: Result<M::T, M::E>| #[trigger]
        optimizer::is_mean(ar, math, before.m, group.beta1, g, x) && match x {
            Ok(x) => optimizer::is_with_square(ar, math, group, before, g, x, means),
            Err(e) => means == Err::<(M::T, M::T), M::E>(e),
        };
    let m1 = mm->Ok_0;
    let vv = choose|x: Result<M::T, M::E>| #[trigger]
        optimizer::is_square_mean(ar, math, before.v, group.beta2, g, x) && match x {
            Ok(x) => means == Ok::<(M::T, M::T), M::E>((m1, x)),
            Err(e) => means == Err::<(M::T, M::T), M::E>(e),
        };
    assert(m1 == m && vv == Ok::<M::T, M::E>(v));
    let okm = Ok::<M::T, M::E>(m);
    let okv = Ok::<M::T, M::E>(v);
    let kept = choose|kept: Result<M::T, M::E>| #[trigger]
        optimizer::is_scaled(ar, math, before.m, group.beta1, kept) && match kept {
            Ok(kept) => optimizer::is_rest_added(ar, math, kept, group.beta1, g, okm),
            Err(e) => okm == Err::<M::T, M::E>(e),
        };
    scaled_cell(ar, math, of, c, before.m, group.beta1, kept->Ok_0);
    rest_added_cell(ar, math, of, c, kept->Ok_0, group.beta1, g, m);
    let kept2 = choose|kept: Result<M::T, M::E>| #[trigger]
        optimizer::is_scaled(ar, math, before.v, group.beta2, kept) && match kept {
            Ok(kept) => optimizer::is_square_added(ar, math, kept, group.beta2, g, okv),
            Err(e) => okv == Err::<M::T, M::E>(e),
        };
    scaled_cell(ar, math, of, c, before.v, group.beta2, kept2->Ok_0);
    let g2 = choose|g2: Result<M::T, M::E>| #[trigger]
        call_ensures(M::square, (math, &g), g2) && match g2 {
            Ok(g2) => optimizer::is_rest_added(ar, math, kept2->Ok_0, group.beta2, g2, okv),
            Err(e) => okv == Err::<M::T, M::E>(e),
        };
    rest_added_cell(ar, math, of, c, kept2->Ok_0, group.beta2, g2->Ok_0, v);
}

proof fn corrected_cell<A: Arith, M: TensorMath<A::Num>>(
    ar: &A,
    math: &M,
    of: spec_fn(A::Num) -> real,
    c: Cells<M::T>,
    m: M::T,
    beta: A::Num,
    t: i32,
    r: M::T,
)
    requires
        exact::is_real(ar, of),
        are_real_tensors::<A::Num, M>(math, of, c),
        optimizer::is_corrected(ar, math, m, beta, t, Ok::<M::T, M::E>(r)),
    ensures
        (c.of)(r).len() == (c.of)(m).len(),
        forall|j: int|
            0 <= j < (c.of)(m).len() ==> #[trigger] (c.of)(r)[j] == (c.of)(m)[j] / (c.off_zero)(
                1real - (c.power)(of(beta), t as int),
            ),
{
    let inv = choose|inv: A::Num| #[trigger]
        optimizer::is_correction::<A, M>(ar, math, beta, t, inv) && optimizer::is_scaled(
            ar,
            math,
            m,
            inv,
            Ok::<M::T, M::E>(r),
        );
    scaled_cell(ar, math, of, c, m, inv, r);
    let (power, rest, off, one) = choose|power: A::Num, rest: A::Num, off: A::Num, one: A::Num|
        {
            &&& #[trigger] call_ensures(M::power, (math, beta, t), power)
            &&& #[trigger] optimizer::is_rest(ar, power, rest)
            &&& #[trigger] call_ensures(M::off_zero, (math, rest), off)
            &&& arith::is_whole(ar, 1, one)
            &&& #[trigger] arith::is_quotient(ar, one, off, inv)
        };
    rest_value(ar, of, power, rest);
    assert(of(one) == 1real);
    let d = of(off);
    assert forall|j: int| 0 <= j < (c.of)(m).len() implies #[trigger] (c.of)(r)[j] == (c.of)(m)[j]
        / d by {
        let (x, k) = ((c.of)(m)[j], of(inv));
        assert(x * k == x / d) by (nonlinear_arith)
            requires
                k == 1real / d,
                d != 0real,
        ;
    }
}

proof fn direction_cell<A: Arith, M: TensorMath<A::Num>>(
    ar: &A,
    math: &M,
    of: spec_fn(A::Num) -> real,
    c: Cells<M::T>,
    group: ParamGroup<A::Num>,
    m_hat: M::T,
    v_hat: M::T,
    r: M::T,
)
    requires
        exact::is_real(ar, of),
        are_real_tensors::<A::Num, M>(math, of, c),
        optimizer::is_direction(ar, math, group, m_hat, v_hat, Ok::<M::T, M::E>(r)),
    ensures
        (c.of)(r).len() == (c.of)(m_hat).len(),
        (c.of)(r).len() == (c.of)(v_hat).len(),
        forall|j: int|
            0 <= j < (c.of)(r).len() ==> #[trigger] (c.of)(r)[j] == if group.use_atan2 {
                (c.angle)((c.of)(m_hat)[j], (c.root)((c.of)(v_hat)[j]))
            } else {
                (c.of)(m_hat)[j] / ((c.root)((c.of)(v_hat)[j]) + of(group.eps))
            },
{
    let ok = Ok::<M::T, M::E>(r);
    let root = choose|root: Result<M::T, M::E>| #[trigger]
        call_ensures(M::root, (math, &v_hat), root) && match root {
            Ok(root) => if group.use_atan2 {
                call_ensures(M::atan2, (math, &m_hat, &root), ok)
            } else {
                optimizer::is_padded_quotient(ar, math, group.eps, m_hat, root, ok)
            },
            Err(e) => ok == Err::<M::T, M::E>(e),
        };
    if !group.use_atan2 {
        let (one, padded) = choose|one: A::Num, padded: Result<M::T, M::E>|
            {
                &&& arith::is_whole(ar, 1, one)
                &&& #[trigger] call_ensures(M::affine, (math, &root->Ok_0, one, group.eps), padded)
                &&& match padded {
                    Ok(padded) => call_ensures(M::over, (math, &m_hat, &padded), ok),
                    Err(e) => ok == Err::<M::T, M::E>(e),
                }
            };
        assert(of(one) == 1real);
        assert forall|j: int| 0 <= j < (c.of)(v_hat).len() implies #[trigger] (c.of)(
            padded->Ok_0,
        )[j] == (c.root)((c.of)(v_hat)[j]) + of(group.eps) by {
            assert((c.of)(root->Ok_0)[j] == (c.root)((c.of)(v_hat)[j]));
            let x = (c.of)(root->Ok_0)[j];
            assert(x * 1real == x) by (nonlinear_arith);
        }
    }
}

proof fn move_cell<A: Arith, M: TensorMath<A::Num>>(
    ar: &A,
    math: &M,
    of: spec_fn(A::Num) -> real,
    c: Cells<M::T>,
    group: ParamGroup<A::Num>,
    param: M::T,
    direction: M::T,
    r: M::T,
)
    requires
        exact::is_real(ar, of),
        are_real_tensors::<A::Num, M>(math, of, c),
        optimizer::is_decayed_move(ar, math, group, param, direction, Ok::<M::T, M::E>(r)),
    ensures
        (c.of)(r).len() == (c.of)(param).len(),
        (c.of)(r).len() == (c.of)(direction).len(),
        forall|j: int|
            0 <= j < (c.of)(r).len() ==> #[trigger] (c.of)(r)[j] == (if (c.rank)(param) > 1 {
                (c.of)(param)[j] * (1real - of(group.lr) * of(group.weight_decay))
            } else {
                (c.of)(param)[j]
            }) - (c.of)(direction)[j] * of(group.lr),
{
    let ok = Ok::<M::T, M::E>(r);
    let (rank, decayed) = choose|rank: usize, decayed: Result<M::T, M::E>|
        {
            &&& call_ensures(M::rank, (math, &param), rank)
            &&& #[trigger] optimizer::is_decayed(ar, math, group, rank, param, decayed)
            &&& match decayed {
                Ok(decayed) => optimizer::is_moved(ar, math, group.lr, decayed, direction, ok),
                Err(e) => ok == Err::<M::T, M::E>(e),
            }
        };
    let x = decayed->Ok_0;
    let step = choose|step: Result<M::T, M::E>| #[trigger]
        optimizer::is_scaled(ar, math, direction, group.lr, step) && match step {
            Ok(step) => call_ensures(M::minus, (math, &x, &step), ok),
            Err(e) => ok == Err::<M::T, M::E>(e),
        };
    scaled_cell(ar, math, of, c, direction, group.lr, step->Ok_0);
    let (wd, decays) = choose|wd: A::Num, decays: bool|
        {
            &&& optimizer::is_decay(ar, group, rank, wd)
            &&& #[trigger] optimizer::is_nonzero(ar, wd, decays)
            &&& if decays {
                optimizer::is_shrunk(ar, math, group.lr, wd, param, decayed)
            } else {
                call_ensures(M::copy, (math, &param), decayed)
            }
        };
    let (mag, zero) = choose|mag: A::Num, zero: A::Num|
        {
            &&& arith::is_magnitude(ar, wd, mag)
            &&& arith::is_whole(ar, 0, zero)
            &&& #[trigger] arith::is_exceeds(ar, mag, zero, decays)
        };
    assert(decays == (of(wd) != 0real));
    if decays {
        let (product, keep) = choose|product: A::Num, keep: A::Num|
            {
                &&& arith::is_product(ar, group.lr, wd, product)
                &&& #[trigger] optimizer::is_rest(ar, product, keep)
                &&& optimizer::is_scaled(ar, math, param, keep, decayed)
            };
        rest_value(ar, of, product, keep);
        scaled_cell(ar, math, of, c, param, keep, x);
        assert(wd == group.weight_decay);
    } else {
        let l = of(group.lr);
        assert forall|j: int| 0 <= j < (c.of)(param).len() implies #[trigger] (c.of)(x)[j]
            == if (c.rank)(param) > 1 {
            (c.of)(param)[j] * (1real - l * of(group.weight_decay))
        } else {
            (c.of)(param)[j]
        } by {
            let (p, d) = ((c.of)(param)[j], of(group.weight_decay));
            if (c.rank)(param) > 1 {
                assert(p * (1real - l * d) == p) by (nonlinear_arith)
                    requires
                        d == 0real,
                ;
            }
        }
    }
}

proof fn factor_value<A: Arith, M: TensorMath<A::Num>>(
    ar: &A,
    math: &M,
    of: spec_fn(A::Num) -> real,
    c: Cells<M::T>,
    loss: A::Num,
    clip: A::Num,
    f: A::Num,
)
    requires
        exact::is_real(ar, of),
        are_real_tensors::<A::Num, M>(math, of, c),
        optimizer::is_factor(ar, math, loss, clip, f),
    ensures
        of(f) == (if (c.invertible)(of(loss)) {
            1real / of(loss)
        } else {
            1real
        }) * (if of(clip) > 0real {
            of(clip)
        } else {
            1real
        }),
{
    let (inv, cl) = choose|inv: A::Num, cl: A::Num|
        {
            &&& #[trigger] optimizer::is_inverse_loss(ar, math, loss, inv)
            &&& #[trigger] optimizer::is_clip(ar, math, clip, cl)
            &&& arith::is_product(ar, inv, cl, f)
        };
    let (ok, one) = choose|ok: bool, one: A::Num|
        {
            &&& #[trigger] call_ensures(M::invertible, (math, loss), ok)
            &&& #[trigger] arith::is_whole(ar, 1, one)
            &&& if ok {
                arith::is_quotient(ar, one, loss, inv)
            } else {
                inv == one
            }
        };
    assert(of(one) == 1real);
    let usable = choose|ok: bool| #[trigger]
        call_ensures(M::usable_clip, (math, clip), ok) && if ok {
            cl == clip
        } else {
            arith::is_whole(ar, 1, cl)
        };
    assert(usable == (of(clip) > 0real));
}

/// A step moves every variable that has a pending gradient as AdamW does. With `f`, one over the
/// loss scale times the clip factor, each element `g` of the gradient counts as `g * f`. The means
/// of gradients and of their squares go to `m * beta1 + g * (1 - beta1)` and
/// `v * beta2 + g * g * (1 - beta2)`, from zero where the variable had none, and the steps taken
/// go up by one. Both means are divided by one less the power of their beta to the steps taken,
/// kept off zero. An element `x` of a matrix goes to `x * (1 - lr * wd) - d * lr`, one of a vector
/// to `x - d * lr`, where `d` is the angle of the corrected mean over the root of the corrected
/// squares, or their quotient with `eps` added below. A variable without a gradient, and its
/// means, stay as they are.
pub proof fn step_is_adamw<A: Arith, M: TensorMath<A::Num>>(
    ar: &A,
    math: &M,
    of: spec_fn(A::Num) -> real,
    c: Cells<M::T>,
    loss: A::Num,
    clip: A::Num,
    groups: Seq<ParamGroup<A::Num>>,
    pending: Seq<(Seq<char>, M::T)>,
    states: Seq<(Seq<char>, AdamState<M::T>)>,
    vars: Seq<(Seq<char>, M::T)>,
    next_states: Seq<(Seq<char>, AdamState<M::T>)>,
    next_vars: Seq<(Seq<char>, M::T)>,
    i: int,
    j: int,
)
    requires
        exact::is_real(ar, of),
        are_real_tensors::<A::Num, M>(math, of, c),
        optimizer::is_step(
            ar,
            math,
            loss,
            clip,
            groups,
            pending,
            states,
            vars,
            next_states,
            next_vars,
            Ok::<(), M::E>(()),
        ),
        0 <= i < vars.len(),
        0 <= j < (c.of)(vars[i].1).len(),
    ensures
        next_vars.len() == vars.len(),
        next_vars[i].0 == vars[i].0,
        ({
            let name = vars[i].0;
            let (x, y) = (vars[i].1, next_vars[i].1);
            let group = groups[optimizer::group_index(groups, name, 0) as int];
            let (l, b1, b2) = (of(group.lr), of(group.beta1), of(group.beta2));
            match named::found(pending, name) {
                None => {
                    &&& y == x
                    &&& named::found(next_states, name) == named::found(states, name)
                },
                Some(grad) => {
                    let s = named::found(states, name);
                    let n = named::found(next_states, name);
                    let f = (if (c.invertible)(of(loss)) {
                        1real / of(loss)
                    } else {
                        1real
                    }) * (if of(clip) > 0real {
                        of(clip)
                    } else {
                        1real
                    });
                    let g = (c.of)(grad)[j] * f;
                    let m0 = if s is Some {
                        (c.of)(s->Some_0.m)[j]
                    } else {
                        0real
                    };
                    let v0 = if s is Some {
                        (c.of)(s->Some_0.v)[j]
                    } else {
                        0real
                    };
                    let taken = if s is Some {
                        s->Some_0.step + 1
                    } else {
                        1
                    };
                    let m = m0 * b1 + g * (1real - b1);
                    let v = v0 * b2 + (g * g) * (1real - b2);
                    let t = taken as i32 as int;
                    let mean = m / (c.off_zero)(1real - (c.power)(b1, t));
                    let root = (c.root)(v / (c.off_zero)(1real - (c.power)(b2, t)));
                    let d = if group.use_atan2 {
                        (c.angle)(mean, root)
                    } else {
                        mean / (root + of(group.eps))
                    };
                    &&& n is Some
                    &&& n->Some_0.step == taken
                    &&& (c.of)(n->Some_0.m)[j] == m
                    &&& (c.of)(n->Some_0.v)[j] == v
                    &&& (c.of)(y).len() == (c.of)(x).len()
                    &&& (c.of)(y)[j] == (if (c.rank)(x) > 1 {
                        (c.of)(x)[j] * (1real - l * of(group.weight_decay))
                    } else {
                        (c.of)(x)[j]
                    }) - d * l
                    &&& l == 0real ==> (c.of)(y)[j] == (c.of)(x)[j]
                },
            }
        }),
{
    let factor = choose|factor: A::Num| #[trigger]
        optimizer::is_factor(ar, math, loss, clip, factor) && optimizer::is_factor_step(
            ar,
            math,
            factor,
            groups,
            pending,
            states,
            vars,
            next_states,
            next_vars,
            Ok::<(), M::E>(()),
        );
    factor_value(ar, math, of, c, loss, clip, factor);
    assert(optimizer::is_done_at(
        ar,
        math,
        factor,
        groups,
        pending,
        states,
        vars,
        next_states,
        next_vars,
        i,
    ));
    let name = vars[i].0;
    let (x, y) = (vars[i].1, next_vars[i].1);
    let group = groups[optimizer::group_index(groups, name, 0) as int];
    let s = named::found(states, name);
    let next = named::found(next_states, name);
    if let Some(grad) = named::found(pending, name) {
        let ok = Ok::<M::T, M::E>(y);
        let g = choose|g: Result<M::T, M::E>| #[trigger]
            optimizer::is_scaled(ar, math, grad, factor, g) && match g {
                Ok(g) => optimizer::is_scaled_step(ar, math, group, g, s, x, next, ok),
                Err(e) => next == s && ok == Err::<M::T, M::E>(e),
            };
        let g = g->Ok_0;
        scaled_cell(ar, math, of, c, grad, factor, g);
        let (m0, v0, k) = choose|m: M::T, v: M::T, step: u64| #[trigger]
            optimizer::is_grad_step(ar, math, group, g, s, x, m, v, step, next, ok);
        let start = AdamState { m: m0, v: v0, step: k };
        let after = next->Some_0;
        let means = choose|means: Result<(M::T, M::T), M::E>|
            {
                &&& #[trigger] optimizer::are_moments(ar, math, group, start, g, means)
                &&& after.step == start.step + 1
                &&& match means {
                    Ok((m, v)) => after.m == m && after.v == v && optimizer::is_adam_value(
                        ar,
                        math,
                        group,
                        after,
                        x,
                        ok,
                    ),
                    Err(e) => after.m == start.m && after.v == start.v && ok == Err::<M::T, M::E>(
                        e,
                    ),
                }
            };
        moments_cells(ar, math, of, c, group, start, g, after.m, after.v);
        value_cells(ar, math, of, c, group, after, x, y);
        assert((c.of)(y).len() == (c.of)(x).len());
        assert((c.of)(g).len() == (c.of)(x).len());
        assert((c.of)(g)[j] == (c.of)(grad)[j] * of(factor));
        if s is None {
            assert((c.of)(m0)[j] == 0real && (c.of)(v0)[j] == 0real);
        }
    }
}

/// With a learning rate of zero a step changes no variable, whatever its weight decay.
pub proof fn no_rate_no_move<A: Arith, M: TensorMath<A::Num>>(
    ar: &A,
    math: &M,
    of: spec_fn(A::Num) -> real,
    c: Cells<M::T>,
    loss: A::Num,
    clip: A::Num,
    groups: Seq<ParamGroup<A::Num>>,
    pending: Seq<(Seq<char>, M::T)>,
    states: Seq<(Seq<char>, AdamState<M::T>)>,
    vars: Seq<(Seq<char>, M::T)>,
    next_states: Seq<(Seq<char>, AdamState<M::T>)>,
    next_vars: Seq<(Seq<char>, M::T)>,
    i: int,
    j: int,
)
    requires
        exact::is_real(ar, of),
        are_real_tensors::<A::Num, M>(math, of, c),
        optimizer::is_step(
            ar,
            math,
            loss,
            clip,
            groups,
            pending,
            states,
            vars,
            next_states,
            next_vars,
            Ok::<(), M::E>(()),
        ),
        0 <= i < vars.len(),
        0 <= j < (c.of)(vars[i].1).len(),
        forall|k: int| 0 <= k < groups.len() ==> of((#[trigger] groups[k]).lr) == 0real,
        groups.len() > 0,
    ensures
        next_vars[i].0 == vars[i].0,
        (c.of)(next_vars[i].1)[j] == (c.of)(vars[i].1)[j],
{
    step_is_adamw(
        ar,
        math,
        of,
        c,
        loss,
        clip,
        groups,
        pending,
        states,
        vars,
        next_states,
        next_vars,
        i,
        j,
    );
    let name = vars[i].0;
    let at = optimizer::group_index(groups, name, 0) as int;
    group_in_range(groups, name, 0);
}

proof fn group_in_range<F>(groups: Seq<ParamGroup<F>>, name: Seq<char>, from: nat)
    requires
        groups.len() > 0,
    ensures
        optimizer::group_index(groups, name, from) < groups.len(),
    decreases groups.len() - from,
{
    if from < groups.len() {
        group_in_range(groups, name, from + 1);
    }
}

/// The group of a variable is the first that covers its name: none before it does. Where no group
/// covers it, the variable belongs to the first one.
pub proof fn group_is_the_first_that_covers<F>(groups: Seq<ParamGroup<F>>, name: Seq<char>, k: int)
    requires
        groups.len() > 0,
    ensures
        ({
            let at = optimizer::group_index(groups, name, 0) as int;
            &&& at < groups.len()
            &&& 0 <= k < at ==> !optimizer::group_covers(groups[k], name)
            &&& (0 <= k < groups.len() && optimizer::group_covers(groups[k], name))
                ==> optimizer::group_covers(groups[at], name) && at <= k
        }),
        (forall|i: int|
            0 <= i < groups.len() ==> !optimizer::group_covers(#[trigger] groups[i], name))
            ==> optimizer::group_index(groups, name, 0) == 0,
{
    first_from(groups, name, 0, k);
}

proof fn first_from<F>(groups: Seq<ParamGroup<F>>, name: Seq<char>, from: nat, k: int)
    requires
        from <= groups.len(),
        groups.len() > 0,
    ensures
        ({
            let at = optimizer::group_index(groups, name, from) as int;
            let any = exists|i: int|
                from <= i < groups.len() && optimizer::group_covers(#[trigger] groups[i], name);
            &&& at < groups.len()
            &&& any ==> from <= at && optimizer::group_covers(groups[at], name)
            &&& !any ==> at == 0
            &&& from <= k < at ==> !optimizer::group_covers(groups[k], name)
        }),
    decreases groups.len() - from,
{
    if from < groups.len() && !optimizer::group_covers(groups[from as int], name) {
        first_from(groups, name, from + 1, k);
    } else if from < groups.len() {
        assert(optimizer::group_covers(groups[from as int], name));
    }
}

proof fn value_cells<A: Arith, M: TensorMath<A::Num>>(
    ar: &A,
    math: &M,
    of: spec_fn(A::Num) -> real,
    c: Cells<M::T>,
    group: ParamGroup<A::Num>,
    s: AdamState<M::T>,
    x: M::T,
    y: M::T,
)
    requires
        exact::is_real(ar, of),
        are_real_tensors::<A::Num, M>(math, of, c),
        optimizer::is_adam_value(ar, math, group, s, x, Ok::<M::T, M::E>(y)),
    ensures
        (c.of)(y).len() == (c.of)(x).len(),
        (c.of)(y).len() == (c.of)(s.m).len(),
        (c.of)(y).len() == (c.of)(s.v).len(),
        forall|j: int|
            0 <= j < (c.of)(y).len() ==> #[trigger] (c.of)(y)[j] == (if (c.rank)(x) > 1 {
                (c.of)(x)[j] * (1real - of(group.lr) * of(group.weight_decay))
            } else {
                (c.of)(x)[j]
            }) - (if group.use_atan2 {
                (c.angle)(
                    (c.of)(s.m)[j] / (c.off_zero)(
                        1real - (c.power)(of(group.beta1), s.step as i32 as int),
                    ),
                    (c.root)(
                        (c.of)(s.v)[j] / (c.off_zero)(
                            1real - (c.power)(of(group.beta2), s.step as i32 as int),
                        ),
                    ),
                )
            } else {
                ((c.of)(s.m)[j] / (c.off_zero)(
                    1real - (c.power)(of(group.beta1), s.step as i32 as int),
                )) / ((c.root)(
                    (c.of)(s.v)[j] / (c.off_zero)(
                        1real - (c.power)(of(group.beta2), s.step as i32 as int),
                    ),
                ) + of(group.eps))
            }) * of(group.lr),
        of(group.lr) == 0real ==> (c.of)(y) == (c.of)(x),
{
    let ok = Ok::<M::T, M::E>(y);
    let t = s.step as i32;
    let m_hat = choose|m_hat: Result<M::T, M::E>| #[trigger]
        optimizer::is_corrected(ar, math, s.m, group.beta1, t, m_hat) && match m_hat {
            Ok(m_hat) => optimizer::is_squares_corrected(ar, math, group, s, m_hat, x, ok),
            Err(e) => ok == Err::<M::T, M::E>(e),
        };
    let mh = m_hat->Ok_0;
    corrected_cell(ar, math, of, c, s.m, group.beta1, t, mh);
    let v_hat = choose|v_hat: Result<M::T, M::E>| #[trigger]
        optimizer::is_corrected(ar, math, s.v, group.beta2, t, v_hat) && match v_hat {
            Ok(v_hat) => optimizer::is_directed(ar, math, group, mh, v_hat, x, ok),
            Err(e) => ok == Err::<M::T, M::E>(e),
        };
    let vh = v_hat->Ok_0;
    corrected_cell(ar, math, of, c, s.v, group.beta2, t, vh);
    let direction = choose|direction: Result<M::T, M::E>| #[trigger]
        optimizer::is_direction(ar, math, group, mh, vh, direction) && match direction {
            Ok(direction) => optimizer::is_decayed_move(ar, math, group, x, direction, ok),
            Err(e) => ok == Err::<M::T, M::E>(e),
        };
    let d = direction->Ok_0;
    direction_cell(ar, math, of, c, group, mh, vh, d);
    move_cell(ar, math, of, c, group, x, d, y);
    assert forall|j: int| 0 <= j < (c.of)(y).len() implies #[trigger] (c.of)(y)[j] == (if (
    c.rank)(x) > 1 {
        (c.of)(x)[j] * (1real - of(group.lr) * of(group.weight_decay))
    } else {
        (c.of)(x)[j]
    }) - (c.of)(d)[j] * of(group.lr) by {}
    if of(group.lr) == 0real {
        let l = of(group.lr);
        assert forall|j: int| 0 <= j < (c.of)(y).len() implies #[trigger] (c.of)(y)[j] == (c.of)(
            x,
        )[j] by {
            let (a, b, wd) = ((c.of)(x)[j], (c.of)(d)[j], of(group.weight_decay));
            assert(a * (1real - l * wd) == a && b * l == 0real) by (nonlinear_arith)
                requires
                    l == 0real,
            ;
        }
        assert((c.of)(y) =~= (c.of)(x));
    }
}

/// Clipping brings all pending gradients together down to the bound: with the root of the sum of
/// all their squares for their length, the factor is one where the length is at most the bound,
/// and otherwise the bound over the length, so that the factor times the length is the bound. It
/// is one where the bound is not positive, and where nothing is pending.
pub proof fn clip_bounds_the_length<A: Arith, M: TensorMath<A::Num>>(
    ar: &A,
    math: &M,
    of: spec_fn(A::Num) -> real,
    c: Cells<M::T>,
    pending: Seq<(Seq<char>, M::T)>,
    max_norm: A::Num,
    scale: A::Num,
)
    requires
        exact::is_real(ar, of),
        are_real_tensors::<A::Num, M>(math, of, c),
        optimizer::is_clip_result(ar, math, pending, max_norm, Ok::<A::Num, M::E>(scale)),
    ensures
        of(max_norm) <= 0real || pending.len() == 0 ==> of(scale) == 1real,
        of(max_norm) > 0real && pending.len() > 0 ==> ({
            let all = Seq::new(pending.len(), |i: int| square_sum((c.of)(pending[i].1)));
            let length = (c.root)(all.fold_left(0real, |a: real, b: real| a + b));
            &&& length <= of(max_norm) ==> of(scale) == 1real
            &&& length > of(max_norm) ==> of(scale) * length == of(max_norm)
        }),
{
    let off = choose|off: bool| #[trigger]
        call_ensures(M::nonpositive, (math, max_norm), off) && if off || pending.len() == 0 {
            arith::is_whole(ar, 1, scale)
        } else {
            optimizer::is_norm_scale(ar, math, pending, max_norm, scale)
        };
    if of(max_norm) > 0real && pending.len() > 0 {
        let (sums, zero, total, norm, over) = choose|
            sums: Seq<A::Num>,
            zero: A::Num,
            total: A::Num,
            norm: A::Num,
            over: bool,
        |
            {
                &&& #[trigger] optimizer::are_square_sums::<A::Num, M>(math, pending, sums)
                &&& sums.len() == pending.len()
                &&& arith::is_whole(ar, 0, zero)
                &&& #[trigger] arith::is_total(ar, zero, sums, total)
                &&& #[trigger] call_ensures(M::length, (math, total), norm)
                &&& #[trigger] arith::is_exceeds(ar, norm, max_norm, over)
                &&& if over {
                    arith::is_quotient(ar, max_norm, norm, scale)
                } else {
                    arith::is_whole(ar, 1, scale)
                }
            };
        let all = Seq::new(pending.len(), |i: int| square_sum((c.of)(pending[i].1)));
        let run = choose|run: Seq<A::Num>| #[trigger]
            arith::partial_sums(ar, zero, sums, run) && total == run[sums.len() as int];
        assert forall|i: int| 0 <= i < all.len() implies #[trigger] all[i] == of(sums[i])
            && all[i] >= 0real by {
            assert(call_ensures(
                M::square_sum,
                (math, &pending[i].1),
                Ok::<A::Num, M::E>(sums[i]),
            ));
            squares_not_negative((c.of)(pending[i].1));
        }
        folded_total(ar, of, zero, sums, run, all, all.len() as int);
        assert(all.take(all.len() as int) =~= all);
        let length = of(norm);
        if over {
            let (x, s, b) = (length, of(scale), of(max_norm));
            assert(s * x == b) by (nonlinear_arith)
                requires
                    s == b / x,
                    x != 0real,
            ;
        }
    }
}

proof fn squares_not_negative(s: Seq<real>)
    ensures
        square_sum(s) >= 0real,
    decreases s.len(),
{
    if s.len() > 0 {
        squares_not_negative(s.drop_last());
        let x = s.last();
        assert(x * x >= 0real) by (nonlinear_arith);
    }
}

proof fn folded_total<A: Arith>(
    ar: &A,
    of: spec_fn(A::Num) -> real,
    start: A::Num,
    terms: Seq<A::Num>,
    run: Seq<A::Num>,
    all: Seq<real>,
    k: int,
)
    requires
        exact::is_real(ar, of),
        of(start) == 0real,
        arith::partial_sums(ar, start, terms, run),
        all.len() == terms.len(),
        forall|i: int| 0 <= i < all.len() ==> #[trigger] all[i] == of(terms[i]) && all[i] >= 0real,
        0 <= k <= all.len(),
    ensures
        of(run[k]) == all.take(k).fold_left(0real, |a: real, b: real| a + b),
        of(run[k]) >= 0real,
    decreases k,
{
    if k > 0 {
        folded_total(ar, of, start, terms, run, all, k - 1);
        assert(all.take(k).drop_last() =~= all.take(k - 1));
        assert(arith::is_sum(ar, run[k - 1], terms[k - 1], run[k - 1 + 1]));
        assert(all[k - 1] == of(terms[k - 1]));
    }
}

/// A scheduled step that goes through takes the factor that clips what was pending, makes one
/// step with it and with the loss not scaled, and leaves nothing pending. One that fails leaves
/// everything pending.
pub proof fn scheduled_step_clips_and_drops<A: Arith, M: TensorMath<A::Num>>(
    ar: &A,
    math: &M,
    of: spec_fn(A::Num) -> real,
    max_norm: A::Num,
    before: MultiGroupOptimizer<A::Num, M::T>,
    vars: Seq<(Seq<char>, M::T)>,
    after: MultiGroupOptimizer<A::Num, M::T>,
    next_vars: Seq<(Seq<char>, M::T)>,
    r: Result<(), M::E>,
) -> (clip: A::Num)
    requires
        exact::is_real(ar, of),
        optimizer::is_scheduled_step(ar, math, max_norm, before, vars, after, next_vars, r),
    ensures
        r is Err ==> after.pending@ == before.pending@,
        r is Ok ==> {
            &&& after.pending@.len() == 0
            &&& optimizer::is_clip_result(
                ar,
                math,
                before.pending@,
                max_norm,
                Ok::<A::Num, M::E>(clip),
            )
            &&& of(after.loss_scale) == 1real
            &&& after.current_clip_scale == clip
            &&& optimizer::is_step(
                ar,
                math,
                after.loss_scale,
                clip,
                after.groups@,
                before.pending@,
                before.states@,
                vars,
                after.states@,
                next_vars,
                Ok::<(), M::E>(()),
            )
        },
{
    after.current_clip_scale
}

/// Setting rates gives each group the rate at its place, as far as there are any, and keeps all
/// its other settings.
pub proof fn rates_are_set_in_order<F>(groups: Seq<ParamGroup<F>>, lrs: Seq<F>, i: int)
    requires
        0 <= i < groups.len(),
    ensures
        ({
            let g = optimizer::rated(groups, lrs);
            &&& g.len() == groups.len()
            &&& g[i].lr == if i < lrs.len() {
                lrs[i]
            } else {
                groups[i].lr
            }
            &&& g[i].weight_decay == groups[i].weight_decay
            &&& g[i].beta1 == groups[i].beta1 && g[i].beta2 == groups[i].beta2
            &&& g[i].eps == groups[i].eps && g[i].use_atan2 == groups[i].use_atan2
            &&& g[i].name_patterns == groups[i].name_patterns
        }),
{
}

/// What the gradients under a name among the first `k` add up to at place `j`, from a start.
pub open spec fn gathered<T>(
    c: Cells<T>,
    pairs: Seq<(String, T)>,
    name: Seq<char>,
    k: int,
    j: int,
    start: real,
) -> real
    decreases k,
{
    if k <= 0 {
        start
    } else {
        gathered(c, pairs, name, k - 1, j, start) + if pairs[k - 1].0@ == name {
            (c.of)(pairs[k - 1].1)[j]
        } else {
            0real
        }
    }
}

/// Some gradient among the first `k` is under that name.
pub open spec fn is_named_among<T>(pairs: Seq<(String, T)>, name: Seq<char>, k: int) -> bool {
    exists|i: int| 0 <= i < k && (#[trigger] pairs[i]).0@ == name
}

/// Accumulating adds: what is pending under a name after a run of gradients is, element by
/// element, what was pending under it before plus all gradients under it. A name that was not
/// pending and has no gradient is not pending after.
pub proof fn accumulation_adds<F, M: TensorMath<F>>(
    math: &M,
    of: spec_fn(F) -> real,
    c: Cells<M::T>,
    before: Seq<(Seq<char>, M::T)>,
    pairs: Seq<(String, M::T)>,
    run: Seq<Seq<(Seq<char>, M::T)>>,
    k: int,
    name: Seq<char>,
    j: int,
)
    requires
        are_real_tensors::<F, M>(math, of, c),
        named::sorted(before),
        optimizer::is_fold_run::<F, M>(math, before, pairs, run),
        0 <= k < run.len(),
        forall|i: int|
            0 <= i < pairs.len() && (#[trigger] pairs[i]).0@ == name ==> 0 <= j < (c.of)(
                pairs[i].1,
            ).len(),
        named::found(before, name) matches Some(t) ==> 0 <= j < (c.of)(t).len(),
    ensures
        named::sorted(run[k]),
        match named::found(run[k], name) {
            None => named::found(before, name) is None && !is_named_among(pairs, name, k),
            Some(t) => {
                &&& named::found(before, name) is Some || is_named_among(pairs, name, k)
                &&& j < (c.of)(t).len()
                &&& (c.of)(t)[j] == gathered(
                    c,
                    pairs,
                    name,
                    k,
                    j,
                    match named::found(before, name) {
                        Some(b) => (c.of)(b)[j],
                        None => 0real,
                    },
                )
            },
        },
    decreases k,
{
    let start = match named::found(before, name) {
        Some(b) => (c.of)(b)[j],
        None => 0real,
    };
    if k > 0 {
        accumulation_adds::<F, M>(math, of, c, before, pairs, run, k - 1, name, j);
        let (s, at, g) = (run[k - 1], pairs[k - 1].0@, pairs[k - 1].1);
        assert(optimizer::is_folded::<F, M>(math, s, at, g, run[k - 1 + 1]));
        match named::found(s, at) {
            None => {
                named::insert_then_find(s, at, g, name);
                if at == name {
                    nothing_gathered(c, pairs, name, k - 1, j, start);
                }
            },
            Some(held) => {
                let sum = choose|sum: M::T| #[trigger]
                    call_ensures(M::plus, (math, &held, &g), Ok::<M::T, M::E>(sum)) && run[k]
                        == named::inserted(named::removed(s, at), at, sum);
                named::remove_then_find(s, at, name);
                named::insert_then_find(named::removed(s, at), at, sum, name);
            },
        }
        if at == name {
            assert(is_named_among(pairs, name, k)) by {
                assert(pairs[k - 1].0@ == name);
            }
        } else if is_named_among(pairs, name, k) {
            let i = choose|i: int| 0 <= i < k && (#[trigger] pairs[i]).0@ == name;
            assert(is_named_among(pairs, name, k - 1));
        }
        if is_named_among(pairs, name, k - 1) {
            let i = choose|i: int| 0 <= i < k - 1 && (#[trigger] pairs[i]).0@ == name;
            assert(is_named_among(pairs, name, k));
        }
    } else {
        assert(!is_named_among(pairs, name, 0));
    }
}

proof fn nothing_gathered<T>(
    c: Cells<T>,
    pairs: Seq<(String, T)>,
    name: Seq<char>,
    k: int,
    j: int,
    start: real,
)
    requires
        !is_named_among(pairs, name, k),
    ensures
        gathered(c, pairs, name, k, j, start) == start,
    decreases k,
{
    if k > 0 {
        assert forall|i: int| 0 <= i < k - 1 implies (#[trigger] pairs[i]).0@ != name by {
            assert(!is_named_among(pairs, name, k));
        }
        assert(pairs[k - 1].0@ != name);
        nothing_gathered(c, pairs, name, k - 1, j, start);
    }
}

/// A pattern that ends in a star covers the names that begin with what stands before it, one that
/// only begins with a star covers those that end in what stands behind it, and any other pattern
/// covers the name that it is.
pub proof fn star_stands_for_any_rest(text: Seq<char>, name: Seq<char>)
    ensures
        optimizer::matches_name(text.push('*'), name) <==> text.len() <= name.len() && name.take(
            text.len() as int,
        ) == text,
        text.len() > 0 && text.last() != '*' ==> (optimizer::matches_name(
            seq!['*'] + text,
            name,
        ) <==> text.len() <= name.len() && name.skip(name.len() - text.len()) == text),
        text.len() > 0 && text.last() != '*' && text[0] != '*' ==> (optimizer::matches_name(
            text,
            name,
        ) <==> name == text),
{
    reveal_strlit("*");
    let ends = text.push('*');
    assert(ends.drop_last() =~= text);
    if text.len() == 0 {
        assert(ends =~= "*"@);
        assert(name.take(0) =~= text);
    } else {
        assert(ends.len() != "*"@.len());
        if text.len() <= name.len() {
            assert(name.subrange(0, text.len() as int) =~= name.take(text.len() as int));
        }
    }
    if text.len() > 0 && text.last() != '*' {
        let begins = seq!['*'] + text;
        assert(begins.last() == text.last());
        assert(begins.drop_first() =~= text);
        let at = name.len() - text.len();
        if text.len() <= name.len() {
            assert(name.subrange(at, at + text.len()) =~= name.skip(at));
        }
        assert(text != "*"@);
    }
}

/// A group covers the names that any of its patterns covers.
pub proof fn group_covers_by_any_pattern<F>(g: ParamGroup<F>, name: Seq<char>, i: int)
    requires
        0 <= i < g.name_patterns@.len(),
    ensures
        optimizer::matches_name(g.name_patterns@[i]@, name) ==> optimizer::group_covers(g, name),
        optimizer::group_covers(g, name) ==> exists|j: int|
            0 <= j < g.name_patterns@.len() && optimizer::matches_name(
                (#[trigger] g.name_patterns@[j])@,
                name,
            ),
{
}

} // verus!
