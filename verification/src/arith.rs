//! The number arithmetic that the kernels are written over.
//!
//! The kernels do not depend on how numbers are rounded: they take the arithmetic as a
//! parameter and are stated over the results that its operations return. A caller supplies, for
//! instance, single-precision arithmetic.

use vstd::prelude::*;

verus! {

/// Arithmetic on a number type. Nothing is demanded of the operations beyond that they return.
pub trait Arith {
    type Num: Copy;

    /// The number `n`.
    fn whole(&self, n: i128) -> Self::Num;

    /// `a + b`.
    fn plus(&self, a: Self::Num, b: Self::Num) -> Self::Num;

    /// `a - b`.
    fn minus(&self, a: Self::Num, b: Self::Num) -> Self::Num;

    /// `a * b`.
    fn times(&self, a: Self::Num, b: Self::Num) -> Self::Num;

    /// `a / b`.
    fn over(&self, a: Self::Num, b: Self::Num) -> Self::Num;

    /// `-a`.
    fn negated(&self, a: Self::Num) -> Self::Num;

    /// The absolute value of `a`.
    fn magnitude(&self, a: Self::Num) -> Self::Num;

    /// The exponential of `a`.
    fn exp(&self, a: Self::Num) -> Self::Num;

    /// The square root of `a`.
    fn sqrt(&self, a: Self::Num) -> Self::Num;

    /// Whether `a > b`.
    fn exceeds(&self, a: Self::Num, b: Self::Num) -> bool;

    /// A number that no other is below, negative infinity.
    fn lowest(&self) -> Self::Num;

    /// The small number that keeps a divisor off zero.
    fn speck(&self) -> Self::Num;
}

/// `r` is what the arithmetic gives for the number `n`.
pub open spec fn is_whole<A: Arith>(ar: &A, n: int, r: A::Num) -> bool {
    call_ensures(A::whole, (ar, n as i128), r)
}

/// `r` is what the arithmetic gives for `a + b`.
pub open spec fn is_sum<A: Arith>(ar: &A, a: A::Num, b: A::Num, r: A::Num) -> bool {
    call_ensures(A::plus, (ar, a, b), r)
}

/// `r` is what the arithmetic gives for `a - b`.
pub open spec fn is_difference<A: Arith>(ar: &A, a: A::Num, b: A::Num, r: A::Num) -> bool {
    call_ensures(A::minus, (ar, a, b), r)
}

/// `r` is what the arithmetic gives for `a * b`.
pub open spec fn is_product<A: Arith>(ar: &A, a: A::Num, b: A::Num, r: A::Num) -> bool {
    call_ensures(A::times, (ar, a, b), r)
}

/// `r` is what the arithmetic gives for `a / b`.
pub open spec fn is_quotient<A: Arith>(ar: &A, a: A::Num, b: A::Num, r: A::Num) -> bool {
    call_ensures(A::over, (ar, a, b), r)
}

/// `r` is what the arithmetic gives for `-a`.
pub open spec fn is_negated<A: Arith>(ar: &A, a: A::Num, r: A::Num) -> bool {
    call_ensures(A::negated, (ar, a), r)
}

/// `r` is what the arithmetic gives for the absolute value of `a`.
pub open spec fn is_magnitude<A: Arith>(ar: &A, a: A::Num, r: A::Num) -> bool {
    call_ensures(A::magnitude, (ar, a), r)
}

/// `r` is what the arithmetic gives for the exponential of `a`.
pub open spec fn is_exp<A: Arith>(ar: &A, a: A::Num, r: A::Num) -> bool {
    call_ensures(A::exp, (ar, a), r)
}

/// `r` is what the arithmetic gives for the square root of `a`.
pub open spec fn is_sqrt<A: Arith>(ar: &A, a: A::Num, r: A::Num) -> bool {
    call_ensures(A::sqrt, (ar, a), r)
}

/// `r` is what the arithmetic answers to `a > b`.
pub open spec fn is_exceeds<A: Arith>(ar: &A, a: A::Num, b: A::Num, r: bool) -> bool {
    call_ensures(A::exceeds, (ar, a, b), r)
}

/// `run` is the list of partial sums of `terms`, from `start` on.
pub open spec fn partial_sums<A: Arith>(
    ar: &A,
    start: A::Num,
    terms: Seq<A::Num>,
    run: Seq<A::Num>,
) -> bool {
    &&& run.len() == terms.len() + 1
    &&& run[0] == start
    &&& forall|i: int| 0 <= i < terms.len() ==> is_sum(ar, run[i], #[trigger] terms[i], run[i + 1])
}

/// `r` is `start` with every term added to it, the first one first.
pub open spec fn is_total<A: Arith>(
    ar: &A,
    start: A::Num,
    terms: Seq<A::Num>,
    r: A::Num,
) -> bool {
    exists|run: Seq<A::Num>| #[trigger]
        partial_sums(ar, start, terms, run) && r == run[terms.len() as int]
}

/// `p` is the list of products of `a` and `b`, element by element.
pub open spec fn are_products<A: Arith>(
    ar: &A,
    a: Seq<A::Num>,
    b: Seq<A::Num>,
    p: Seq<A::Num>,
) -> bool {
    &&& p.len() == a.len()
    &&& forall|i: int| 0 <= i < a.len() ==> is_product(ar, a[i], b[i], #[trigger] p[i])
}

/// `r` is `start` with the products of `a` and `b` added to it, in order.
pub open spec fn is_dot<A: Arith>(
    ar: &A,
    start: A::Num,
    a: Seq<A::Num>,
    b: Seq<A::Num>,
    r: A::Num,
) -> bool {
    exists|p: Seq<A::Num>| #[trigger] are_products(ar, a, b, p) && is_total(ar, start, p, r)
}

/// No terms add up to the start.
pub proof fn empty_total<A: Arith>(ar: &A, start: A::Num)
    ensures
        is_total(ar, start, Seq::<A::Num>::empty(), start),
{
    assert(partial_sums(ar, start, Seq::<A::Num>::empty(), seq![start]));
}

/// One more term adds to the total.
pub proof fn total_step<A: Arith>(
    ar: &A,
    start: A::Num,
    terms: Seq<A::Num>,
    r: A::Num,
    term: A::Num,
    next: A::Num,
)
    requires
        is_total(ar, start, terms, r),
        is_sum(ar, r, term, next),
    ensures
        is_total(ar, start, terms.push(term), next),
{
    let run = choose|run: Seq<A::Num>| #[trigger]
        partial_sums(ar, start, terms, run) && r == run[terms.len() as int];
    let longer = run.push(next);
    let more = terms.push(term);
    assert forall|i: int| 0 <= i < more.len() implies is_sum(
        ar,
        longer[i],
        #[trigger] more[i],
        longer[i + 1],
    ) by {
        if i < terms.len() {
            assert(more[i] == terms[i]);
        }
    }
    assert(partial_sums(ar, start, more, longer));
}

/// No products add up to the start.
pub proof fn empty_dot<A: Arith>(ar: &A, start: A::Num)
    ensures
        is_dot(ar, start, Seq::<A::Num>::empty(), Seq::<A::Num>::empty(), start),
{
    let e = Seq::<A::Num>::empty();
    empty_total(ar, start);
    assert(are_products(ar, e, e, e));
}

/// One more product adds to the total.
pub proof fn dot_step<A: Arith>(
    ar: &A,
    start: A::Num,
    a: Seq<A::Num>,
    b: Seq<A::Num>,
    r: A::Num,
    x: A::Num,
    y: A::Num,
    p: A::Num,
    next: A::Num,
)
    requires
        a.len() == b.len(),
        is_dot(ar, start, a, b, r),
        is_product(ar, x, y, p),
        is_sum(ar, r, p, next),
    ensures
        is_dot(ar, start, a.push(x), b.push(y), next),
{
    let ps = choose|ps: Seq<A::Num>| #[trigger]
        are_products(ar, a, b, ps) && is_total(ar, start, ps, r);
    total_step(ar, start, ps, r, p, next);
    let longer = ps.push(p);
    assert forall|i: int| 0 <= i < a.push(x).len() implies is_product(
        ar,
        a.push(x)[i],
        b.push(y)[i],
        #[trigger] longer[i],
    ) by {
        if i < a.len() {
            assert(longer[i] == ps[i]);
        }
    }
    assert(are_products(ar, a.push(x), b.push(y), longer));
}

/// The values that numbers stand for, and how these add and multiply.
#[verifier::reject_recursive_types(N)]
#[verifier::reject_recursive_types(V)]
pub struct Values<N, V> {
    /// What a number stands for.
    pub of: spec_fn(N) -> V,
    /// The value of a whole number.
    pub whole: spec_fn(int) -> V,
    /// The sum of two values.
    pub plus: spec_fn(V, V) -> V,
    /// The product of two values.
    pub times: spec_fn(V, V) -> V,
}

/// Two values multiply in either order.
pub open spec fn commutes<N, V>(v: Values<N, V>, a: V, b: V) -> bool {
    (v.times)(a, b) == (v.times)(b, a)
}

/// Three values multiply in either grouping.
pub open spec fn regroups<N, V>(v: Values<N, V>, a: V, b: V, c: V) -> bool {
    (v.times)((v.times)(a, b), c) == (v.times)(a, (v.times)(b, c))
}

/// The product of a sum is the sum of the products.
pub open spec fn distributes<N, V>(v: Values<N, V>, a: V, b: V, c: V) -> bool {
    (v.times)((v.plus)(a, b), c) == (v.plus)((v.times)(a, c), (v.times)(b, c))
}

/// Zero times a value is zero.
pub open spec fn vanishes<N, V>(v: Values<N, V>, a: V) -> bool {
    (v.times)((v.whole)(0), a) == (v.whole)(0)
}

/// Values multiply in any order and grouping, products distribute over sums, and zero times
/// anything is zero.
pub open spec fn multiply_freely<N, V>(v: Values<N, V>) -> bool {
    &&& forall|a: V, b: V| #[trigger] commutes(v, a, b)
    &&& forall|a: V, b: V, c: V| #[trigger] regroups(v, a, b, c)
    &&& forall|a: V, b: V, c: V| #[trigger] distributes(v, a, b, c)
    &&& forall|a: V| #[trigger] vanishes(v, a)
}

/// The arithmetic does not round: whole numbers, sums and products stand for the values that
/// they should.
pub open spec fn is_exact<A: Arith, V>(ar: &A, v: Values<A::Num, V>) -> bool {
    &&& multiply_freely(v)
    &&& forall|n: i128, r: A::Num| #[trigger]
        call_ensures(A::whole, (ar, n), r) ==> (v.of)(r) == (v.whole)(n as int)
    &&& forall|a: A::Num, b: A::Num, r: A::Num| #[trigger]
        is_sum(ar, a, b, r) ==> (v.of)(r) == (v.plus)((v.of)(a), (v.of)(b))
    &&& forall|a: A::Num, b: A::Num, r: A::Num| #[trigger]
        is_product(ar, a, b, r) ==> (v.of)(r) == (v.times)((v.of)(a), (v.of)(b))
}

/// The arithmetic gives the same result for the same numbers.
pub open spec fn is_repeatable<A: Arith>(ar: &A) -> bool {
    &&& forall|n: int, r: A::Num, q: A::Num| #[trigger]
        is_whole(ar, n, r) && #[trigger] is_whole(ar, n, q) ==> r == q
    &&& forall|a: A::Num, b: A::Num, r: A::Num, q: A::Num| #[trigger]
        is_sum(ar, a, b, r) && #[trigger] is_sum(ar, a, b, q) ==> r == q
    &&& forall|a: A::Num, b: A::Num, r: A::Num, q: A::Num| #[trigger]
        is_difference(ar, a, b, r) && #[trigger] is_difference(ar, a, b, q) ==> r == q
    &&& forall|a: A::Num, b: A::Num, r: A::Num, q: A::Num| #[trigger]
        is_product(ar, a, b, r) && #[trigger] is_product(ar, a, b, q) ==> r == q
    &&& forall|a: A::Num, b: A::Num, r: A::Num, q: A::Num| #[trigger]
        is_quotient(ar, a, b, r) && #[trigger] is_quotient(ar, a, b, q) ==> r == q
    &&& forall|a: A::Num, r: A::Num, q: A::Num| #[trigger]
        is_negated(ar, a, r) && #[trigger] is_negated(ar, a, q) ==> r == q
    &&& forall|a: A::Num, r: A::Num, q: A::Num| #[trigger]
        is_exp(ar, a, r) && #[trigger] is_exp(ar, a, q) ==> r == q
    &&& forall|a: A::Num, r: A::Num, q: A::Num| #[trigger]
        is_sqrt(ar, a, r) && #[trigger] is_sqrt(ar, a, q) ==> r == q
    &&& forall|a: A::Num, b: A::Num, r: bool, q: bool| #[trigger]
        is_exceeds(ar, a, b, r) && #[trigger] is_exceeds(ar, a, b, q) ==> r == q
    &&& forall|r: A::Num, q: A::Num| #[trigger]
        call_ensures(A::lowest, (ar,), r) && #[trigger] call_ensures(A::lowest, (ar,), q) ==> r
            == q
    &&& forall|r: A::Num, q: A::Num| #[trigger]
        call_ensures(A::speck, (ar,), r) && #[trigger] call_ensures(A::speck, (ar,), q) ==> r == q
}

} // verus!
