//! Arithmetic that does not round: every number stands for a real number, and the operations do
//! to the numbers what they are named for.

use crate::arith;
use crate::arith::Arith;
use vstd::prelude::*;

verus! {

/// Numbers stand for the real numbers that `of` gives: whole numbers, sums, differences,
/// products, quotients by what is not zero, signs, magnitudes and comparisons are exact.
pub open spec fn is_real<A: Arith>(ar: &A, of: spec_fn(A::Num) -> real) -> bool {
    &&& forall|n: i128, r: A::Num| #[trigger]
        call_ensures(A::whole, (ar, n), r) ==> of(r) == n as int as real
    &&& forall|a: A::Num, b: A::Num, r: A::Num| #[trigger]
        call_ensures(A::plus, (ar, a, b), r) ==> of(r) == of(a) + of(b)
    &&& forall|a: A::Num, b: A::Num, r: A::Num| #[trigger]
        call_ensures(A::minus, (ar, a, b), r) ==> of(r) == of(a) - of(b)
    &&& forall|a: A::Num, b: A::Num, r: A::Num| #[trigger]
        call_ensures(A::times, (ar, a, b), r) ==> of(r) == of(a) * of(b)
    &&& forall|a: A::Num, b: A::Num, r: A::Num| #[trigger]
        call_ensures(A::over, (ar, a, b), r) && of(b) != 0real ==> of(r) == of(a) / of(b)
    &&& forall|a: A::Num, r: A::Num| #[trigger]
        call_ensures(A::negated, (ar, a), r) ==> of(r) == 0real - of(a)
    &&& forall|a: A::Num, r: A::Num| #[trigger]
        call_ensures(A::magnitude, (ar, a), r) ==> of(r) == if of(a) < 0real {
            0real - of(a)
        } else {
            of(a)
        }
    &&& forall|a: A::Num, b: A::Num, r: bool| #[trigger]
        call_ensures(A::exceeds, (ar, a, b), r) ==> r == (of(a) > of(b))
}

/// Square roots are exact where there is one.
pub open spec fn has_roots<A: Arith>(ar: &A, of: spec_fn(A::Num) -> real) -> bool {
    forall|a: A::Num, r: A::Num| #[trigger]
        call_ensures(A::sqrt, (ar, a), r) && of(a) >= 0real ==> of(r) >= 0real && of(r) * of(r)
            == of(a)
}

/// Exponentials are those that `e` gives, which turns sums into products.
pub open spec fn has_powers<A: Arith>(
    ar: &A,
    of: spec_fn(A::Num) -> real,
    e: spec_fn(real) -> real,
) -> bool {
    &&& forall|a: A::Num, r: A::Num| #[trigger]
        call_ensures(A::exp, (ar, a), r) ==> of(r) == e(of(a))
    &&& forall|x: real| #[trigger] e(x) > 0real
    &&& forall|x: real, y: real| #[trigger] e(x - y) * e(y) == e(x)
}

/// The sum of a list.
pub open spec fn sum(s: Seq<real>) -> real
    decreases s.len(),
{
    if s.len() == 0 {
        0real
    } else {
        sum(s.drop_last()) + s.last()
    }
}

/// What numbers add up to, from a start.
pub(crate) proof fn totals_stand<A: Arith>(
    ar: &A,
    of: spec_fn(A::Num) -> real,
    start: A::Num,
    terms: Seq<A::Num>,
    r: A::Num,
)
    requires
        is_real(ar, of),
        arith::is_total(ar, start, terms, r),
    ensures
        of(r) == of(start) + sum(Seq::new(terms.len(), |i: int| of(terms[i]))),
{
    let run = choose|run: Seq<A::Num>| #[trigger]
        arith::partial_sums(ar, start, terms, run) && r == run[terms.len() as int];
    let vals = Seq::new(terms.len(), |i: int| of(terms[i]));
    runs_stand(ar, of, start, terms, run, terms.len() as int);
    assert(vals.take(terms.len() as int) =~= vals);
}

proof fn runs_stand<A: Arith>(
    ar: &A,
    of: spec_fn(A::Num) -> real,
    start: A::Num,
    terms: Seq<A::Num>,
    run: Seq<A::Num>,
    k: int,
)
    requires
        is_real(ar, of),
        arith::partial_sums(ar, start, terms, run),
        0 <= k <= terms.len(),
    ensures
        of(run[k]) == of(start) + sum(Seq::new(terms.len(), |i: int| of(terms[i])).take(k)),
    decreases k,
{
    let vals = Seq::new(terms.len(), |i: int| of(terms[i]));
    if k > 0 {
        runs_stand(ar, of, start, terms, run, k - 1);
        assert(vals.take(k).drop_last() =~= vals.take(k - 1));
        assert(arith::is_sum(ar, run[k - 1], terms[k - 1], run[k - 1 + 1]));
    }
}

/// What products add up to, from a start.
pub(crate) proof fn dots_stand<A: Arith>(
    ar: &A,
    of: spec_fn(A::Num) -> real,
    start: A::Num,
    a: Seq<A::Num>,
    b: Seq<A::Num>,
    r: A::Num,
)
    requires
        is_real(ar, of),
        arith::is_dot(ar, start, a, b, r),
    ensures
        of(r) == of(start) + sum(Seq::new(a.len(), |i: int| of(a[i]) * of(b[i]))),
{
    let p = choose|p: Seq<A::Num>| #[trigger]
        arith::are_products(ar, a, b, p) && arith::is_total(ar, start, p, r);
    totals_stand(ar, of, start, p, r);
    assert(Seq::new(p.len(), |i: int| of(p[i])) =~= Seq::new(
        a.len(),
        |i: int| of(a[i]) * of(b[i]),
    )) by {
        assert forall|i: int| 0 <= i < a.len() implies of(#[trigger] p[i]) == of(a[i]) * of(
            b[i],
        ) by {
            assert(arith::is_product(ar, a[i], b[i], p[i]));
        }
    }
}

} // verus!
