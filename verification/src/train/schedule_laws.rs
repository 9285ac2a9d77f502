//! What the learning-rate schedule comes to, where arithmetic does not round.

use crate::arith;
use crate::arith::Arith;
use crate::exact;
use crate::train::optimizer;
use crate::train::optimizer::{CosineScheduler, Phase};
use vstd::prelude::*;

verus! {

proof fn progress_counts<A: Arith>(
    ar: &A,
    of: spec_fn(A::Num) -> real,
    done: u64,
    all: u64,
    q: A::Num,
)
    requires
        exact::is_real(ar, of),
        all > 0,
        optimizer::is_progress(ar, done, all, q),
    ensures
        of(q) * (all as int as real) == done as int as real,
{
    let (d, n) = choose|d: A::Num, n: A::Num|
        {
            &&& #[trigger] arith::is_whole(ar, done as int, d)
            &&& #[trigger] arith::is_whole(ar, all as int, n)
            &&& #[trigger] arith::is_quotient(ar, d, n, q)
        };
    let (x, y, z) = (of(d), of(n), of(q));
    assert(y == all as int as real);
    assert(z * y == x) by (nonlinear_arith)
        requires
            z == x / y,
            y > 0real,
    ;
}

/// While warming up, a rate is the base rate times the steps done over the steps of the warm-up.
/// From the last step of the run on, it is the base rate times the floor ratio. In between, its
/// double above the floor is the span between floor and base times one plus the cosine, taken of
/// the steps done since the warm-up over the steps from there to the end of the run.
pub proof fn rate_follows_the_cosine<A: Arith, C: Fn(A::Num) -> A::Num>(
    ar: &A,
    of: spec_fn(A::Num) -> real,
    schedule: CosineScheduler<A::Num>,
    cos_pi: C,
    step: u64,
    lrs: Seq<A::Num>,
    i: int,
)
    requires
        exact::is_real(ar, of),
        schedule.are_rates(ar, cos_pi, step, lrs),
        0 <= i < schedule.base_lrs@.len(),
    ensures
        lrs.len() == schedule.base_lrs@.len(),
        ({
            let base = of(schedule.base_lrs@[i]);
            let low = base * of(schedule.min_lr_ratio);
            let warm = schedule.warmup_steps as int;
            let end = schedule.total_steps as int;
            let rate = of(lrs[i]);
            &&& step < warm ==> rate * (warm as real) == base * (step as int as real)
            &&& warm <= step && end <= step ==> rate == low
            &&& warm <= step < end ==> exists|q: A::Num, c: A::Num|
                {
                    &&& #[trigger] call_ensures(cos_pi, (q,), c)
                    &&& of(q) * ((end - warm) as real) == (step - warm) as real
                    &&& 2real * (rate - low) == (base - low) * (1real + of(c))
                }
        }),
{
    let base = of(schedule.base_lrs@[i]);
    let low = base * of(schedule.min_lr_ratio);
    let warm = schedule.warmup_steps as int;
    let end = schedule.total_steps as int;
    let rate = of(lrs[i]);
    let phase = optimizer::phase_of(schedule.warmup_steps, schedule.total_steps, step);
    assert(optimizer::is_rate(
        ar,
        cos_pi,
        schedule.base_lrs@[i],
        schedule.min_lr_ratio,
        phase,
        lrs[i],
    ));
    match phase {
        Phase::Warmup { done, of: all } => {
            let q = choose|q: A::Num| #[trigger]
                optimizer::is_progress(ar, done, all, q) && arith::is_product(
                    ar,
                    schedule.base_lrs@[i],
                    q,
                    lrs[i],
                );
            progress_counts(ar, of, done, all, q);
            let (x, d, n) = (of(q), step as int as real, warm as real);
            assert((base * x) * n == base * d) by (nonlinear_arith)
                requires
                    x * n == d,
            ;
        },
        Phase::Floor => {},
        Phase::Decay { done, of: all } => {
            let (l, q, share) = choose|l: A::Num, q: A::Num, share: A::Num|
                {
                    &&& arith::is_product(ar, schedule.base_lrs@[i], schedule.min_lr_ratio, l)
                    &&& #[trigger] optimizer::is_progress(ar, done, all, q)
                    &&& #[trigger] optimizer::is_half_cosine(ar, cos_pi, q, share)
                    &&& #[trigger] optimizer::is_between(
                        ar,
                        l,
                        schedule.base_lrs@[i],
                        share,
                        lrs[i],
                    )
                };
            progress_counts(ar, of, done, all, q);
            let (c, one, s, two) = choose|c: A::Num, one: A::Num, s: A::Num, two: A::Num|
                {
                    &&& #[trigger] call_ensures(cos_pi, (q,), c)
                    &&& arith::is_whole(ar, 1, one)
                    &&& #[trigger] arith::is_sum(ar, one, c, s)
                    &&& arith::is_whole(ar, 2, two)
                    &&& #[trigger] arith::is_quotient(ar, s, two, share)
                };
            let (span, part) = choose|span: A::Num, part: A::Num|
                {
                    &&& #[trigger] arith::is_difference(ar, schedule.base_lrs@[i], l, span)
                    &&& #[trigger] arith::is_product(ar, span, share, part)
                    &&& arith::is_sum(ar, l, part, lrs[i])
                };
            assert(of(l) == low);
            assert(of(two) == 2real);
            assert(of(share) == (1real + of(c)) / 2real);
            let (w, h, k) = (base - low, of(share), 1real + of(c));
            assert(2real * (w * h) == w * k) by (nonlinear_arith)
                requires
                    h == k / 2real,
            ;
            assert(rate - low == w * h);
            assert(call_ensures(cos_pi, (q,), c));
        },
    }
}

/// While decaying, a cosine that is always one keeps the base rate, one that is always minus one
/// gives the floor, and any other one stays between: the rate is neither above the base rate nor
/// below its floor where the cosine is between minus one and one.
pub proof fn decay_spans_base_to_floor<A: Arith, C: Fn(A::Num) -> A::Num>(
    ar: &A,
    of: spec_fn(A::Num) -> real,
    schedule: CosineScheduler<A::Num>,
    cos_pi: C,
    step: u64,
    lrs: Seq<A::Num>,
    i: int,
)
    requires
        exact::is_real(ar, of),
        schedule.are_rates(ar, cos_pi, step, lrs),
        0 <= i < schedule.base_lrs@.len(),
        schedule.warmup_steps <= step < schedule.total_steps,
    ensures
        ({
            let base = of(schedule.base_lrs@[i]);
            let low = base * of(schedule.min_lr_ratio);
            let rate = of(lrs[i]);
            &&& (forall|q: A::Num, c: A::Num| #[trigger]
                call_ensures(cos_pi, (q,), c) ==> of(c) == 1real) ==> rate == base
            &&& (forall|q: A::Num, c: A::Num| #[trigger]
                call_ensures(cos_pi, (q,), c) ==> of(c) == 0real - 1real) ==> rate == low
            &&& low <= base && (forall|q: A::Num, c: A::Num| #[trigger]
                call_ensures(cos_pi, (q,), c) ==> 0real - 1real <= of(c) <= 1real) ==> low <= rate
                <= base
        }),
{
    rate_follows_the_cosine(ar, of, schedule, cos_pi, step, lrs, i);
    let base = of(schedule.base_lrs@[i]);
    let low = base * of(schedule.min_lr_ratio);
    let rate = of(lrs[i]);
    let (q, c) = choose|q: A::Num, c: A::Num|
        {
            &&& #[trigger] call_ensures(cos_pi, (q,), c)
            &&& 2real * (rate - low) == (base - low) * (1real + of(c))
        };
    let (w, k) = (base - low, 1real + of(c));
    if k == 0real {
        assert(w * k == 0real) by (nonlinear_arith)
            requires
                k == 0real,
        ;
    }
    if k == 2real {
        assert(w * k == 2real * w) by (nonlinear_arith)
            requires
                k == 2real,
        ;
    }
    if 0real <= k <= 2real && w >= 0real {
        assert(0real <= w * k <= 2real * w) by (nonlinear_arith)
            requires
                0real <= k <= 2real,
                w >= 0real,
        ;
    }
}

/// While decaying, a later step never has a higher rate, where the cosine never rises with its
/// argument.
pub proof fn decay_never_rises<A: Arith, C: Fn(A::Num) -> A::Num>(
    ar: &A,
    of: spec_fn(A::Num) -> real,
    schedule: CosineScheduler<A::Num>,
    cos_pi: C,
    step: u64,
    later: u64,
    lrs: Seq<A::Num>,
    later_lrs: Seq<A::Num>,
    i: int,
)
    requires
        exact::is_real(ar, of),
        schedule.are_rates(ar, cos_pi, step, lrs),
        schedule.are_rates(ar, cos_pi, later, later_lrs),
        0 <= i < schedule.base_lrs@.len(),
        schedule.warmup_steps <= step <= later < schedule.total_steps,
        of(schedule.base_lrs@[i]) * of(schedule.min_lr_ratio) <= of(schedule.base_lrs@[i]),
        forall|p: A::Num, q: A::Num, c: A::Num, d: A::Num| #[trigger]
            call_ensures(cos_pi, (p,), c) && #[trigger] call_ensures(cos_pi, (q,), d) && of(p)
                <= of(q) ==> of(d) <= of(c),
    ensures
        of(later_lrs[i]) <= of(lrs[i]),
{
    rate_follows_the_cosine(ar, of, schedule, cos_pi, step, lrs, i);
    rate_follows_the_cosine(ar, of, schedule, cos_pi, later, later_lrs, i);
    let base = of(schedule.base_lrs@[i]);
    let low = base * of(schedule.min_lr_ratio);
    let warm = schedule.warmup_steps as int;
    let end = schedule.total_steps as int;
    let (q, c) = choose|q: A::Num, c: A::Num|
        {
            &&& #[trigger] call_ensures(cos_pi, (q,), c)
            &&& of(q) * ((end - warm) as real) == (step - warm) as real
            &&& 2real * (of(lrs[i]) - low) == (base - low) * (1real + of(c))
        };
    let (p, d) = choose|q: A::Num, c: A::Num|
        {
            &&& #[trigger] call_ensures(cos_pi, (q,), c)
            &&& of(q) * ((end - warm) as real) == (later - warm) as real
            &&& 2real * (of(later_lrs[i]) - low) == (base - low) * (1real + of(c))
        };
    let (x, y, n) = (of(q), of(p), (end - warm) as real);
    assert(x <= y) by (nonlinear_arith)
        requires
            x * n <= y * n,
            n > 0real,
    ;
    let (w, j, k) = (base - low, 1real + of(c), 1real + of(d));
    assert(w * k <= w * j) by (nonlinear_arith)
        requires
            k <= j,
            w >= 0real,
    ;
}

} // verus!
