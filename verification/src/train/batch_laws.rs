//! What batches hold, and what an evaluation compares.

use crate::arith;
use crate::arith::Arith;
use crate::data;
use crate::data::{ArcTask, ExampleModel, TokenizedExample};
use crate::exact;
use crate::train::trainer;
use crate::train::trainer::{AsyncDataLoader, AugmentMode, Augmenter, BatchModel};
use vstd::prelude::*;

verus! {

proof fn cell_in_row(rows: int, n: int, r: int, c: int)
    requires
        0 <= r < rows,
        0 <= c < n,
    ensures
        0 <= r * n + c < rows * n,
        (r * n + c) / n == r,
        (r * n + c) % n == c,
{
    assert(0 <= r * n + c < rows * n) by (nonlinear_arith)
        requires
            0 <= r < rows,
            0 <= c < n,
    ;
    vstd::arithmetic::div_mod::lemma_fundamental_div_mod_converse(r * n + c, n, r, c);
}

/// A batch holds, for example `e`: its question and its answer, cut or padded to the length of the
/// batch, its puzzle number, and a mask that blocks every pair of positions of which one is past
/// its question. The batch is as long as its longest question.
pub proof fn batch_holds_its_examples(exs: Seq<ExampleModel>, pad: u32, b: BatchModel, e: int)
    requires
        b == trainer::batch_of(exs, pad),
        forall|i: int| 0 <= i < exs.len() ==> (#[trigger] exs[i]).x_tokens.len() <= usize::MAX,
        0 <= e < exs.len(),
    ensures
        b.examples == exs,
        b.p.len() == exs.len(),
        b.p[e] == exs[e].puzzle_id,
        b.x.len() == exs.len() * b.max_seq,
        b.y.len() == exs.len() * b.max_seq,
        b.blocked.len() == exs.len() * b.max_seq * b.max_seq,
        exs[e].x_tokens.len() <= b.max_seq,
        exists|i: int| 0 <= i < exs.len() && (#[trigger] exs[i]).x_tokens.len() == b.max_seq,
        forall|c: int|
            0 <= c < b.max_seq ==> #[trigger] b.x[e * b.max_seq + c] == if c
                < exs[e].x_tokens.len() {
                exs[e].x_tokens[c]
            } else {
                pad
            },
        forall|c: int|
            0 <= c < b.max_seq ==> #[trigger] b.y[e * b.max_seq + c] == if c
                < exs[e].y_tokens.len() {
                exs[e].y_tokens[c]
            } else {
                pad
            },
        forall|q: int, k: int|
            0 <= q < b.max_seq && 0 <= k < b.max_seq ==> #[trigger] b.blocked[(e * b.max_seq + q)
                * b.max_seq + k] == (q >= exs[e].x_seq_len || k >= exs[e].x_seq_len),
{
    let n = trainer::longest(exs) as int;
    longest_is_one(exs);
    trainer::longest_covers(exs, e);
    assert(b.max_seq == n);
    assert forall|c: int| 0 <= c < n implies #[trigger] b.x[e * n + c] == if c
        < exs[e].x_tokens.len() {
        exs[e].x_tokens[c]
    } else {
        pad
    } by {
        cell_in_row(exs.len() as int, n, e, c);
    }
    assert forall|c: int| 0 <= c < n implies #[trigger] b.y[e * n + c] == if c
        < exs[e].y_tokens.len() {
        exs[e].y_tokens[c]
    } else {
        pad
    } by {
        cell_in_row(exs.len() as int, n, e, c);
    }
    assert forall|q: int, k: int| 0 <= q < n && 0 <= k < n implies #[trigger] b.blocked[(e * n + q)
        * n + k] == (q >= exs[e].x_seq_len || k >= exs[e].x_seq_len) by {
        cell_in_row(exs.len() as int, n, e, q);
        cell_in_row(exs.len() * n, n, e * n + q, k);
    }
}

proof fn longest_is_one(exs: Seq<ExampleModel>)
    requires
        exs.len() > 0,
    ensures
        exists|i: int|
            0 <= i < exs.len() && (#[trigger] exs[i]).x_tokens.len() == trainer::longest(exs),
    decreases exs.len(),
{
    if exs.len() == 1 {
        assert(exs[0].x_tokens.len() == trainer::longest(exs));
    } else {
        let front = exs.drop_last();
        longest_is_one(front);
        let i = choose|i: int|
            0 <= i < front.len() && (#[trigger] front[i]).x_tokens.len() == trainer::longest(
                front,
            );
        assert(exs[i] == front[i]);
        assert(exs[exs.len() - 1] == exs.last());
    }
}

/// The examples of an evaluation fall into windows of `size`, the last of which may be shorter:
/// all of them are used, and none but the last window is short.
pub proof fn windows_cover_all(n: int, size: int, count: int)
    requires
        0 <= n,
        0 < size,
        count == trainer::window_count(n, size),
    ensures
        n <= count * size < n + size,
{
    vstd::arithmetic::div_mod::lemma_fundamental_div_mod(n + size - 1, size);
    vstd::arithmetic::div_mod::lemma_mod_bound(n + size - 1, size);
    assert(count * size == size * count) by (nonlinear_arith);
}

proof fn targets_so_far(all: Seq<ExampleModel>, size: int, pad: u32, k: int)
    requires
        0 < size,
        0 <= k <= trainer::window_count(all.len() as int, size),
    ensures
        ({
            let done = if k * size < all.len() {
                k * size
            } else {
                all.len() as int
            };
            let t = trainer::joined_targets(all, size, pad, k as nat);
            &&& t.len() == done
            &&& forall|i: int|
                0 <= i < done ==> #[trigger] t[i] == answer_of(all, size, pad, i)
        }),
    decreases k,
{
    let n = all.len() as int;
    windows_cover_all(n, size, trainer::window_count(n, size));
    if k == 0 {
        assert(0 * size == 0) by (nonlinear_arith);
    } else {
        targets_so_far(all, size, pad, k - 1);
        let from = (k - 1) * size;
        assert(k * size == from + size) by (nonlinear_arith)
            requires
                from == (k - 1) * size,
        ;
        let count = trainer::window_count(n, size);
        assert(from < n) by (nonlinear_arith)
            requires
                from == (k - 1) * size,
                k <= count,
                count * size < n + size,
                0 < size,
        ;
        assert(0 <= from) by (nonlinear_arith)
            requires
                from == (k - 1) * size,
                k >= 1,
                0 < size,
        ;
        let win = trainer::window(all, size, k - 1);
        let t = trainer::joined_targets(all, size, pad, k as nat);
        let before = trainer::joined_targets(all, size, pad, (k - 1) as nat);
        let more = trainer::window_targets(win, pad);
        assert(t == before + more);
        assert forall|i: int| 0 <= i < t.len() implies #[trigger] t[i] == answer_of(
            all,
            size,
            pad,
            i,
        ) by {
            if i < from {
                assert(t[i] == before[i]);
            } else {
                let j = i - from;
                vstd::arithmetic::div_mod::lemma_fundamental_div_mod_converse(
                    i,
                    size,
                    k - 1,
                    j,
                );
                assert((k - 1) * size == size * (k - 1)) by (nonlinear_arith);
                assert(win[j] == all[i]);
                assert(t[i] == more[j]);
                assert(more[j] =~= answer_of(all, size, pad, i));
            }
        }
    }
}

/// The examples that share a window of `size` with example `i`.
pub open spec fn company(all: Seq<ExampleModel>, size: int, i: int) -> Seq<ExampleModel> {
    let from = i / size * size;
    all.subrange(
        from,
        if from + size < all.len() {
            from + size
        } else {
            all.len() as int
        },
    )
}

/// The answer of example `i`, cut or padded to the longest question of its window.
pub open spec fn answer_of(all: Seq<ExampleModel>, size: int, pad: u32, i: int) -> Seq<u32> {
    Seq::new(
        trainer::longest(company(all, size, i)),
        |c: int|
            if c < all[i].y_tokens.len() {
                all[i].y_tokens[c]
            } else {
                pad
            },
    )
}

/// An evaluation compares with the answers of all examples in order, each once: what stands at
/// place `i` is the answer of example `i`, cut or padded to the longest question of its window.
pub proof fn evaluation_compares_with_the_answers(
    all: Seq<ExampleModel>,
    size: int,
    pad: u32,
    targets: Seq<Seq<u32>>,
    i: int,
)
    requires
        0 < size,
        0 <= i < all.len(),
        targets == trainer::joined_targets(
            all,
            size,
            pad,
            trainer::window_count(all.len() as int, size) as nat,
        ),
    ensures
        targets.len() == all.len(),
        forall|c: int|
            0 <= c < targets[i].len() ==> #[trigger] targets[i][c] == if c
                < all[i].y_tokens.len() {
                all[i].y_tokens[c]
            } else {
                pad
            },
{
    let count = trainer::window_count(all.len() as int, size);
    windows_cover_all(all.len() as int, size, count);
    assert(count >= 0) by (nonlinear_arith)
        requires
            count * size >= 0,
            0 < size,
    ;
    targets_so_far(all, size, pad, count);
}

/// The loss of an evaluation is the mean of the losses of its windows: times how many there are,
/// it is their sum.
pub proof fn evaluation_loss_is_the_mean<A: Arith>(
    ar: &A,
    of: spec_fn(A::Num) -> real,
    losses: Seq<A::Num>,
    avg: A::Num,
)
    requires
        exact::is_real(ar, of),
        losses.len() <= usize::MAX,
        trainer::is_mean_loss(ar, losses, avg),
    ensures
        losses.len() == 0 ==> of(avg) == 0real,
        losses.len() > 0 ==> of(avg) * (losses.len() as int as real) == exact::sum(
            Seq::new(losses.len(), |i: int| of(losses[i])),
        ),
{
    let (zero, total, n) = choose|zero: A::Num, total: A::Num, n: A::Num|
        {
            &&& arith::is_whole(ar, 0, zero)
            &&& #[trigger] arith::is_total(ar, zero, losses, total)
            &&& arith::is_whole(
                ar,
                if losses.len() > 1 {
                    losses.len() as int
                } else {
                    1
                },
                n,
            )
            &&& #[trigger] arith::is_quotient(ar, total, n, avg)
        };
    exact::totals_stand(ar, of, zero, losses, total);
    let (x, t, k) = (of(avg), of(total), of(n));
    assert(x * k == t) by (nonlinear_arith)
        requires
            x == t / k,
            k >= 1real,
    ;
    if losses.len() == 0 {
        assert(x * 1real == x) by (nonlinear_arith);
    }
}

/// Without augmentation a micro-batch holds the examples that come next in the order of the
/// epoch, unchanged: as many as a micro-batch takes, or all that are left.
pub proof fn plain_batches_follow_the_order<G: Augmenter>(
    aug: &G,
    l: AsyncDataLoader,
    to: int,
    state: Seq<u64>,
    exs: Seq<ExampleModel>,
    after: Seq<u64>,
)
    requires
        l.wf(),
        l.next < l.order@.len(),
        to == trainer::chunk_end(l.next as int, l.micro_batch as int, l.order@.len() as int),
        trainer::leads_to(
            aug,
            AugmentMode::Off,
            l.chunk(l.next as int, to),
            state,
            exs,
            after,
        ),
    ensures
        exs.len() == to - l.next,
        to - l.next == l.micro_batch || to == l.order@.len() && 0 < to - l.next < l.micro_batch,
        to <= l.order@.len(),
        forall|i: int|
            0 <= i < exs.len() ==> #[trigger] exs[i] == l.data@[l.order@[l.next + i] as int]@,
        after == state,
{
    let chunk = l.chunk(l.next as int, to);
    let states = choose|states: Seq<Seq<u64>>|
        {
            &&& #[trigger] trainer::are_augmented(aug, AugmentMode::Off, chunk, states, exs)
            &&& states[0] == state
            &&& states[chunk.len() as int] == after
        };
    assert forall|i: int| 0 <= i < exs.len() implies #[trigger] exs[i]
        == l.data@[l.order@[l.next + i] as int]@ by {
        assert(chunk[i] == chunk[i]);
    }
    unmoved(aug, chunk, states, exs, chunk.len() as int);
}

proof fn unmoved<G: Augmenter>(
    aug: &G,
    chunk: Seq<ExampleModel>,
    states: Seq<Seq<u64>>,
    exs: Seq<ExampleModel>,
    k: int,
)
    requires
        trainer::are_augmented(aug, AugmentMode::Off, chunk, states, exs),
        0 <= k <= chunk.len(),
    ensures
        states[k] == states[0],
    decreases k,
{
    if k > 0 {
        unmoved(aug, chunk, states, exs, k - 1);
        assert(chunk[k - 1] == chunk[k - 1]);
    }
}

/// Nine tenths of the examples, rounded down, go to training, so that of ten more examples nine
/// more do.
pub proof fn nine_of_ten_more_train(n: usize, r: usize, more: usize)
    requires
        n + 10 <= usize::MAX,
        call_ensures(trainer::train_split, (n,), r),
        call_ensures(trainer::train_split, ((n + 10) as usize,), more),
    ensures
        10 * r <= 9 * n < 10 * (r + 1),
        more == r + 9,
{
}

/// A list is parted in order, with nothing lost: nine tenths of it, rounded down, come first.
pub proof fn list_is_parted_at_nine_tenths<T>(all: Vec<T>, train: Vec<T>, val: Vec<T>)
    requires
        call_ensures(trainer::split_list::<T>, (all,), (train, val)),
    ensures
        train@ + val@ == all@,
        10 * train@.len() <= 9 * all@.len() < 10 * (train@.len() + 1),
{
}

/// Whole tasks are parted: with `k` for nine tenths of the tasks, rounded down, the first `k` give
/// all training examples and the others all that are left for validation.
pub proof fn tasks_are_parted_whole(
    tasks: Vec<(String, ArcTask)>,
    train: Vec<TokenizedExample>,
    val: Vec<TokenizedExample>,
) -> (k: int)
    requires
        call_ensures(trainer::split_tasks, (tasks,), (train, val)),
    ensures
        10 * k <= 9 * tasks@.len() < 10 * (k + 1),
        data::examples(train@) == data::tasks_examples(tasks@.take(k)),
        data::examples(val@) == data::tasks_examples(tasks@.skip(k)),
{
    trainer::train_count(tasks@.len() as int)
}

} // verus!
