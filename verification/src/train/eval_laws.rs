//! What an evaluation runs, and what it reports.

use crate::arith::Arith;
use crate::data;
use crate::data::{ExampleModel, TokenizedExample};
use crate::exact;
use crate::train::batch_laws;
use crate::train::loss;
use crate::train::trainer;
use crate::train::trainer::{AugmentMode, Batch, EvalOutcome, Evaluator, TaskType, WindowRun};
use vstd::prelude::*;

verus! {

/// The examples from place `from` on, `size` of them or all that are left.
pub open spec fn next_of(all: Seq<ExampleModel>, from: int, size: int) -> Seq<ExampleModel> {
    if from + size <= all.len() {
        all.subrange(from, from + size)
    } else {
        all.subrange(from, all.len() as int)
    }
}

/// What a model made of a batch: its questions under its mask and puzzle numbers give final logits
/// and predictions, and the loss is the cross-entropy of the logits with its answers, in which
/// padding does not count.
pub open spec fn is_model_run<F, P: Evaluator<F>>(
    model: &P,
    b: Batch,
    pad: u32,
    run: WindowRun<F, P::T>,
) -> bool {
    let n = b.examples@.len() as usize;
    &&& call_ensures(P::tokens, (model, &b.x, n, b.max_seq), Ok::<P::T, P::E>(run.x))
    &&& call_ensures(P::tokens, (model, &b.y, n, b.max_seq), Ok::<P::T, P::E>(run.y))
    &&& call_ensures(P::puzzles, (model, &b.p), Ok::<P::T, P::E>(run.p))
    &&& call_ensures(P::mask, (model, &b.blocked, n, b.max_seq), Ok::<P::T, P::E>(run.mask))
    &&& call_ensures(
        P::forward_trace,
        (model, &run.x, b.max_seq, &run.p, &run.mask),
        Ok::<(P::T, P::T), P::E>(run.trace),
    )
    &&& loss::is_cross_entropy(
        model,
        run.trace.0,
        run.y,
        Some(pad),
        Ok::<P::T, P::E>(run.loss),
    )
    &&& call_ensures(P::value, (model, &run.loss), Ok::<F, P::E>(run.value))
    &&& call_ensures(P::rows, (model, &run.trace.1), Ok::<Vec<Vec<u32>>, P::E>(run.rows))
}

/// A model was run on the batch of these examples.
pub open spec fn is_run_on<F, P: Evaluator<F>>(
    model: &P,
    exs: Seq<ExampleModel>,
    pad: u32,
    run: WindowRun<F, P::T>,
) -> bool {
    exists|b: Batch| #[trigger]
        is_model_run::<F, P>(model, b, pad, run) && b@ == trainer::batch_of(exs, pad)
}

/// An evaluation runs the model on all examples, in windows of the size that it was given. Its
/// loss is the mean of their losses. Its shares are those of the predictions of all windows, one
/// after the other, against the answers.
pub proof fn evaluation_goes_window_by_window<A: Arith, P: Evaluator<A::Num>>(
    ar: &A,
    of: spec_fn(A::Num) -> real,
    model: &P,
    val_data: &[TokenizedExample],
    batch_size: usize,
    pad: u32,
    o: EvalOutcome<A::Num>,
) -> (runs: Seq<WindowRun<A::Num, P::T>>)
    requires
        exact::is_real(ar, of),
        batch_size > 0,
        val_data@.len() <= usize::MAX,
        call_ensures(
            trainer::evaluate::<A, P>,
            (ar, model, val_data, batch_size, pad),
            Ok::<EvalOutcome<A::Num>, P::E>(o),
        ),
    ensures
        ({
            let all = Seq::new(val_data@.len(), |i: int| val_data@[i]@);
            let preds = Seq::new(
                runs.len(),
                |k: int| Seq::new(runs[k].rows@.len(), |i: int| runs[k].rows@[i]@),
            ).flatten();
            let targets = trainer::joined_targets(all, batch_size as int, pad, runs.len());
            &&& all.len() <= runs.len() * batch_size < all.len() + batch_size
            &&& forall|k: int|
                0 <= k < runs.len() ==> is_run_on::<A::Num, P>(
                    model,
                    next_of(all, k * batch_size, batch_size as int),
                    pad,
                    #[trigger] runs[k],
                )
            &&& o.exact == loss::exact_share(preds, targets)
            &&& o.token == loss::token_share(preds, targets)
            &&& runs.len() == 0 ==> of(o.loss) == 0real
            &&& runs.len() > 0 ==> of(o.loss) * (runs.len() as int as real) == exact::sum(
                Seq::new(runs.len(), |k: int| of(runs[k].value)),
            )
        }),
{
    let all = Seq::new(val_data@.len(), |i: int| val_data@[i]@);
    assert(data::examples(val_data@) =~= all);
    let size = batch_size as int;
    let count = trainer::window_count(all.len() as int, size);
    let outs = choose|outs: Seq<(A::Num, Vec<Vec<u32>>)>|
        {
            let targets = trainer::joined_targets(all, size, pad, outs.len());
            &&& #[trigger] trainer::are_window_outs::<A::Num, P>(model, all, size, pad, outs)
            &&& outs.len() == count
            &&& o.exact == loss::exact_share(trainer::joined_preds(outs), targets)
            &&& o.token == loss::token_share(trainer::joined_preds(outs), targets)
            &&& trainer::is_mean_loss(ar, trainer::losses_of(outs), o.loss)
        };
    batch_laws::windows_cover_all(all.len() as int, size, count);
    assert(count <= all.len()) by (nonlinear_arith)
        requires
            count * size < all.len() + size,
            size >= 1,
            all.len() >= 0,
    ;
    let runs = Seq::new(
        outs.len(),
        |k: int|
            choose|run: WindowRun<A::Num, P::T>| #[trigger]
                is_run_on::<A::Num, P>(model, next_of(all, k * size, size), pad, run)
                    && run.value == outs[k].0 && run.rows == outs[k].1,
    );
    assert forall|k: int| 0 <= k < outs.len() implies is_run_on::<A::Num, P>(
        model,
        next_of(all, k * size, size),
        pad,
        #[trigger] runs[k],
    ) && runs[k].value == outs[k].0 && runs[k].rows == outs[k].1 by {
        let good = Ok::<(A::Num, Vec<Vec<u32>>), P::E>(outs[k]);
        assert(trainer::is_window_out::<A::Num, P>(model, all, size, pad, k, good));
        let b = choose|b: Batch| #[trigger]
            trainer::is_window_run::<A::Num, P>(model, b, pad, good) && b@ == trainer::batch_of(
                trainer::window(all, size, k),
                pad,
            );
        let (run, n) = choose|run: WindowRun<A::Num, P::T>, n: int|
            #[trigger] trainer::are_window_ops::<A::Num, P>(model, b, pad, run, n) && n == 8
                && outs[k] == (run.value, run.rows);
        window_ran::<A::Num, P>(model, b, pad, run);
        assert(trainer::window(all, size, k) =~= next_of(all, k * size, size));
        assert(is_run_on::<A::Num, P>(model, next_of(all, k * size, size), pad, run));
    }
    let rows = Seq::new(
        runs.len(),
        |k: int| Seq::new(runs[k].rows@.len(), |i: int| runs[k].rows@[i]@),
    );
    assert(rows =~= Seq::new(
        outs.len(),
        |k: int| Seq::new(outs[k].1@.len(), |i: int| outs[k].1@[i]@),
    )) by {
        assert forall|k: int| 0 <= k < outs.len() implies #[trigger] rows[k] == Seq::new(
            outs[k].1@.len(),
            |i: int| outs[k].1@[i]@,
        ) by {
            assert(runs[k].rows == outs[k].1);
        }
    }
    predictions_join(outs);
    let losses = trainer::losses_of(outs);
    batch_laws::evaluation_loss_is_the_mean(ar, of, losses, o.loss);
    assert(Seq::new(losses.len(), |k: int| of(losses[k])) =~= Seq::new(
        runs.len(),
        |k: int| of(runs[k].value),
    )) by {
        assert forall|k: int| 0 <= k < outs.len() implies of(losses[k]) == of(
            (#[trigger] runs[k]).value,
        ) by {
        }
    }
    runs
}

proof fn window_ran<F, P: Evaluator<F>>(
    model: &P,
    b: Batch,
    pad: u32,
    run: WindowRun<F, P::T>,
)
    requires
        trainer::are_window_ops::<F, P>(model, b, pad, run, 8),
    ensures
        is_model_run::<F, P>(model, b, pad, run),
{
    let none = None::<P::E>;
    assert(trainer::is_window_op::<F, P>(model, b, pad, run, 0, none));
    assert(trainer::is_window_op::<F, P>(model, b, pad, run, 1, none));
    assert(trainer::is_window_op::<F, P>(model, b, pad, run, 2, none));
    assert(trainer::is_window_op::<F, P>(model, b, pad, run, 3, none));
    assert(trainer::is_window_op::<F, P>(model, b, pad, run, 4, none));
    assert(trainer::is_window_op::<F, P>(model, b, pad, run, 5, none));
    assert(trainer::is_window_op::<F, P>(model, b, pad, run, 6, none));
    assert(trainer::is_window_op::<F, P>(model, b, pad, run, 7, none));
}

proof fn predictions_join<F>(outs: Seq<(F, Vec<Vec<u32>>)>)
    ensures
        trainer::joined_preds(outs) == Seq::new(
            outs.len(),
            |k: int| Seq::new(outs[k].1@.len(), |i: int| outs[k].1@[i]@),
        ).flatten(),
    decreases outs.len(),
{
    let all = Seq::new(
        outs.len(),
        |k: int| Seq::new(outs[k].1@.len(), |i: int| outs[k].1@[i]@),
    );
    all.lemma_flatten_and_flatten_alt_are_equivalent();
    if outs.len() > 0 {
        let front = outs.drop_last();
        predictions_join(front);
        let before = Seq::new(
            front.len(),
            |k: int| Seq::new(front[k].1@.len(), |i: int| front[k].1@[i]@),
        );
        before.lemma_flatten_and_flatten_alt_are_equivalent();
        assert(all.drop_last() =~= before);
        assert(loss::token_rows(outs.last().1@) =~= all.last());
        assert(trainer::joined_preds(outs) =~= all.flatten());
    } else {
        assert(trainer::joined_preds(outs) =~= all.flatten());
    }
}

/// A run of twice as many epochs has twice as many steps, and each epoch has a hundred.
pub proof fn steps_grow_with_epochs(a: usize, b: usize, x: u64, y: u64)
    requires
        call_ensures(trainer::total_steps, (a,), x),
        call_ensures(trainer::total_steps, (b,), y),
    ensures
        x + y == (a + b) * 100,
{
}

/// Sequences have room for a question, an answer and a latent state, each as long as the longest
/// question: of a sudoku nine times nine, of another puzzle thirty times thirty.
pub proof fn sequences_hold_three_grids(task: TaskType, n: usize)
    requires
        call_ensures(trainer::network_seq_len, (task,), n),
    ensures
        task == TaskType::Sudoku ==> n == 3 * (9 * 9),
        task != TaskType::Sudoku ==> n == 3 * (30 * 30),
{
}

/// Augmentation is off where it is turned off, whatever the puzzle; where it is on, sudokus and
/// only those are permuted.
pub proof fn augmentation_goes_by_the_puzzle(off: bool, task: TaskType, mode: AugmentMode)
    requires
        call_ensures(trainer::augment_mode, (off, task), mode),
    ensures
        mode == AugmentMode::Off <==> off,
        mode == AugmentMode::Sudoku <==> !off && task == TaskType::Sudoku,
{
}

} // verus!
