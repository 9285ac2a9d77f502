//! What a run does with its epochs, and what it makes of examples and losses.

use crate::arith;
use crate::arith::Arith;
use crate::data;
use crate::data::{ExampleModel, Grid};
use crate::exact;
use crate::task_eval_laws;
use crate::text;
use crate::text_laws;
use crate::train::gradient;
use crate::train::gradient::{Backprop, BatchRun, BatchSettings, DeqRun};
use crate::train::loss;
use crate::train::loss::DsWeightScheme;
use crate::train::loss_laws;
use crate::train::loss_laws::Costs;
use crate::train::session::{Session, Stage};
use crate::train::trainer;
use crate::train::trainer::{AsyncDataLoader, AugmentMode, Augmenter};
use vstd::prelude::*;

verus! {

/// With epochs counted from one, an epoch is evaluated exactly where its number is a multiple of
/// the evaluation interval. Where it is not, it is saved exactly where its number is a multiple of
/// the checkpoint interval, and otherwise the next epoch is trained, or, after the last one, the
/// final checkpoint is saved.
pub proof fn training_leads_on<F>(s: Session<F>, next: Session<F>)
    requires
        s.wf(),
        s.stage == Stage::Train,
        next == s.after_training(),
    ensures
        ({
            let done = s.meta.epoch + 1;
            let eval = done % s.eval_every as int == 0;
            let save = done % s.save_every as int == 0;
            &&& eval ==> next == (Session { stage: Stage::Evaluate, ..s })
            &&& !eval ==> leads_past(s, next, done, save)
        }),
{
}

/// What follows an epoch that has been trained and, where that was due, evaluated.
pub open spec fn leads_past<F>(s: Session<F>, next: Session<F>, done: int, save: bool) -> bool {
    &&& next.max_epochs == s.max_epochs && next.eval_every == s.eval_every && next.save_every
        == s.save_every && next.batch_size == s.batch_size
    &&& next.meta.best_val_acc == s.meta.best_val_acc
    &&& next.meta.global_step == s.meta.global_step
    &&& save ==> next.stage == Stage::SaveEpoch && next.meta.epoch == s.meta.epoch
        && next.meta.current_batch_size == s.batch_size
    &&& !save && done < s.max_epochs ==> next.stage == Stage::Train && next.meta.epoch == done
    &&& !save && done >= s.max_epochs ==> next.stage == Stage::SaveFinal && next.meta.epoch
        == s.meta.epoch
}

/// An evaluation that beats the best accuracy so far is recorded as the best and saved as such;
/// any other one changes no record. Either way the best accuracy becomes the larger of the two.
pub proof fn evaluation_keeps_the_best<A: Arith>(
    ar: &A,
    of: spec_fn(A::Num) -> real,
    s: Session<A::Num>,
    accuracy: A::Num,
    best: bool,
    next: Session<A::Num>,
)
    requires
        exact::is_real(ar, of),
        s.wf(),
        s.stage == Stage::Evaluate,
        arith::is_exceeds(ar, accuracy, s.meta.best_val_acc, best),
        next == s.after_evaluation(accuracy, best),
    ensures
        of(accuracy) > of(s.meta.best_val_acc) ==> next.stage == Stage::SaveBest
            && next.meta.best_val_acc == accuracy && next.meta.epoch == s.meta.epoch,
        of(accuracy) <= of(s.meta.best_val_acc) ==> leads_past(
            s,
            next,
            s.meta.epoch + 1,
            (s.meta.epoch + 1) % s.save_every as int == 0,
        ),
        of(next.meta.best_val_acc) >= of(accuracy),
        of(next.meta.best_val_acc) >= of(s.meta.best_val_acc),
{
}

/// After the best weights have been saved the epoch goes on as after any evaluation; after its own
/// checkpoint the next epoch is trained, or the final checkpoint saved; after that one the run is
/// done.
pub proof fn saving_leads_on<F>(s: Session<F>, next: Session<F>)
    requires
        s.wf(),
        s.stage == Stage::SaveBest || s.stage == Stage::SaveEpoch || s.stage == Stage::SaveFinal,
        next == s.after_save(),
    ensures
        s.stage == Stage::SaveBest ==> leads_past(
            s,
            next,
            s.meta.epoch + 1,
            (s.meta.epoch + 1) % s.save_every as int == 0,
        ),
        s.stage == Stage::SaveEpoch ==> leads_past(s, next, s.meta.epoch + 1, false),
        s.stage == Stage::SaveFinal ==> next == (Session { stage: Stage::Done, ..s }),
{
}

/// The best weights are saved under a tag of their own, those after an epoch under its number,
/// counted from one, and the last ones under a tag of their own.
pub proof fn tags_tell_what_is_saved<F>(s: Session<F>)
    requires
        s.wf(),
    ensures
        s.stage == Stage::SaveBest ==> s.tag() == "best"@,
        s.stage == Stage::SaveFinal ==> s.tag() == "final"@,
        s.stage == Stage::SaveEpoch ==> exists|digits: Seq<char>|
            s.tag() == "epoch_"@ + digits && #[trigger] text_laws::value(digits) == s.meta.epoch
                + 1,
{
    let n = (s.meta.epoch + 1) as nat;
    text_laws::digits_write_the_number(n);
    assert(text_laws::value(text::decimal(n)) == n);
}

/// What an augmenter makes of a puzzle and its solution, as functions of their cells.
pub struct Changes {
    /// A sudoku and its solution, permuted together.
    pub sudoku: spec_fn(Seq<Seq<u8>>, Seq<Seq<u8>>) -> (Seq<Seq<u8>>, Seq<Seq<u8>>),
    /// The variants of the puzzle of that number and of its solution.
    pub variants: spec_fn(u32, Seq<Seq<u8>>, Seq<Seq<u8>>) -> Seq<(Seq<Seq<u8>>, Seq<Seq<u8>>)>,
}

/// The augmenter works by these functions.
pub open spec fn changes_by<G: Augmenter>(aug: &G, c: Changes) -> bool {
    &&& forall|x: &Grid, y: &Grid, pair: (Grid, Grid)| #[trigger]
        call_ensures(G::sudoku_pair, (aug, x, y), pair) ==> (
            task_eval_laws::cells(pair.0),
            task_eval_laws::cells(pair.1),
        ) == (c.sudoku)(task_eval_laws::cells(*x), task_eval_laws::cells(*y))
    &&& forall|id: u32, x: &Grid, y: &Grid, list: Vec<(Grid, Grid)>| #[trigger]
        call_ensures(G::variants, (aug, id, x, y), list) ==> Seq::new(
            list@.len(),
            |i: int| (task_eval_laws::cells(list@[i].0), task_eval_laws::cells(list@[i].1)),
        ) == (c.variants)(id, task_eval_laws::cells(*x), task_eval_laws::cells(*y))
}

/// Tokens as a grid of that shape, row by row; what is missing is 0.
pub open spec fn as_grid(tokens: Seq<u32>, rows: int, cols: int) -> Seq<Seq<u8>> {
    Seq::new(
        rows as nat,
        |r: int|
            Seq::new(
                cols as nat,
                |k: int|
                    if r * cols + k < tokens.len() {
                        tokens[r * cols + k] as u8
                    } else {
                        0
                    },
            ),
    )
}

/// Question and answer hold the tokens of the pair that a generator in that state picks.
pub open spec fn is_picked(
    list: Seq<(Seq<Seq<u8>>, Seq<Seq<u8>>)>,
    state: Seq<u64>,
    out: ExampleModel,
    after: Seq<u64>,
) -> bool {
    let p = trainer::picked(list.len(), state);
    &&& 0 <= p.0 < list.len()
    &&& out.x_tokens == task_eval_laws::in_a_row(list[p.0].0)
    &&& out.y_tokens == task_eval_laws::in_a_row(list[p.0].1)
    &&& after == p.1
}

proof fn grid_cells(tokens: Seq<u32>, rows: int, cols: int, g: Grid)
    requires
        0 <= rows,
        0 <= cols,
        data::is_detokenized(tokens, rows, cols, g),
    ensures
        task_eval_laws::cells(g) == as_grid(tokens, rows, cols),
{
    let got = task_eval_laws::cells(g);
    let want = as_grid(tokens, rows, cols);
    assert forall|r: int| 0 <= r < rows implies #[trigger] got[r] == want[r] by {
        assert(g@[r]@.len() == cols);
        assert forall|k: int| 0 <= k < cols implies #[trigger] got[r][k] == want[r][k] by {
            assert(g@[r]@[k] == data::colour_at(tokens, r * cols + k));
        }
        assert(got[r] =~= want[r]);
    }
    assert(got =~= want);
}

/// What augmentation makes of an example: nothing where it is off. Otherwise question and answer
/// are laid out in the shape of the example and changed together, as one pair: a sudoku by its
/// permutation, any other puzzle by the variant that the generator picks. Number and shape of the
/// puzzle stay, and the lengths are those of the new tokens.
pub proof fn augmentation_changes_pairs<G: Augmenter>(
    aug: &G,
    c: Changes,
    mode: AugmentMode,
    ex: ExampleModel,
    state: Seq<u64>,
    out: ExampleModel,
    after: Seq<u64>,
)
    requires
        changes_by(aug, c),
        trainer::is_augmented(aug, mode, ex, state, out, after),
    ensures
        ({
            let x = as_grid(ex.x_tokens, ex.rows as int, ex.cols as int);
            let y = as_grid(ex.y_tokens, ex.rows as int, ex.cols as int);
            match mode {
                AugmentMode::Off => out == ex,
                AugmentMode::Sudoku => {
                    &&& out.x_tokens == task_eval_laws::in_a_row((c.sudoku)(x, y).0)
                    &&& out.y_tokens == task_eval_laws::in_a_row((c.sudoku)(x, y).1)
                },
                AugmentMode::Cached => is_picked(
                    (c.variants)(ex.puzzle_id, x, y),
                    state,
                    out,
                    after,
                ),
            }
        }),
        out.puzzle_id == ex.puzzle_id,
        out.rows == ex.rows,
        out.cols == ex.cols,
        mode != AugmentMode::Off ==> out.x_seq_len == out.x_tokens.len() as usize && out.y_seq_len
            == out.y_tokens.len() as usize,
{
    let (h, w) = (ex.rows as int, ex.cols as int);
    match mode {
        AugmentMode::Off => {},
        AugmentMode::Sudoku => {
            let (x, y, pair) = choose|x: Grid, y: Grid, pair: (Grid, Grid)|
                {
                    &&& trainer::are_grids(ex, x, y)
                    &&& #[trigger] call_ensures(G::sudoku_pair, (aug, &x, &y), pair)
                    &&& out == trainer::regridded(ex, pair.0, pair.1)
                };
            grid_cells(ex.x_tokens, h, w, x);
            grid_cells(ex.y_tokens, h, w, y);
            pair_tokens(pair.0);
            pair_tokens(pair.1);
        },
        AugmentMode::Cached => {
            let (x, y, list) = choose|x: Grid, y: Grid, list: Vec<(Grid, Grid)>|
                {
                    let p = trainer::picked(list@.len(), state);
                    &&& trainer::are_grids(ex, x, y)
                    &&& #[trigger] call_ensures(G::variants, (aug, ex.puzzle_id, &x, &y), list)
                    &&& 0 <= p.0 < list@.len()
                    &&& out == trainer::regridded(ex, list@[p.0].0, list@[p.0].1)
                    &&& after == p.1
                };
            grid_cells(ex.x_tokens, h, w, x);
            grid_cells(ex.y_tokens, h, w, y);
            let i = trainer::picked(list@.len(), state).0;
            let all = (c.variants)(
                ex.puzzle_id,
                as_grid(ex.x_tokens, h, w),
                as_grid(ex.y_tokens, h, w),
            );
            pair_tokens(list@[i].0);
            pair_tokens(list@[i].1);
            assert(all[i] == (
                task_eval_laws::cells(list@[i].0),
                task_eval_laws::cells(list@[i].1),
            ));
        },
    }
}

/// The examples of a micro-batch are those that come next in the order of the epoch, each one
/// augmented on its own, with the generator in the state that the one before it left.
pub proof fn batches_augment_in_turn<G: Augmenter>(
    aug: &G,
    l: AsyncDataLoader,
    mode: AugmentMode,
    to: int,
    state: Seq<u64>,
    exs: Seq<ExampleModel>,
    after: Seq<u64>,
) -> (states: Seq<Seq<u64>>)
    requires
        l.wf(),
        l.next < l.order@.len(),
        to == trainer::chunk_end(l.next as int, l.micro_batch as int, l.order@.len() as int),
        trainer::leads_to(aug, mode, l.chunk(l.next as int, to), state, exs, after),
    ensures
        exs.len() == to - l.next,
        to - l.next == l.micro_batch || to == l.order@.len() && 0 < to - l.next < l.micro_batch,
        states.len() == exs.len() + 1,
        states[0] == state,
        states.last() == after,
        forall|i: int|
            0 <= i < exs.len() ==> trainer::is_augmented(
                aug,
                mode,
                l.data@[l.order@[l.next + i] as int]@,
                states[i],
                #[trigger] exs[i],
                states[i + 1],
            ),
{
    let chunk = l.chunk(l.next as int, to);
    let states = choose|states: Seq<Seq<u64>>|
        {
            &&& #[trigger] trainer::are_augmented(aug, mode, chunk, states, exs)
            &&& states[0] == state
            &&& states[chunk.len() as int] == after
        };
    assert forall|i: int| 0 <= i < exs.len() implies trainer::is_augmented(
        aug,
        mode,
        l.data@[l.order@[l.next + i] as int]@,
        states[i],
        #[trigger] exs[i],
        states[i + 1],
    ) by {
        assert(chunk[i] == l.data@[l.order@[l.next + i] as int]@);
    }
    states
}

proof fn pair_tokens(g: Grid)
    ensures
        data::grid_tokens(data::rows_of(g)) == task_eval_laws::in_a_row(task_eval_laws::cells(g)),
{
    assert(data::rows_of(g) =~= task_eval_laws::cells(g));
    task_eval_laws::flat_tokens(task_eval_laws::cells(g));
}

/// The loss of a batch is its deep supervision loss plus its cost of pondering. Where no fixed
/// point is solved for, the gradients are those of that loss times the share of the batch.
pub proof fn batch_loss_adds_pondering<M: Backprop>(
    m: &M,
    c: Costs<M::T, M::W>,
    input: M::Input,
    targets: M::T,
    set: BatchSettings<M::W>,
    value: M::Value,
    grads: M::Grads,
) -> (r: (gradient::Trace<M::T>, Seq<M::W>, M::T, M::T, M::T))
    requires
        loss_laws::are_real_losses(m, c),
        forall|t: gradient::Trace<M::T>| #[trigger]
            call_ensures(M::forward_trace, (m, &input), Ok::<gradient::Trace<M::T>, M::E>(t))
                ==> t.steps@.len() <= usize::MAX,
        gradient::is_batch_result(m, input, targets, set, Ok((value, grads))),
    ensures
        ({
            let (trace, ws, ce, halt, total) = r;
            let n = trace.steps@.len();
            &&& call_ensures(
                M::forward_trace,
                (m, &input),
                Ok::<gradient::Trace<M::T>, M::E>(trace),
            )
            &&& ws.len() == n
            &&& forall|i: int|
                0 <= i < n ==> if set.scheme == DsWeightScheme::Uniform {
                    (c.weight)(#[trigger] ws[i]) * (n as int as real) == 1real
                } else {
                    call_ensures(
                        M::weight,
                        (m, loss::supervision_weight(set.scheme, n as int, i)),
                        ws[i],
                    )
                }
            &&& loss::is_supervision_loss(
                m,
                targets,
                Some(set.blank),
                trace.steps@,
                ws,
                Ok::<M::T, M::E>(ce),
            )
            &&& loss::is_ponder_loss(
                m,
                trace.halt_probs@,
                set.halt_lambda,
                Ok::<M::T, M::E>(halt),
            )
            &&& (c.of)(total)[0] == (c.of)(ce)[0] + (c.of)(halt)[0]
            &&& call_ensures(M::value, (m, &total), Ok::<M::Value, M::E>(value))
            &&& set.use_deq ==> gradient::is_deq_gradient(
                m,
                input,
                targets,
                Some(set.blank),
                trace.y_final,
                trace.z_final,
                set.grad_scale,
                Ok(grads),
            )
            &&& !set.use_deq ==> exists|scaled: M::T|
                {
                    &&& #[trigger] call_ensures(
                        M::backward,
                        (m, &scaled),
                        Ok::<M::Grads, M::E>(grads),
                    )
                    &&& (c.of)(scaled)[0] == (c.of)(total)[0] * (c.weight)(set.grad_scale)
                }
        }),
{
    let (run, k) = choose|run: BatchRun<M::T, M::Value>, k: int|
        {
            &&& #[trigger] gradient::are_batch_ops(m, input, targets, set, run, k)
            &&& k == 5
            &&& value == run.value
            &&& gradient::is_batch_gradient(m, input, targets, set, run, Ok(grads))
        };
    let none = None::<M::E>;
    assert(gradient::is_batch_op(m, input, targets, set, run, 0, none));
    assert(gradient::is_batch_op(m, input, targets, set, run, 1, none));
    assert(gradient::is_batch_op(m, input, targets, set, run, 2, none));
    assert(gradient::is_batch_op(m, input, targets, set, run, 3, none));
    assert(gradient::is_batch_op(m, input, targets, set, run, 4, none));
    if !set.use_deq {
        let good = Ok::<M::Grads, gradient::GradError<M::E>>(grads);
        let s = choose|s: Result<M::T, M::E>| #[trigger]
            call_ensures(M::weighed, (m, &run.total, set.grad_scale), s) && match s {
                Ok(s) => gradient::is_backward(m, s, good),
                Err(e) => good == Err::<M::Grads, gradient::GradError<M::E>>(
                    gradient::GradError::Tensor(e),
                ),
            };
        let scaled = s->Ok_0;
        assert(call_ensures(M::backward, (m, &scaled), Ok::<M::Grads, M::E>(grads)));
    }
    let n = run.trace.steps@.len();
    let ws = choose|ws: Seq<M::W>| #[trigger]
        gradient::are_scheme_weights(m, set.scheme, n, ws) && loss::is_supervision_loss(
            m,
            targets,
            Some(set.blank),
            run.trace.steps@,
            ws,
            Ok::<M::T, M::E>(run.ce),
        );
    (run.trace, ws, run.ce, run.halt, run.total)
}

/// The gradients through a fixed point: the cross-entropy of what the answer decodes to, times
/// the share of the batch, is differentiated by the answer. That gradient, with zeros for the
/// latent state, is carried through the fixed point of answer and latent state. The gradients are
/// those of the sum of its products with one more application of the transition, for the same
/// questions and mask.
pub proof fn fixed_point_is_differentiated<M: Backprop>(
    m: &M,
    c: Costs<M::T, M::W>,
    input: M::Input,
    targets: M::T,
    ignored: Option<u32>,
    y: M::T,
    z: M::T,
    scale: M::W,
    grads: M::Grads,
) -> (run: DeqRun<M::T, M::Grads>)
    requires
        loss_laws::are_real_losses(m, c),
        gradient::is_deq_gradient(m, input, targets, ignored, y, z, scale, Ok(grads)),
    ensures
        call_ensures(M::variable, (m, &y), Ok::<M::T, M::E>(run.y_var)),
        call_ensures(M::decode, (m, &run.y_var), Ok::<M::T, M::E>(run.logits)),
        loss::is_cross_entropy(m, run.logits, targets, ignored, Ok::<M::T, M::E>(run.loss)),
        (c.of)(run.scaled)[0] == (c.of)(run.loss)[0] * (c.weight)(scale),
        call_ensures(M::backward, (m, &run.scaled), Ok::<M::Grads, M::E>(run.y_grads)),
        call_ensures(M::gradient, (m, &run.y_grads, &run.y_var), Some(run.grad_y)),
        call_ensures(M::zeros_like, (m, &z), Ok::<M::T, M::E>(run.grad_z)),
        call_ensures(
            M::joined,
            (m, &run.grad_y, &run.grad_z),
            Ok::<M::T, M::E>(run.grad_state),
        ),
        call_ensures(M::joined, (m, &y, &z), Ok::<M::T, M::E>(run.fixed)),
        call_ensures(M::question_dims, (m, &input), Ok::<(usize, usize), M::E>(run.dims)),
        call_ensures(M::embed_question, (m, &input), Ok::<M::T, M::E>(run.x_emb)),
        call_ensures(
            M::expand_attn_mask,
            (m, &input, run.dims),
            Ok::<Option<M::T>, M::E>(run.mask),
        ),
        call_ensures(
            M::implicit_gradient,
            (m, &input, run.dims, &run.x_emb, &run.mask, &run.fixed, &run.grad_state),
            Ok::<M::T, M::E>(run.u),
        ),
        call_ensures(
            M::deq_transition,
            (m, &input, run.dims, &run.x_emb, &run.mask, &run.fixed),
            Ok::<M::T, M::E>(run.f_val),
        ),
        (c.of)(run.dot)[0] == exact::sum(
            Seq::new(
                (c.of)(run.u).len(),
                |i: int| (c.of)(run.u)[i] * (c.of)(run.f_val)[i],
            ),
        ),
        call_ensures(M::backward, (m, &run.dot), Ok::<M::Grads, M::E>(grads)),
{
    let (run, k) = choose|run: DeqRun<M::T, M::Grads>, k: int|
        {
            &&& #[trigger] gradient::are_deq_ops(
                m,
                input,
                targets,
                ignored,
                y,
                z,
                scale,
                run,
                k,
            )
            &&& k == 16 && grads == run.grads
        };
    let none = None::<M::E>;
    assert(gradient::is_deq_op(m, input, targets, ignored, y, z, scale, run, 0, none));
    assert(gradient::is_deq_op(m, input, targets, ignored, y, z, scale, run, 1, none));
    assert(gradient::is_deq_op(m, input, targets, ignored, y, z, scale, run, 2, none));
    assert(gradient::is_deq_op(m, input, targets, ignored, y, z, scale, run, 3, none));
    assert(gradient::is_deq_op(m, input, targets, ignored, y, z, scale, run, 4, none));
    assert(gradient::is_deq_op(m, input, targets, ignored, y, z, scale, run, 5, none));
    assert(gradient::is_deq_op(m, input, targets, ignored, y, z, scale, run, 6, none));
    assert(gradient::is_deq_op(m, input, targets, ignored, y, z, scale, run, 7, none));
    assert(gradient::is_deq_op(m, input, targets, ignored, y, z, scale, run, 8, none));
    assert(gradient::is_deq_op(m, input, targets, ignored, y, z, scale, run, 9, none));
    assert(gradient::is_deq_op(m, input, targets, ignored, y, z, scale, run, 10, none));
    assert(gradient::is_deq_op(m, input, targets, ignored, y, z, scale, run, 11, none));
    assert(gradient::is_deq_op(m, input, targets, ignored, y, z, scale, run, 12, none));
    assert(gradient::is_deq_op(m, input, targets, ignored, y, z, scale, run, 13, none));
    assert(gradient::is_deq_op(m, input, targets, ignored, y, z, scale, run, 14, none));
    assert(gradient::is_deq_op(m, input, targets, ignored, y, z, scale, run, 15, none));
    run
}

} // verus!
