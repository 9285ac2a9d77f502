//! Batches, the training loop's bookkeeping and evaluation.

use crate::arith;
use crate::arith::Arith;
use crate::copy::copy_vec;
use crate::data;
use crate::data::{
    arc_training_examples, detokenize_grid, pad_tokens, tokenize_grid, ArcTask, ExampleModel, Grid,
    TokenizedExample,
};
use crate::grid;
use crate::named::str_same;
use crate::network::NetworkVariant;
use crate::exact;
use crate::outcome;
use crate::ratio::Ratio;
use crate::train::loss;
use crate::train::loss::{DsWeightScheme, LossMath};
use rand::rngs::StdRng;
use rand::seq::SliceRandom;
use rand::SeedableRng;
use vstd::prelude::*;

verus! {

/// The kind of puzzle to train on.
#[derive(Debug, Clone, Copy, PartialEq, Eq, Structural)]
pub enum TaskType {
    Arc,
    Sudoku,
    Maze,
}

/// The rates and factors of a run.
#[derive(Debug, Clone, Copy)]
pub struct Rates<F> {
    pub base_lr: F,
    pub puzzle_lr: F,
    pub weight_decay: F,
    pub puzzle_wd: F,
    pub grad_clip: F,
    pub ema_decay: F,
    pub halt_lambda: F,
}

/// How a run is trained. `F` is the type of rates and factors.
#[derive(Debug, Clone)]
pub struct TrainConfig<F> {
    pub data_dir: String,
    pub task_type: TaskType,
    pub n_augmentations_train: usize,
    pub n_augmentations_eval: usize,
    pub aug_seed: u64,
    pub batch_size: usize,
    pub micro_batch_size: usize,
    pub max_tokens_per_batch: usize,
    pub base_lr: F,
    pub puzzle_lr: F,
    pub weight_decay: F,
    pub puzzle_wd: F,
    pub grad_clip: F,
    pub warmup_steps: u64,
    pub max_epochs: usize,
    pub eval_every_epochs: usize,
    pub save_every_epochs: usize,
    pub log_every_steps: usize,
    pub ema_decay: F,
    pub ema_warmup: u64,
    pub ds_weight_scheme: DsWeightScheme,
    pub halt_lambda: F,
    pub checkpoint_dir: String,
    pub resume_tag: Option<String>,
    pub use_fp16: bool,
    pub seed: u64,
    pub no_augment: bool,
    pub num_data_workers: usize,
}

impl<F> TrainConfig<F> {
    /// The standard run, at those rates.
    pub fn standard(rates: Rates<F>) -> (r: Self)
        ensures
            r.data_dir@ == "data"@,
            r.task_type == TaskType::Arc,
            r.n_augmentations_train == 8,
            r.n_augmentations_eval == 100,
            r.aug_seed == 42,
            r.batch_size == 32,
            r.micro_batch_size == 4,
            r.max_tokens_per_batch == 28800,
            r.base_lr == rates.base_lr,
            r.puzzle_lr == rates.puzzle_lr,
            r.weight_decay == rates.weight_decay,
            r.puzzle_wd == rates.puzzle_wd,
            r.grad_clip == rates.grad_clip,
            r.warmup_steps == 1000,
            r.max_epochs == 50000,
            r.eval_every_epochs == 5000,
            r.save_every_epochs == 10000,
            r.log_every_steps == 100,
            r.ema_decay == rates.ema_decay,
            r.ema_warmup == 1000,
            r.ds_weight_scheme == DsWeightScheme::LinearIncreasing,
            r.halt_lambda == rates.halt_lambda,
            r.checkpoint_dir@ == "checkpoints"@,
            r.resume_tag is None,
            r.use_fp16,
            r.seed == 42,
            !r.no_augment,
            r.num_data_workers == 4,
    {
        TrainConfig {
            data_dir: "data".to_owned(),
            task_type: TaskType::Arc,
            n_augmentations_train: 8,
            n_augmentations_eval: 100,
            aug_seed: 42,
            batch_size: 32,
            micro_batch_size: 4,
            max_tokens_per_batch: 28800,
            base_lr: rates.base_lr,
            puzzle_lr: rates.puzzle_lr,
            weight_decay: rates.weight_decay,
            puzzle_wd: rates.puzzle_wd,
            grad_clip: rates.grad_clip,
            warmup_steps: 1000,
            max_epochs: 50000,
            eval_every_epochs: 5000,
            save_every_epochs: 10000,
            log_every_steps: 100,
            ema_decay: rates.ema_decay,
            ema_warmup: 1000,
            ds_weight_scheme: DsWeightScheme::LinearIncreasing,
            halt_lambda: rates.halt_lambda,
            checkpoint_dir: "checkpoints".to_owned(),
            resume_tag: None,
            use_fp16: true,
            seed: 42,
            no_augment: false,
            num_data_workers: 4,
        }
    }
}

/// The puzzle kind of that name; any other name is ARC.
pub open spec fn task_named(name: Seq<char>) -> TaskType {
    if name == "sudoku"@ {
        TaskType::Sudoku
    } else if name == "maze"@ {
        TaskType::Maze
    } else {
        TaskType::Arc
    }
}

/// The puzzle kind of that name; any other name is ARC.
pub fn parse_task(name: &str) -> (r: TaskType)
    ensures
        r == task_named(name@),
{
    if str_same(name, "sudoku") {
        TaskType::Sudoku
    } else if str_same(name, "maze") {
        TaskType::Maze
    } else {
        TaskType::Arc
    }
}

/// The network variant of that name; any name but `mixer` is the transformer.
pub fn parse_variant(name: &str) -> (r: NetworkVariant)
    ensures
        r == (if name@ == "mixer"@ {
            NetworkVariant::MlpMixer
        } else {
            NetworkVariant::Transformer
        }),
{
    if str_same(name, "mixer") {
        NetworkVariant::MlpMixer
    } else {
        NetworkVariant::Transformer
    }
}

/// The longest question of a puzzle kind: a sudoku has 81 cells, other grids up to 900.
pub open spec fn question_len(task: TaskType) -> usize {
    match task {
        TaskType::Sudoku => 81,
        _ => 900,
    }
}

/// The sequence length that the network is built for: question, answer and latent state.
pub fn network_seq_len(task: TaskType) -> (r: usize)
    ensures
        r == question_len(task) * 3,
{
    match task {
        TaskType::Sudoku => 243,
        _ => 2700,
    }
}

/// A batch of examples, padded to the longest question.
#[derive(Debug, Clone)]
pub struct Batch {
    pub examples: Vec<TokenizedExample>,
    pub max_seq: usize,
    pub x: Vec<u32>,
    pub y: Vec<u32>,
    pub p: Vec<u32>,
    /// For each example, query position and key position: whether attention is blocked.
    pub blocked: Vec<bool>,
}

/// What a [`Batch`] holds.
#[verifier::ext_equal]
pub struct BatchModel {
    pub examples: Seq<ExampleModel>,
    pub max_seq: usize,
    pub x: Seq<u32>,
    pub y: Seq<u32>,
    pub p: Seq<u32>,
    pub blocked: Seq<bool>,
}

impl View for Batch {
    type V = BatchModel;

    open spec fn view(&self) -> BatchModel {
        BatchModel {
            examples: data::examples(self.examples@),
            max_seq: self.max_seq,
            x: self.x@,
            y: self.y@,
            p: self.p@,
            blocked: self.blocked@,
        }
    }
}

/// The length of the longest question, and 1 where there is none.
pub open spec fn longest(exs: Seq<ExampleModel>) -> nat
    decreases exs.len(),
{
    if exs.len() == 0 {
        1
    } else if exs.len() == 1 {
        exs[0].x_tokens.len()
    } else {
        let before = longest(exs.drop_last());
        let last = exs.last().x_tokens.len();
        if last > before {
            last
        } else {
            before
        }
    }
}

/// The questions of the examples, each padded to `n`, one after the other.
pub open spec fn padded_questions(exs: Seq<ExampleModel>, n: nat, pad: u32) -> Seq<u32> {
    Seq::new(
        exs.len() * n,
        |i: int| data::padded(exs[i / n as int].x_tokens, n, pad)[i % n as int],
    )
}

/// The answers of the examples, each padded to `n`, one after the other.
pub open spec fn padded_answers(exs: Seq<ExampleModel>, n: nat, pad: u32) -> Seq<u32> {
    Seq::new(
        exs.len() * n,
        |i: int| data::padded(exs[i / n as int].y_tokens, n, pad)[i % n as int],
    )
}

/// The numbers of the puzzles.
pub open spec fn puzzle_ids(exs: Seq<ExampleModel>) -> Seq<u32> {
    Seq::new(exs.len(), |i: int| exs[i].puzzle_id)
}

/// Attention is blocked to and from the padding behind an example's question.
pub open spec fn blocked_at(exs: Seq<ExampleModel>, n: nat, i: int) -> bool {
    let row = i / n as int;
    let len = exs[row / n as int].x_seq_len;
    row % n as int >= len || i % n as int >= len
}

/// The attention mask of the examples.
pub open spec fn blocked_pairs(exs: Seq<ExampleModel>, n: nat) -> Seq<bool> {
    Seq::new(exs.len() * n * n, |i: int| blocked_at(exs, n, i))
}

/// The batch of the examples.
pub open spec fn batch_of(exs: Seq<ExampleModel>, pad: u32) -> BatchModel {
    let n = longest(exs);
    BatchModel {
        examples: exs,
        max_seq: n as usize,
        x: padded_questions(exs, n, pad),
        y: padded_answers(exs, n, pad),
        p: puzzle_ids(exs),
        blocked: blocked_pairs(exs, n),
    }
}

fn longest_of(exs: &Vec<TokenizedExample>) -> (r: usize)
    ensures
        r == longest(data::examples(exs@)),
{
    let ghost all = data::examples(exs@);
    if exs.len() == 0 {
        return 1;
    }
    let mut max: usize = exs[0].x_tokens.len();
    let mut i: usize = 1;
    assert(all.take(1).len() == 1 && all.take(1)[0] == exs@[0]@);
    while i < exs.len()
        invariant
            1 <= i <= exs@.len(),
            all == data::examples(exs@),
            max == longest(all.take(i as int)),
        decreases exs@.len() - i,
    {
        let n: usize = exs[i].x_tokens.len();
        proof {
            assert(all.take(i + 1).drop_last() =~= all.take(i as int));
            assert(all.take(i + 1).last() == exs@[i as int]@);
        }
        if n > max {
            max = n;
        }
        i = i + 1;
    }
    assert(all.take(exs@.len() as int) =~= all);
    max
}

proof fn padded_step(
    exs: Seq<ExampleModel>,
    toks: Seq<u32>,
    flat: Seq<u32>,
    n: nat,
    pad: u32,
    r: int,
    c: int,
    question: bool,
)
    requires
        0 <= r < exs.len(),
        0 <= c < n,
        toks == data::padded(
            if question {
                exs[r].x_tokens
            } else {
                exs[r].y_tokens
            },
            n,
            pad,
        ),
        flat == (if question {
            padded_questions(exs, n, pad)
        } else {
            padded_answers(exs, n, pad)
        }),
    ensures
        0 <= r * n + c < flat.len(),
        flat[r * n + c] == toks[c],
{
    grid::cell_place(exs.len() as int, n as int, r, c);
}

fn append_row(out: &mut Vec<u32>, row: &Vec<u32>)
    ensures
        final(out)@ == old(out)@ + row@,
{
    let ghost start = out@;
    let mut i: usize = 0;
    while i < row.len()
        invariant
            i <= row@.len(),
            out@ == start + row@.take(i as int),
        decreases row@.len() - i,
    {
        out.push(row[i]);
        assert(out@ =~= start + row@.take(i + 1));
        i = i + 1;
    }
    assert(row@.take(row@.len() as int) =~= row@);
}

fn flat_tokens(exs: &Vec<TokenizedExample>, n: usize, pad: u32, question: bool) -> (r: Vec<u32>)
    ensures
        r@ == (if question {
            padded_questions(data::examples(exs@), n as nat, pad)
        } else {
            padded_answers(data::examples(exs@), n as nat, pad)
        }),
{
    let ghost all = data::examples(exs@);
    let ghost flat = if question {
        padded_questions(all, n as nat, pad)
    } else {
        padded_answers(all, n as nat, pad)
    };
    let mut out: Vec<u32> = Vec::new();
    let mut r: usize = 0;
    assert(0 * n == 0) by (nonlinear_arith);
    while r < exs.len()
        invariant
            r <= exs@.len(),
            all == data::examples(exs@),
            flat == (if question {
                padded_questions(all, n as nat, pad)
            } else {
                padded_answers(all, n as nat, pad)
            }),
            out@.len() == r * n,
            forall|i: int| 0 <= i < r * n ==> #[trigger] out@[i] == flat[i],
        decreases exs@.len() - r,
    {
        let row = if question {
            pad_tokens(exs[r].x_tokens.as_slice(), n, pad)
        } else {
            pad_tokens(exs[r].y_tokens.as_slice(), n, pad)
        };
        let ghost before = out@;
        append_row(&mut out, &row);
        proof {
            assert((r + 1) * n == r * n + n) by (nonlinear_arith);
            assert(all[r as int] == exs@[r as int]@);
            assert forall|i: int| 0 <= i < (r + 1) * n implies #[trigger] out@[i] == flat[i] by {
                if i < r * n {
                    assert(out@[i] == before[i]);
                } else {
                    let c = i - r * n;
                    padded_step(all, row@, flat, n as nat, pad, r as int, c, question);
                    assert(out@[i] == row@[c]);
                }
            }
        }
        r = r + 1;
    }
    assert(out@ =~= flat);
    out
}

fn flat_blocked(exs: &Vec<TokenizedExample>, n: usize) -> (r: Vec<bool>)
    ensures
        r@ == blocked_pairs(data::examples(exs@), n as nat),
{
    let ghost all = data::examples(exs@);
    let mut out: Vec<bool> = Vec::new();
    let mut b: usize = 0;
    assert(0 * n * n == 0) by (nonlinear_arith);
    while b < exs.len()
        invariant
            b <= exs@.len(),
            all == data::examples(exs@),
            out@.len() == b * n * n,
            forall|i: int| 0 <= i < out@.len() ==> #[trigger] out@[i] == blocked_at(all, n as nat, i),
        decreases exs@.len() - b,
    {
        let len: usize = exs[b].x_seq_len;
        assert(all[b as int] == exs@[b as int]@);
        let mut s1: usize = 0;
        assert((b * n + 0) * n == b * n * n) by (nonlinear_arith);
        while s1 < n
            invariant
                s1 <= n,
                b < exs@.len(),
                all == data::examples(exs@),
                len == all[b as int].x_seq_len,
                out@.len() == (b * n + s1) * n,
                forall|i: int|
                    0 <= i < out@.len() ==> #[trigger] out@[i] == blocked_at(all, n as nat, i),
            decreases n - s1,
        {
            let mut s2: usize = 0;
            while s2 < n
                invariant
                    s2 <= n,
                    s1 < n,
                    b < exs@.len(),
                    all == data::examples(exs@),
                    len == all[b as int].x_seq_len,
                    out@.len() == (b * n + s1) * n + s2,
                    forall|i: int|
                        0 <= i < out@.len() ==> #[trigger] out@[i] == blocked_at(all, n as nat, i),
                decreases n - s2,
            {
                proof {
                    grid::cell_place(all.len() as int, n as int, b as int, s1 as int);
                    grid::cell_place(all.len() * n, n as int, b * n + s1, s2 as int);
                }
                out.push(s1 >= len || s2 >= len);
                s2 = s2 + 1;
            }
            assert((b * n + s1 + 1) * n == (b * n + s1) * n + n) by (nonlinear_arith);
            s1 = s1 + 1;
        }
        assert((b * n + n) * n == (b + 1) * n * n) by (nonlinear_arith);
        b = b + 1;
    }
    assert(out@ =~= blocked_pairs(all, n as nat));
    out
}

/// The batch of the examples: questions and answers padded to the longest question, puzzle
/// numbers, and the mask that keeps attention off the padding.
pub fn assemble(exs: Vec<TokenizedExample>, pad: u32) -> (r: Batch)
    ensures
        r@ == batch_of(data::examples(exs@), pad),
        r.examples == exs,
        r.max_seq == longest(data::examples(exs@)),
{
    let max_seq: usize = longest_of(&exs);
    let x = flat_tokens(&exs, max_seq, pad, true);
    let y = flat_tokens(&exs, max_seq, pad, false);
    let blocked = flat_blocked(&exs, max_seq);
    let mut p: Vec<u32> = Vec::new();
    let mut i: usize = 0;
    while i < exs.len()
        invariant
            i <= exs@.len(),
            p@ == puzzle_ids(data::examples(exs@)).take(i as int),
        decreases exs@.len() - i,
    {
        p.push(exs[i].puzzle_id);
        assert(p@ =~= puzzle_ids(data::examples(exs@)).take(i + 1));
        i = i + 1;
    }
    assert(p@ =~= puzzle_ids(data::examples(exs@)));
    Batch { examples: exs, max_seq, x, y, p, blocked }
}

/// In a batch no token of a question is cut: every question is at most as long as the batch.
pub proof fn longest_covers(exs: Seq<ExampleModel>, i: int)
    requires
        0 <= i < exs.len(),
    ensures
        exs[i].x_tokens.len() <= longest(exs),
    decreases exs.len(),
{
    if exs.len() > 1 && i < exs.len() - 1 {
        longest_covers(exs.drop_last(), i);
        assert(exs.drop_last()[i] == exs[i]);
    }
}

/// The seeded generator of the `rand` crate.
#[verifier::external_type_specification]
#[verifier::external_body]
pub struct ExStdRng(StdRng);

/// The words of a generator's state, which decide every number that it will give.
pub uninterp spec fn rng_state(rng: StdRng) -> Seq<u64>;

/// The state that `rand::SeedableRng::seed_from_u64` makes of a seed.
pub uninterp spec fn seeded_state(seed: u64) -> Seq<u64>;

/// The order in which `rand::seq::SliceRandom::shuffle` leaves a list, with a generator in that
/// state, and the state after it.
pub uninterp spec fn shuffled(v: Seq<usize>, state: Seq<u64>) -> (Seq<usize>, Seq<u64>);

/// The place that `rand::seq::SliceRandom::choose` takes in a list of `n`, with a generator in
/// that state, and the state after it.
pub uninterp spec fn picked(n: nat, state: Seq<u64>) -> (int, Seq<u64>);

/// `rand::SeedableRng::seed_from_u64`: a generator whose state depends on the seed alone.
#[verifier::external_body]
fn seeded(seed: u64) -> (r: StdRng)
    ensures
        rng_state(r) == seeded_state(seed),
{
    StdRng::seed_from_u64(seed)
}

/// `rand::seq::SliceRandom::shuffle`: puts the elements in another order, none lost and none
/// added. The order and the generator's next state depend on the list and the state alone.
#[verifier::external_body]
fn shuffle(v: &mut Vec<usize>, rng: &mut StdRng)
    ensures
        (final(v)@, rng_state(*final(rng))) == shuffled(old(v)@, rng_state(*old(rng))),
        final(v)@.to_multiset() == old(v)@.to_multiset(),
{
    v.shuffle(rng)
}

/// `rand::seq::SliceRandom::choose`: the element at a place in the list, and nothing only where
/// there are none. The place and the generator's next state depend on the length and the state
/// alone; an empty list leaves the state.
#[verifier::external_body]
fn pick<'a, T>(v: &'a Vec<T>, rng: &mut StdRng) -> (r: Option<&'a T>)
    ensures
        match r {
            Some(x) => {
                let p = picked(v@.len(), rng_state(*old(rng)));
                0 <= p.0 < v@.len() && *x == v@[p.0] && rng_state(*final(rng)) == p.1
            },
            None => v@.len() == 0 && rng_state(*final(rng)) == rng_state(*old(rng)),
        },
{
    v.choose(rng)
}

/// How examples are varied before they are trained on.
#[derive(Debug, Clone, Copy, PartialEq, Eq, Structural)]
pub enum AugmentMode {
    /// Not at all.
    Off,
    /// By permuting a sudoku and its solution together.
    Sudoku,
    /// By one of the variants kept for the puzzle.
    Cached,
}

/// The mode for a puzzle kind.
pub fn augment_mode(no_augment: bool, task: TaskType) -> (r: AugmentMode)
    ensures
        r == (if no_augment {
            AugmentMode::Off
        } else if task == TaskType::Sudoku {
            AugmentMode::Sudoku
        } else {
            AugmentMode::Cached
        }),
{
    if no_augment {
        AugmentMode::Off
    } else {
        match task {
            TaskType::Sudoku => AugmentMode::Sudoku,
            _ => AugmentMode::Cached,
        }
    }
}

/// Where variants of a puzzle come from. Nothing is demanded of the methods beyond that they
/// return.
pub trait Augmenter {
    /// A sudoku and its solution, permuted together.
    fn sudoku_pair(&self, x: &Grid, y: &Grid) -> (Grid, Grid);

    /// The variants of a puzzle and its solution.
    fn variants(&self, puzzle_id: u32, x: &Grid, y: &Grid) -> Vec<(Grid, Grid)>;
}

/// The example with other grids in place of its own. Its shape stays.
pub open spec fn regridded(ex: ExampleModel, x: Grid, y: Grid) -> ExampleModel {
    let xt = data::grid_tokens(data::rows_of(x));
    let yt = data::grid_tokens(data::rows_of(y));
    ExampleModel {
        x_tokens: xt,
        y_tokens: yt,
        x_seq_len: xt.len() as usize,
        y_seq_len: yt.len() as usize,
        ..ex
    }
}

/// `x` and `y` are the grids of an example.
pub open spec fn are_grids(ex: ExampleModel, x: Grid, y: Grid) -> bool {
    &&& data::is_detokenized(ex.x_tokens, ex.rows as int, ex.cols as int, x)
    &&& data::is_detokenized(ex.y_tokens, ex.rows as int, ex.cols as int, y)
}

/// `out` is the variant of the example that a generator in this state leads to, and `after` is
/// the state after it.
pub open spec fn is_augmented<G: Augmenter>(
    aug: &G,
    mode: AugmentMode,
    ex: ExampleModel,
    state: Seq<u64>,
    out: ExampleModel,
    after: Seq<u64>,
) -> bool {
    match mode {
        AugmentMode::Off => out == ex && after == state,
        AugmentMode::Sudoku => after == state && exists|x: Grid, y: Grid, pair: (Grid, Grid)|
            {
                &&& are_grids(ex, x, y)
                &&& #[trigger] call_ensures(G::sudoku_pair, (aug, &x, &y), pair)
                &&& out == regridded(ex, pair.0, pair.1)
            },
        AugmentMode::Cached => exists|x: Grid, y: Grid, list: Vec<(Grid, Grid)>|
            {
                let p = picked(list@.len(), state);
                &&& are_grids(ex, x, y)
                &&& #[trigger] call_ensures(G::variants, (aug, ex.puzzle_id, &x, &y), list)
                &&& 0 <= p.0 < list@.len()
                &&& out == regridded(ex, list@[p.0].0, list@[p.0].1)
                &&& after == p.1
            },
    }
}

/// `outs` are variants of the examples in turn, and `states` lists the generator's state before
/// and after each of them.
pub open spec fn are_augmented<G: Augmenter>(
    aug: &G,
    mode: AugmentMode,
    exs: Seq<ExampleModel>,
    states: Seq<Seq<u64>>,
    outs: Seq<ExampleModel>,
) -> bool {
    &&& outs.len() == exs.len()
    &&& states.len() == exs.len() + 1
    &&& forall|i: int|
        0 <= i < exs.len() ==> is_augmented(
            aug,
            mode,
            #[trigger] exs[i],
            states[i],
            outs[i],
            states[i + 1],
        )
}

/// `outs` are the variants of the examples that a generator in this state leads to, and `after`
/// is the state after them.
pub open spec fn leads_to<G: Augmenter>(
    aug: &G,
    mode: AugmentMode,
    exs: Seq<ExampleModel>,
    state: Seq<u64>,
    outs: Seq<ExampleModel>,
    after: Seq<u64>,
) -> bool {
    exists|states: Seq<Seq<u64>>|
        {
            &&& #[trigger] are_augmented(aug, mode, exs, states, outs)
            &&& states[0] == state
            &&& states[exs.len() as int] == after
        }
}

fn copy_example(ex: &TokenizedExample) -> (r: TokenizedExample)
    ensures
        r@ == ex@,
{
    TokenizedExample {
        puzzle_id: ex.puzzle_id,
        x_tokens: copy_vec(&ex.x_tokens),
        y_tokens: copy_vec(&ex.y_tokens),
        rows: ex.rows,
        cols: ex.cols,
        x_seq_len: ex.x_seq_len,
        y_seq_len: ex.y_seq_len,
    }
}

fn regrid(ex: &TokenizedExample, x: &Grid, y: &Grid) -> (r: TokenizedExample)
    ensures
        r@ == regridded(ex@, *x, *y),
{
    let x_tokens = tokenize_grid(x);
    let y_tokens = tokenize_grid(y);
    let x_seq_len: usize = x_tokens.len();
    let y_seq_len: usize = y_tokens.len();
    TokenizedExample {
        puzzle_id: ex.puzzle_id,
        x_tokens,
        y_tokens,
        rows: ex.rows,
        cols: ex.cols,
        x_seq_len,
        y_seq_len,
    }
}

/// No puzzle is without variants.
pub open spec fn always_varies<G: Augmenter>(aug: &G) -> bool {
    forall|id: u32, x: &Grid, y: &Grid, list: Vec<(Grid, Grid)>| #[trigger]
        call_ensures(G::variants, (aug, id, x, y), list) ==> list@.len() > 0
}

fn augment<G: Augmenter>(
    aug: &G,
    mode: AugmentMode,
    ex: &TokenizedExample,
    rng: &mut StdRng,
) -> (r: TokenizedExample)
    requires
        !(mode is Off) ==> ex.rows * ex.cols <= usize::MAX,
        mode is Cached ==> always_varies(aug),
    ensures
        is_augmented(aug, mode, ex@, rng_state(*old(rng)), r@, rng_state(*final(rng))),
{
    match mode {
        AugmentMode::Off => copy_example(ex),
        AugmentMode::Sudoku => {
            let x = detokenize_grid(ex.x_tokens.as_slice(), ex.rows, ex.cols);
            let y = detokenize_grid(ex.y_tokens.as_slice(), ex.rows, ex.cols);
            let pair = aug.sudoku_pair(&x, &y);
            assert(call_ensures(G::sudoku_pair, (aug, &x, &y), pair));
            regrid(ex, &pair.0, &pair.1)
        },
        AugmentMode::Cached => {
            let x = detokenize_grid(ex.x_tokens.as_slice(), ex.rows, ex.cols);
            let y = detokenize_grid(ex.y_tokens.as_slice(), ex.rows, ex.cols);
            let list = aug.variants(ex.puzzle_id, &x, &y);
            assert(call_ensures(G::variants, (aug, ex@.puzzle_id, &x, &y), list));
            match pick(&list, rng) {
                Some(pair) => regrid(ex, &pair.0, &pair.1),
                None => copy_example(ex),
            }
        },
    }
}

/// The numbers below `n`, in order.
pub open spec fn indices(n: nat) -> Seq<usize> {
    Seq::new(n, |i: int| i as usize)
}

/// Every example can be laid out as a grid.
pub open spec fn can_lay_out(data: Seq<TokenizedExample>) -> bool {
    forall|i: int| 0 <= i < data.len() ==> (#[trigger] data[i]).rows * data[i].cols <= usize::MAX
}

/// Deals the examples of an epoch out in micro-batches, in shuffled order.
pub struct AsyncDataLoader {
    pub data: Vec<TokenizedExample>,
    pub order: Vec<usize>,
    pub next: usize,
    pub micro_batch: usize,
    pub mode: AugmentMode,
    pub pad: u32,
    pub rng: StdRng,
}

impl AsyncDataLoader {
    /// The order lists every example once, and examples that are to be varied can be laid out
    /// as grids.
    pub open spec fn wf(&self) -> bool {
        &&& self.order@.to_multiset() == indices(self.data@.len()).to_multiset()
        &&& self.order@.len() == self.data@.len()
        &&& self.next <= self.order@.len()
        &&& self.micro_batch > 0
        &&& !(self.mode is Off) ==> can_lay_out(self.data@)
    }

    /// Starts an epoch: the examples are put in an order that the seed decides.
    pub fn start(
        data: Vec<TokenizedExample>,
        micro_batch: usize,
        mode: AugmentMode,
        pad: u32,
        seed: u64,
    ) -> (r: Self)
        requires
            micro_batch > 0,
            !(mode is Off) ==> can_lay_out(data@),
        ensures
            r.wf(),
            r.data == data,
            (r.order@, rng_state(r.rng)) == shuffled(
                indices(data@.len()),
                seeded_state(seed),
            ),
            r.next == 0,
            r.micro_batch == micro_batch,
            r.mode == mode,
            r.pad == pad,
    {
        let mut rng = seeded(seed);
        let mut order: Vec<usize> = Vec::new();
        let mut i: usize = 0;
        while i < data.len()
            invariant
                i <= data@.len(),
                order@ == indices(i as nat),
            decreases data@.len() - i,
        {
            order.push(i);
            assert(order@ =~= indices((i + 1) as nat));
            i = i + 1;
        }
        let ghost before = order@;
        shuffle(&mut order, &mut rng);
        proof {
            before.to_multiset_ensures();
            order@.to_multiset_ensures();
        }
        AsyncDataLoader { data, order, next: 0, micro_batch, mode, pad, rng }
    }
}

proof fn order_in_range(l: AsyncDataLoader, i: int)
    requires
        l.wf(),
        0 <= i < l.order@.len(),
    ensures
        l.order@[i] < l.data@.len(),
{
    let all = indices(l.data@.len());
    l.order@.to_multiset_ensures();
    all.to_multiset_ensures();
    assert(l.order@.contains(l.order@[i]));
    assert(l.order@.to_multiset().count(l.order@[i]) > 0);
    assert(all.to_multiset().count(l.order@[i]) > 0);
    assert(all.contains(l.order@[i]));
}

/// An epoch deals every example out exactly once: each has one place in the order.
pub proof fn every_example_once(l: AsyncDataLoader, k: int)
    requires
        l.wf(),
        0 <= k < l.data@.len() <= usize::MAX,
    ensures
        exists|i: int| 0 <= i < l.order@.len() && #[trigger] l.order@[i] == k,
        forall|i: int, j: int|
            0 <= i < l.order@.len() && 0 <= j < l.order@.len() && #[trigger] l.order@[i] == k
                && #[trigger] l.order@[j] == k ==> i == j,
{
    let all = indices(l.data@.len());
    l.order@.to_multiset_ensures();
    all.to_multiset_ensures();
    assert(all[k] == k as usize);
    assert(all.contains(k as usize));
    assert(all.to_multiset().count(k as usize) > 0);
    assert(l.order@.to_multiset().count(k as usize) > 0);
    assert(l.order@.contains(k as usize));
    assert(all.no_duplicates());
    all.lemma_multiset_has_no_duplicates();
    l.order@.lemma_multiset_has_no_duplicates_conv();
}

/// Where the next micro-batch ends.
pub open spec fn chunk_end(next: int, micro: int, n: int) -> int {
    if next + micro < n {
        next + micro
    } else {
        n
    }
}

impl AsyncDataLoader {
    /// The examples at places `from` to `to` of the order.
    pub open spec fn chunk(&self, from: int, to: int) -> Seq<ExampleModel> {
        Seq::new((to - from) as nat, |i: int| self.data@[self.order@[from + i] as int]@)
    }

    /// The next micro-batch, or nothing at the end of the epoch. Its examples are variants of
    /// those that come next in the order.
    pub fn next_batch<G: Augmenter>(&mut self, aug: &G) -> (r: Option<Batch>)
        requires
            old(self).wf(),
            old(self).mode is Cached ==> always_varies(aug),
        ensures
            final(self).wf(),
            final(self).data == old(self).data,
            final(self).order == old(self).order,
            final(self).micro_batch == old(self).micro_batch,
            final(self).mode == old(self).mode,
            final(self).pad == old(self).pad,
            final(self).next == chunk_end(
                old(self).next as int,
                old(self).micro_batch as int,
                old(self).order@.len() as int,
            ),
            match r {
                None => old(self).next == old(self).order@.len() && final(self).rng == old(
                    self,
                ).rng,
                Some(b) => {
                    let exs = data::examples(b.examples@);
                    &&& old(self).next < old(self).order@.len()
                    &&& b@ == batch_of(exs, old(self).pad)
                    &&& leads_to(
                        aug,
                        old(self).mode,
                        old(self).chunk(old(self).next as int, final(self).next as int),
                        rng_state(old(self).rng),
                        exs,
                        rng_state(final(self).rng),
                    )
                },
            },
    {
        let n: usize = self.order.len();
        if self.next >= n {
            return None;
        }
        let end: usize = if self.micro_batch < n - self.next {
            self.next + self.micro_batch
        } else {
            n
        };
        let ghost from = self.next as int;
        let ghost mut states: Seq<Seq<u64>> = seq![rng_state(self.rng)];
        let mut examples: Vec<TokenizedExample> = Vec::new();
        let mut i: usize = self.next;
        assert(old(self).chunk(from, from) =~= data::examples(examples@));
        while i < end
            invariant
                from <= i <= end <= n,
                n == self.order@.len(),
                from == old(self).next,
                self.wf(),
                self.next == from,
                self.data == old(self).data,
                self.order == old(self).order,
                self.micro_batch == old(self).micro_batch,
                self.mode == old(self).mode,
                self.pad == old(self).pad,
                self.mode is Cached ==> always_varies(aug),
                examples@.len() == i - from,
                states.len() == i - from + 1,
                states[0] == rng_state(old(self).rng),
                states[i - from] == rng_state(self.rng),
                are_augmented(
                    aug,
                    self.mode,
                    old(self).chunk(from, i as int),
                    states,
                    data::examples(examples@),
                ),
            decreases end - i,
        {
            proof {
                order_in_range(*self, i as int);
            }
            let ghost outs = data::examples(examples@);
            let ghost before = states;
            let at: usize = self.order[i];
            let ex = augment(aug, self.mode, &self.data[at], &mut self.rng);
            examples.push(ex);
            proof {
                states = states.push(rng_state(self.rng));
                let longer = old(self).chunk(from, i + 1);
                let more = data::examples(examples@);
                assert forall|k: int| 0 <= k < longer.len() implies is_augmented(
                    aug,
                    self.mode,
                    #[trigger] longer[k],
                    states[k],
                    more[k],
                    states[k + 1],
                ) by {
                    if k < i - from {
                        assert(longer[k] == old(self).chunk(from, i as int)[k]);
                        assert(states[k] == before[k] && states[k + 1] == before[k + 1]);
                        assert(more[k] == outs[k]);
                    }
                }
            }
            i = i + 1;
        }
        self.next = end;
        let batch = assemble(examples, self.pad);
        assert(are_augmented(
            aug,
            old(self).mode,
            old(self).chunk(old(self).next as int, self.next as int),
            states,
            data::examples(batch.examples@),
        ));
        assert(leads_to(
            aug,
            old(self).mode,
            old(self).chunk(old(self).next as int, self.next as int),
            rng_state(old(self).rng),
            data::examples(batch.examples@),
            rng_state(self.rng),
        ));
        Some(batch)
    }
}

/// How many examples of `n` go to training: nine tenths.
pub open spec fn train_count(n: int) -> int {
    n * 9 / 10
}

/// How many examples of `n` go to training: nine tenths, the rest to validation.
pub fn train_split(n: usize) -> (r: usize)
    requires
        n * 9 <= usize::MAX,
    ensures
        r == train_count(n as int),
        r <= n,
        10 * r <= 9 * n < 10 * (r + 1),
{
    n * 9 / 10
}

/// Parts a list into training and validation, in order.
pub fn split_list<T>(all: Vec<T>) -> (r: (Vec<T>, Vec<T>))
    requires
        all@.len() * 9 <= usize::MAX,
    ensures
        r.0@ == all@.take(train_count(all@.len() as int)),
        r.1@ == all@.skip(train_count(all@.len() as int)),
        r.0@ + r.1@ == all@,
        10 * r.0@.len() <= 9 * all@.len() < 10 * (r.0@.len() + 1),
{
    let ghost given = all@;
    let split: usize = train_split(all.len());
    let mut train: Vec<T> = Vec::new();
    let mut val: Vec<T> = Vec::new();
    for x in it: all.into_iter()
        invariant
            it.seq() == given,
            split <= given.len(),
            it.index() <= split ==> train@ == given.take(it.index() as int) && val@
                == Seq::<T>::empty(),
            it.index() > split ==> train@ == given.take(split as int) && val@ == given.subrange(
                split as int,
                it.index() as int,
            ),
    {
        let ghost i = it.index() as int;
        if train.len() < split {
            train.push(x);
            assert(train@ =~= given.take(i + 1));
        } else {
            assert(train@ =~= given.take(split as int));
            val.push(x);
            assert(val@ =~= given.subrange(split as int, i + 1));
        }
    }
    proof {
        assert(given.take(given.len() as int) =~= given);
        if given.len() <= split {
            assert(train@ =~= given.take(split as int));
            assert(val@ =~= given.skip(split as int));
        } else {
            assert(val@ =~= given.skip(split as int));
        }
        assert(train@ + val@ =~= given);
    }
    (train, val)
}

/// Training and validation together are the whole list, in order.
pub proof fn split_keeps_all<T>(all: Seq<T>)
    ensures
        all.take(train_count(all.len() as int)) + all.skip(train_count(all.len() as int)) == all,
{
    let k = train_count(all.len() as int);
    assert(0 <= k <= all.len());
    assert(all.take(k) + all.skip(k) =~= all);
}

/// Nine tenths of a list, rounded down, go to training: the training part is as long as it can be
/// with ten of its examples for every nine in the list, and one more would be too many. The
/// validation part is what is left, behind it.
pub proof fn split_is_nine_tenths<T>(all: Seq<T>, train: Seq<T>, val: Seq<T>)
    requires
        train == all.take(train_count(all.len() as int)),
        val == all.skip(train_count(all.len() as int)),
    ensures
        10 * train.len() <= 9 * all.len() < 10 * (train.len() + 1),
        train.len() + val.len() == all.len(),
        forall|i: int| 0 <= i < train.len() ==> #[trigger] train[i] == all[i],
        forall|i: int| 0 <= i < val.len() ==> #[trigger] val[i] == all[train.len() + i],
{
}

/// The training and the validation examples of ARC tasks. Whole tasks are parted, so no task
/// gives examples to both.
pub fn split_tasks(tasks: Vec<(String, ArcTask)>) -> (r: (
    Vec<TokenizedExample>,
    Vec<TokenizedExample>,
))
    requires
        tasks@.len() * 9 <= usize::MAX,
    ensures
        data::examples(r.0@) == data::tasks_examples(
            tasks@.take(train_count(tasks@.len() as int)),
        ),
        data::examples(r.1@) == data::tasks_examples(
            tasks@.skip(train_count(tasks@.len() as int)),
        ),
        10 * train_count(tasks@.len() as int) <= 9 * tasks@.len() < 10 * (train_count(
            tasks@.len() as int,
        ) + 1),
{
    let (train, val) = split_list(tasks);
    (arc_training_examples(train.as_slice()), arc_training_examples(val.as_slice()))
}

/// How many micro-batches make an optimizer step.
pub open spec fn accum_count(batch: int, micro: int) -> int {
    (batch + micro - 1) / (if micro > 1 {
        micro
    } else {
        1
    })
}

/// How many micro-batches make an optimizer step: enough to cover the batch.
pub fn accum_steps(batch_size: usize, micro_batch: usize) -> (r: usize)
    requires
        1 <= batch_size + micro_batch <= usize::MAX,
    ensures
        r == accum_count(batch_size as int, micro_batch as int),
{
    let by: usize = if micro_batch > 1 {
        micro_batch
    } else {
        1
    };
    (batch_size + micro_batch - 1) / by
}

/// The micro-batches of a step cover the batch, and one fewer would not.
pub proof fn accum_covers(batch: int, micro: int)
    requires
        0 < batch,
        0 < micro,
    ensures
        accum_count(batch, micro) * micro >= batch,
        (accum_count(batch, micro) - 1) * micro < batch,
        accum_count(batch, micro) > 0,
{
    let by = if micro > 1 {
        micro
    } else {
        1
    };
    let k = accum_count(batch, micro);
    vstd::arithmetic::div_mod::lemma_fundamental_div_mod(batch + micro - 1, by);
    vstd::arithmetic::div_mod::lemma_mod_bound(batch + micro - 1, by);
    assert(k * micro >= batch && (k - 1) * micro < batch && k > 0) by (nonlinear_arith)
        requires
            batch + micro - 1 == by * k + (batch + micro - 1) % by,
            0 <= (batch + micro - 1) % by < by,
            by == micro,
            0 < batch,
            0 < micro,
    ;
}

/// What an epoch has added up so far.
#[derive(Debug, Clone, Copy)]
pub struct EpochProgress<F> {
    pub accum_steps: usize,
    pub step_count: u64,
    pub batches: u64,
    pub pending_loss: F,
    pub epoch_loss: F,
}

impl<F: Copy> EpochProgress<F> {
    /// The start of an epoch.
    pub fn start<A: Arith<Num = F>>(ar: &A, accum_steps: usize) -> (r: Self)
        ensures
            r.accum_steps == accum_steps,
            r.step_count == 0,
            r.batches == 0,
            arith::is_whole(ar, 0, r.pending_loss),
            arith::is_whole(ar, 0, r.epoch_loss),
    {
        EpochProgress {
            accum_steps,
            step_count: 0,
            batches: 0,
            pending_loss: ar.whole(0),
            epoch_loss: ar.whole(0),
        }
    }

    /// Counts a micro-batch in. Every `accum_steps` of them an optimizer step is due: the mean
    /// of their losses goes to the epoch, and counting starts again from zero.
    pub fn on_batch<A: Arith<Num = F>>(&mut self, ar: &A, loss: F) -> (due: bool)
        requires
            old(self).accum_steps > 0,
            old(self).step_count < u64::MAX,
            old(self).batches < u64::MAX,
        ensures
            final(self).accum_steps == old(self).accum_steps,
            final(self).step_count == old(self).step_count + 1,
            due == (final(self).step_count as int % old(self).accum_steps as int == 0),
            exists|sum: F| #[trigger]
                arith::is_sum(ar, old(self).pending_loss, loss, sum) && if due {
                    &&& final(self).batches == old(self).batches + 1
                    &&& arith::is_whole(ar, 0, final(self).pending_loss)
                    &&& is_mean_added(
                        ar,
                        old(self).epoch_loss,
                        sum,
                        old(self).accum_steps,
                        final(self).epoch_loss,
                    )
                } else {
                    &&& final(self).batches == old(self).batches
                    &&& final(self).pending_loss == sum
                    &&& final(self).epoch_loss == old(self).epoch_loss
                },
            forall|of: spec_fn(F) -> real| #[trigger]
                exact::is_real(ar, of) ==> {
                    let n = old(self).accum_steps as int as real;
                    &&& of(final(self).epoch_loss) * n + of(final(self).pending_loss) == of(
                        old(self).epoch_loss,
                    ) * n + of(old(self).pending_loss) + of(loss)
                    &&& due ==> of(final(self).pending_loss) == 0real
                },
    {
        let sum = ar.plus(self.pending_loss, loss);
        assert(arith::is_sum(ar, old(self).pending_loss, loss, sum));
        self.step_count = self.step_count + 1;
        if self.step_count % (self.accum_steps as u64) == 0 {
            let n = ar.whole(self.accum_steps as i128);
            let mean = ar.over(sum, n);
            assert(arith::is_quotient(ar, sum, n, mean));
            self.epoch_loss = ar.plus(self.epoch_loss, mean);
            self.batches = self.batches + 1;
            self.pending_loss = ar.whole(0);
            proof {
                assert forall|of: spec_fn(F) -> real| #[trigger] exact::is_real(ar, of) implies of(
                    self.epoch_loss,
                ) * (self.accum_steps as int as real) == of(old(self).epoch_loss) * (
                self.accum_steps as int as real) + of(sum) && of(self.pending_loss) == 0real by {
                    let (e, s, k, m) = (
                        of(old(self).epoch_loss),
                        of(sum),
                        self.accum_steps as int as real,
                        of(mean),
                    );
                    assert(of(n) == k);
                    assert((e + m) * k == e * k + s) by (nonlinear_arith)
                        requires
                            m == s / k,
                            k >= 1real,
                    ;
                }
            }
            true
        } else {
            self.pending_loss = sum;
            false
        }
    }

    /// The mean loss of the epoch's steps, over one where there were none.
    pub fn mean_loss<A: Arith<Num = F>>(&self, ar: &A) -> (r: F)
        ensures
            exists|n: F|
                arith::is_whole(
                    ar,
                    if self.batches > 1 {
                        self.batches as int
                    } else {
                        1
                    },
                    n,
                ) && #[trigger] arith::is_quotient(ar, self.epoch_loss, n, r),
            forall|of: spec_fn(F) -> real| #[trigger]
                exact::is_real(ar, of) ==> if self.batches == 0 {
                    of(r) == of(self.epoch_loss)
                } else {
                    of(r) * (self.batches as int as real) == of(self.epoch_loss)
                },
    {
        let count: u64 = if self.batches > 1 {
            self.batches
        } else {
            1
        };
        let n = ar.whole(count as i128);
        let r = ar.over(self.epoch_loss, n);
        proof {
            assert(arith::is_quotient(ar, self.epoch_loss, n, r));
            assert forall|of: spec_fn(F) -> real| #[trigger] exact::is_real(ar, of) implies of(r)
                * (count as int as real) == of(self.epoch_loss) && (count == 1 ==> of(r) == of(
                self.epoch_loss,
            )) by {
                let (q, x, k) = (of(r), of(self.epoch_loss), count as int as real);
                assert(of(n) == k);
                assert(q * k == x && (k == 1real ==> q == x)) by (nonlinear_arith)
                    requires
                        q == x / k,
                        k >= 1real,
                ;
            }
        }
        r
    }
}

/// `r` is `total + sum / count`.
pub open spec fn is_mean_added<A: Arith>(
    ar: &A,
    total: A::Num,
    sum: A::Num,
    count: usize,
    r: A::Num,
) -> bool {
    exists|n: A::Num, mean: A::Num|
        {
            &&& arith::is_whole(ar, count as int, n)
            &&& #[trigger] arith::is_quotient(ar, sum, n, mean)
            &&& arith::is_sum(ar, total, mean, r)
        }
}

/// How many steps the schedule runs for.
pub fn total_steps(max_epochs: usize) -> (r: u64)
    requires
        max_epochs * 100 <= u64::MAX,
    ensures
        r == max_epochs * 100,
{
    max_epochs as u64 * 100
}

/// A model that answers batches. Nothing is demanded of it beyond that it returns.
pub trait Evaluator<F>: LossMath {
    /// A table of tokens as a tensor.
    fn tokens(&self, flat: &Vec<u32>, rows: usize, cols: usize) -> Result<Self::T, Self::E>;

    /// Puzzle numbers as a tensor.
    fn puzzles(&self, ids: &Vec<u32>) -> Result<Self::T, Self::E>;

    /// The attention mask of so many sequences of that length, from the pairs that are blocked.
    fn mask(&self, blocked: &Vec<bool>, count: usize, seq: usize) -> Result<Self::T, Self::E>;

    /// The final logits and the predicted tokens of questions whose answers are that long.
    fn forward_trace(
        &self,
        x: &Self::T,
        y_seq: usize,
        p: &Self::T,
        mask: &Self::T,
    ) -> Result<(Self::T, Self::T), Self::E>;

    /// The number that a loss holds.
    fn value(&self, loss: &Self::T) -> Result<F, Self::E>;

    /// The rows of a table of tokens.
    fn rows(&self, t: &Self::T) -> Result<Vec<Vec<u32>>, Self::E>;
}

/// The values on the way through a window.
pub struct WindowRun<F, T> {
    pub x: T,
    pub y: T,
    pub p: T,
    pub mask: T,
    pub trace: (T, T),
    pub loss: T,
    pub value: F,
    pub rows: Vec<Vec<u32>>,
}

/// Operation `i` on a window gave the value that `run` lists, or failed.
pub open spec fn is_window_op<F, P: Evaluator<F>>(
    model: &P,
    batch: Batch,
    pad: u32,
    run: WindowRun<F, P::T>,
    i: int,
    failure: Option<P::E>,
) -> bool {
    if i == 0 {
        call_ensures(
            P::tokens,
            (model, &batch.x, batch.examples@.len() as usize, batch.max_seq),
            outcome::returned(run.x, failure),
        )
    } else if i == 1 {
        call_ensures(
            P::tokens,
            (model, &batch.y, batch.examples@.len() as usize, batch.max_seq),
            outcome::returned(run.y, failure),
        )
    } else if i == 2 {
        call_ensures(P::puzzles, (model, &batch.p), outcome::returned(run.p, failure))
    } else if i == 3 {
        call_ensures(
            P::mask,
            (model, &batch.blocked, batch.examples@.len() as usize, batch.max_seq),
            outcome::returned(run.mask, failure),
        )
    } else if i == 4 {
        call_ensures(
            P::forward_trace,
            (model, &run.x, batch.max_seq, &run.p, &run.mask),
            outcome::returned(run.trace, failure),
        )
    } else if i == 5 {
        loss::is_cross_entropy(
            model,
            run.trace.0,
            run.y,
            Some(pad),
            outcome::returned(run.loss, failure),
        )
    } else if i == 6 {
        call_ensures(P::value, (model, &run.loss), outcome::returned(run.value, failure))
    } else {
        call_ensures(P::rows, (model, &run.trace.1), outcome::returned(run.rows, failure))
    }
}

/// The first `k` operations on a window gave the values that `run` lists.
pub open spec fn are_window_ops<F, P: Evaluator<F>>(
    model: &P,
    batch: Batch,
    pad: u32,
    run: WindowRun<F, P::T>,
    k: int,
) -> bool {
    forall|i: int|
        0 <= i < k ==> #[trigger] is_window_op::<F, P>(model, batch, pad, run, i, None::<P::E>)
}

/// `r` is the loss of a window and its predicted tokens, or the first failure on the way: the loss
/// is the cross-entropy of the final logits against the padded answers, without the padding.
pub open spec fn is_window_run<F, P: Evaluator<F>>(
    model: &P,
    batch: Batch,
    pad: u32,
    r: Result<(F, Vec<Vec<u32>>), P::E>,
) -> bool {
    exists|run: WindowRun<F, P::T>, k: int|
        {
            &&& #[trigger] are_window_ops::<F, P>(model, batch, pad, run, k)
            &&& match r {
                Ok(t) => k == 8 && t == (run.value, run.rows),
                Err(e) => 0 <= k < 8 && is_window_op::<F, P>(model, batch, pad, run, k, Some(e)),
            }
        }
}

#[verifier::rlimit(40)]
fn run_window<F, P: Evaluator<F>>(
    model: &P,
    batch: &Batch,
    pad: u32,
) -> (r: Result<(F, Vec<Vec<u32>>), P::E>)
    ensures
        is_window_run::<F, P>(model, *batch, pad, r),
{
    let ghost mut run: WindowRun<F, P::T> = arbitrary();
    let x = match model.tokens(&batch.x, batch.examples.len(), batch.max_seq) {
        Ok(v) => v,
        Err(e) => {
            assert(is_window_op::<F, P>(model, *batch, pad, run, 0, Some(e)));
            assert(are_window_ops::<F, P>(model, *batch, pad, run, 0));
            return Err(e);
        },
    };
    proof {
        run.x = x;
    }
    let y = match model.tokens(&batch.y, batch.examples.len(), batch.max_seq) {
        Ok(v) => v,
        Err(e) => {
            assert(is_window_op::<F, P>(model, *batch, pad, run, 1, Some(e)));
            assert(are_window_ops::<F, P>(model, *batch, pad, run, 1));
            return Err(e);
        },
    };
    proof {
        run.y = y;
    }
    let p = match model.puzzles(&batch.p) {
        Ok(v) => v,
        Err(e) => {
            assert(is_window_op::<F, P>(model, *batch, pad, run, 2, Some(e)));
            assert(are_window_ops::<F, P>(model, *batch, pad, run, 2));
            return Err(e);
        },
    };
    proof {
        run.p = p;
    }
    let mask = match model.mask(&batch.blocked, batch.examples.len(), batch.max_seq) {
        Ok(v) => v,
        Err(e) => {
            assert(is_window_op::<F, P>(model, *batch, pad, run, 3, Some(e)));
            assert(are_window_ops::<F, P>(model, *batch, pad, run, 3));
            return Err(e);
        },
    };
    proof {
        run.mask = mask;
    }
    let trace = match model.forward_trace(&x, batch.max_seq, &p, &mask) {
        Ok(v) => v,
        Err(e) => {
            assert(is_window_op::<F, P>(model, *batch, pad, run, 4, Some(e)));
            assert(are_window_ops::<F, P>(model, *batch, pad, run, 4));
            return Err(e);
        },
    };
    proof {
        run.trace = trace;
    }
    let loss = match loss::cross_entropy(model, &trace.0, &y, Some(pad)) {
        Ok(v) => v,
        Err(e) => {
            assert(is_window_op::<F, P>(model, *batch, pad, run, 5, Some(e)));
            assert(are_window_ops::<F, P>(model, *batch, pad, run, 5));
            return Err(e);
        },
    };
    proof {
        run.loss = loss;
    }
    let value = match model.value(&loss) {
        Ok(v) => v,
        Err(e) => {
            assert(is_window_op::<F, P>(model, *batch, pad, run, 6, Some(e)));
            assert(are_window_ops::<F, P>(model, *batch, pad, run, 6));
            return Err(e);
        },
    };
    proof {
        run.value = value;
    }
    let rows = match model.rows(&trace.1) {
        Ok(v) => v,
        Err(e) => {
            assert(is_window_op::<F, P>(model, *batch, pad, run, 7, Some(e)));
            assert(are_window_ops::<F, P>(model, *batch, pad, run, 7));
            return Err(e);
        },
    };
    proof {
        run.rows = rows;
    }
    assert(are_window_ops::<F, P>(model, *batch, pad, run, 8));
    Ok((value, rows))
}

/// How many windows of `size` examples `n` examples make.
pub open spec fn window_count(n: int, size: int) -> int {
    (n + size - 1) / size
}

/// Window `k` of the examples.
pub open spec fn window(all: Seq<ExampleModel>, size: int, k: int) -> Seq<ExampleModel> {
    all.subrange(k * size, chunk_end(k * size, size, all.len() as int))
}

/// The answers of a window, padded as its batch is.
pub open spec fn window_targets(win: Seq<ExampleModel>, pad: u32) -> Seq<Seq<u32>> {
    Seq::new(win.len(), |i: int| data::padded(win[i].y_tokens, longest(win), pad))
}

/// The answers of the first `k` windows, one after the other.
pub open spec fn joined_targets(all: Seq<ExampleModel>, size: int, pad: u32, k: nat) -> Seq<
    Seq<u32>,
>
    decreases k,
{
    if k == 0 {
        Seq::empty()
    } else {
        joined_targets(all, size, pad, (k - 1) as nat) + window_targets(
            window(all, size, k - 1),
            pad,
        )
    }
}

/// The predictions of all windows, one after the other.
pub open spec fn joined_preds<F>(outs: Seq<(F, Vec<Vec<u32>>)>) -> Seq<Seq<u32>>
    decreases outs.len(),
{
    if outs.len() == 0 {
        Seq::empty()
    } else {
        joined_preds(outs.drop_last()) + loss::token_rows(outs.last().1@)
    }
}

/// The losses of all windows.
pub open spec fn losses_of<F>(outs: Seq<(F, Vec<Vec<u32>>)>) -> Seq<F> {
    Seq::new(outs.len(), |i: int| outs[i].0)
}

/// `out` is what the model gave for window `k`.
pub open spec fn is_window_out<F, P: Evaluator<F>>(
    model: &P,
    all: Seq<ExampleModel>,
    size: int,
    pad: u32,
    k: int,
    out: Result<(F, Vec<Vec<u32>>), P::E>,
) -> bool {
    exists|batch: Batch| #[trigger]
        is_window_run::<F, P>(model, batch, pad, out) && batch@ == batch_of(
            window(all, size, k),
            pad,
        )
}

/// `outs` lists what the model gave for the first windows.
pub open spec fn are_window_outs<F, P: Evaluator<F>>(
    model: &P,
    all: Seq<ExampleModel>,
    size: int,
    pad: u32,
    outs: Seq<(F, Vec<Vec<u32>>)>,
) -> bool {
    forall|k: int|
        0 <= k < outs.len() ==> is_window_out::<F, P>(
            model,
            all,
            size,
            pad,
            k,
            Ok::<(F, Vec<Vec<u32>>), P::E>(#[trigger] outs[k]),
        )
}

/// `avg` is the mean of the losses, over one where there are none.
pub open spec fn is_mean_loss<A: Arith>(ar: &A, losses: Seq<A::Num>, avg: A::Num) -> bool {
    exists|zero: A::Num, total: A::Num, n: A::Num|
        {
            &&& arith::is_whole(ar, 0, zero)
            &&& #[trigger] arith::is_total(ar, zero, losses, total)
            &&& arith::is_whole(
                ar,
                if losses.len() > 1 {
                    losses.len() as int
                } else {
                    1
                },
                n,
            )
            &&& #[trigger] arith::is_quotient(ar, total, n, avg)
        }
}

/// The outcome of an evaluation: the shares of exact answers and of right tokens, and the mean
/// loss of the batches.
#[derive(Debug, Clone, Copy)]
pub struct EvalOutcome<F> {
    pub exact: Ratio,
    pub token: Ratio,
    pub loss: F,
}

fn push_targets(targets: &mut Vec<Vec<u32>>, batch: &Batch, pad: u32)
    requires
        batch.max_seq == longest(data::examples(batch.examples@)),
    ensures
        loss::token_rows(final(targets)@) == loss::token_rows(old(targets)@) + window_targets(
            data::examples(batch.examples@),
            pad,
        ),
{
    let ghost start = loss::token_rows(targets@);
    let ghost win = data::examples(batch.examples@);
    let mut i: usize = 0;
    assert(loss::token_rows(targets@) =~= start + window_targets(win, pad).take(0));
    while i < batch.examples.len()
        invariant
            i <= batch.examples@.len(),
            win == data::examples(batch.examples@),
            batch.max_seq == longest(win),
            loss::token_rows(targets@) == start + window_targets(win, pad).take(i as int),
        decreases batch.examples@.len() - i,
    {
        let t = pad_tokens(batch.examples[i].y_tokens.as_slice(), batch.max_seq, pad);
        let ghost before = loss::token_rows(targets@);
        assert(win[i as int] == batch.examples@[i as int]@);
        targets.push(t);
        proof {
            assert(loss::token_rows(targets@) =~= before.push(t@));
            assert(before.push(t@) =~= start + window_targets(win, pad).take(i + 1));
        }
        i = i + 1;
    }
    assert(window_targets(win, pad).take(win.len() as int) =~= window_targets(win, pad));
}

/// Evaluates a model on examples, window by window. The first batch that fails ends it.
pub fn evaluate<A: Arith, P: Evaluator<A::Num>>(
    ar: &A,
    model: &P,
    val_data: &[TokenizedExample],
    batch_size: usize,
    pad: u32,
) -> (r: Result<EvalOutcome<A::Num>, P::E>)
    requires
        batch_size > 0,
    ensures
        ({
            let all = data::examples(val_data@);
            let size = batch_size as int;
            let count = window_count(all.len() as int, size);
            exists|outs: Seq<(A::Num, Vec<Vec<u32>>)>|
                {
                    &&& #[trigger] are_window_outs::<A::Num, P>(model, all, size, pad, outs)
                    &&& match r {
                        Ok(o) => {
                            let targets = joined_targets(all, size, pad, outs.len());
                            &&& outs.len() == count
                            &&& o.exact == loss::exact_share(joined_preds(outs), targets)
                            &&& o.token == loss::token_share(joined_preds(outs), targets)
                            &&& is_mean_loss(ar, losses_of(outs), o.loss)
                            &&& o.exact.num <= o.exact.den
                            &&& o.token.num <= o.token.den
                        },
                        Err(e) => outs.len() < count && is_window_out::<A::Num, P>(
                            model,
                            all,
                            size,
                            pad,
                            outs.len() as int,
                            Err::<(A::Num, Vec<Vec<u32>>), P::E>(e),
                        ),
                    }
                }
        }),
{
    let ghost all = data::examples(val_data@);
    let ghost size = batch_size as int;
    let n: usize = val_data.len();
    let zero = ar.whole(0);
    let mut total = zero;
    let mut batches: usize = 0;
    let mut preds: Vec<Vec<u32>> = Vec::new();
    let mut targets: Vec<Vec<u32>> = Vec::new();
    let ghost mut outs: Seq<(A::Num, Vec<Vec<u32>>)> = Seq::empty();
    let mut start: usize = 0;
    proof {
        arith::empty_total(ar, zero);
        assert(losses_of(outs) =~= Seq::empty());
        assert(loss::token_rows(preds@) =~= joined_preds(outs));
        assert(loss::token_rows(targets@) =~= joined_targets(all, size, pad, 0));
        assert(0 * size == 0) by (nonlinear_arith);
        if n == 0 {
            window_none(size);
        } else {
            window_steps(n as int, size, 0);
        }
        assert(are_window_outs::<A::Num, P>(model, all, size, pad, outs));
    }
    while start < n
        invariant
            n == val_data@.len(),
            all == data::examples(val_data@),
            size == batch_size,
            batch_size > 0,
            batches == outs.len(),
            batches <= start,
            start <= n,
            start < n ==> start == outs.len() * size,
            start == n ==> outs.len() == window_count(n as int, size),
            start == n || outs.len() < window_count(n as int, size),
            arith::is_whole(ar, 0, zero),
            arith::is_total(ar, zero, losses_of(outs), total),
            loss::token_rows(preds@) == joined_preds(outs),
            loss::token_rows(targets@) == joined_targets(all, size, pad, outs.len()),
            are_window_outs::<A::Num, P>(model, all, size, pad, outs),
        decreases n - start,
    {
        let ghost k = outs.len() as int;
        let end: usize = if batch_size < n - start {
            start + batch_size
        } else {
            n
        };
        let mut exs: Vec<TokenizedExample> = Vec::new();
        let mut i: usize = start;
        while i < end
            invariant
                start <= i <= end <= val_data@.len(),
                all == data::examples(val_data@),
                data::examples(exs@) == all.subrange(start as int, i as int),
            decreases end - i,
        {
            let ghost before = data::examples(exs@);
            let ex = copy_example(&val_data[i]);
            exs.push(ex);
            proof {
                assert(data::examples(exs@) =~= before.push(all[i as int]));
                assert(data::examples(exs@) =~= all.subrange(start as int, i + 1));
            }
            i = i + 1;
        }
        let batch = assemble(exs, pad);
        proof {
            assert(data::examples(batch.examples@) == window(all, size, k));
            window_steps(n as int, size, k);
            assert((k + 1) * size == k * size + size) by (nonlinear_arith);
        }
        let out = run_window(model, &batch, pad);
        assert(is_window_run::<A::Num, P>(model, batch, pad, out));
        assert(is_window_out::<A::Num, P>(model, all, size, pad, k, out));
        match out {
            Ok(given) => {
                let ghost before = outs;
                proof {
                    outs = outs.push(given);
                    assert forall|j: int| 0 <= j < outs.len() implies is_window_out::<A::Num, P>(
                        model,
                        all,
                        size,
                        pad,
                        j,
                        Ok::<(A::Num, Vec<Vec<u32>>), P::E>(#[trigger] outs[j]),
                    ) by {
                        if j < k {
                            assert(outs[j] == before[j]);
                        }
                    }
                    assert(outs.drop_last() =~= before);
                }
                let (l, rows) = given;
                let next = ar.plus(total, l);
                proof {
                    arith::total_step(ar, zero, losses_of(before), total, l, next);
                    assert(losses_of(outs) =~= losses_of(before).push(l));
                }
                total = next;
                push_targets(&mut targets, &batch, pad);
                let ghost had = loss::token_rows(preds@);
                let ghost more = loss::token_rows(rows@);
                let mut rows = rows;
                preds.append(&mut rows);
                assert(loss::token_rows(preds@) =~= had + more);
                batches = batches + 1;
            },
            Err(e) => {
                return Err(e);
            },
        }
        start = end;
    }
    let count: usize = if batches > 1 {
        batches
    } else {
        1
    };
    let denom = ar.whole(count as i128);
    let avg = ar.over(total, denom);
    proof {
        assert(arith::is_quotient(ar, total, denom, avg));
        assert(losses_of(outs).len() == outs.len());
        assert(is_mean_loss(ar, losses_of(outs), avg));
    }
    Ok(
        EvalOutcome {
            exact: loss::exact_match_accuracy(preds.as_slice(), targets.as_slice()),
            token: loss::token_accuracy(preds.as_slice(), targets.as_slice()),
            loss: avg,
        },
    )
}

proof fn window_none(size: int)
    requires
        size > 0,
    ensures
        window_count(0, size) == 0,
{
    vstd::arithmetic::div_mod::lemma_fundamental_div_mod_converse(size - 1, size, 0, size - 1);
}

proof fn window_steps(n: int, size: int, k: int)
    requires
        size > 0,
        0 <= k,
        k * size < n,
    ensures
        k < window_count(n, size),
        (k + 1) * size < n ==> k + 1 < window_count(n, size),
        (k + 1) * size >= n ==> k + 1 == window_count(n, size),
{
    let c = window_count(n, size);
    let r = (n + size - 1) % size;
    vstd::arithmetic::div_mod::lemma_fundamental_div_mod(n + size - 1, size);
    vstd::arithmetic::div_mod::lemma_mod_bound(n + size - 1, size);
    assert(k < c && ((k + 1) * size < n ==> k + 1 < c) && ((k + 1) * size >= n ==> k + 1 == c))
        by (nonlinear_arith)
        requires
            n + size - 1 == size * c + r,
            0 <= r < size,
            size > 0,
            0 <= k,
            k * size < n,
    ;
}

} // verus!
