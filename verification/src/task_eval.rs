//! Two-try evaluation of ARC tasks with a vote over augmented puzzles.

use crate::data;
use crate::data::{detokenize_grid, tokenize_grid, ArcTask, Grid};
use crate::ratio;
use crate::ratio::{share_of, Ratio};
use vstd::prelude::*;

verus! {

/// How many test puzzles there were, and how many of them were solved exactly.
#[derive(Debug, Clone, Copy)]
pub struct EvalResult {
    pub total: usize,
    pub exact: usize,
}

impl EvalResult {
    /// The share of puzzles solved; zero where there were none.
    pub fn accuracy(&self) -> (r: Ratio)
        ensures
            r == ratio::share(self.exact as int, self.total as int),
    {
        share_of(self.exact as u128, self.total as u128)
    }
}

/// What solves puzzles: it makes variants of a puzzle, predicts the answer of each, and votes.
/// Nothing is demanded of the methods beyond that they return.
pub trait Solver {
    /// How a variant came from its puzzle.
    type T;

    type E;

    /// The variants of a puzzle.
    fn augment_grid(&self, n_augmentations: usize, seed: u64, grid: &Grid) -> Vec<(Grid, Self::T)>;

    /// The predicted tokens of a puzzle of `seq_len` tokens.
    fn forward_inference(
        &self,
        tokens: &Vec<u32>,
        seq_len: usize,
        puzzle_id: u32,
    ) -> Result<Vec<u32>, Self::E>;

    /// The answer that most variants agree on, turned back to the puzzle itself.
    fn majority_vote(
        &self,
        n_augmentations: usize,
        seed: u64,
        preds: &Vec<(Grid, Self::T)>,
    ) -> Grid;
}

/// Why an evaluation ended early.
#[derive(Debug, Clone, Copy)]
pub enum EvalError<E> {
    /// A variant does not have as many cells as its rows times the length of the first one.
    Ragged,
    /// The model failed.
    Model(E),
}

/// The seed of an attempt.
pub open spec fn attempt_seed(attempt: int) -> int {
    42 + attempt * 0x9E3779B97F4A7C15
}

/// How many attempts each puzzle gets.
pub open spec fn attempt_count(two_try: bool) -> int {
    if two_try {
        2
    } else {
        1
    }
}

/// The length of the first row.
pub open spec fn width(g: Grid) -> nat {
    if g@.len() > 0 {
        g@[0]@.len()
    } else {
        0
    }
}

/// The tokens fill the rectangle that the first row opens.
pub open spec fn is_rectangle(g: Grid) -> bool {
    data::grid_tokens(data::rows_of(g)).len() == g@.len() * width(g)
}

/// `pred` is a prediction for the variant.
pub open spec fn is_pred<S: Solver>(
    s: &S,
    variant: (Grid, S::T),
    puzzle_id: u32,
    pred: (Grid, S::T),
) -> bool {
    &&& is_rectangle(variant.0)
    &&& pred.1 == variant.1
    &&& exists|tokens: Vec<u32>, out: Vec<u32>|
        {
            &&& #[trigger] call_ensures(
                S::forward_inference,
                (s, &tokens, tokens@.len() as usize, puzzle_id),
                Ok::<Vec<u32>, S::E>(out),
            )
            &&& tokens@ == data::grid_tokens(data::rows_of(variant.0))
            &&& data::is_detokenized(
                out@,
                variant.0@.len() as int,
                width(variant.0) as int,
                pred.0,
            )
        }
}

/// The model fails on the variant with `m`.
pub open spec fn is_failure<S: Solver>(
    s: &S,
    variant: (Grid, S::T),
    puzzle_id: u32,
    m: S::E,
) -> bool {
    exists|tokens: Vec<u32>|
        {
            &&& #[trigger] call_ensures(
                S::forward_inference,
                (s, &tokens, tokens@.len() as usize, puzzle_id),
                Err::<Vec<u32>, S::E>(m),
            )
            &&& tokens@ == data::grid_tokens(data::rows_of(variant.0))
        }
}

/// `e` is why there is no prediction for the variant.
pub open spec fn is_refusal<S: Solver>(
    s: &S,
    variant: (Grid, S::T),
    puzzle_id: u32,
    e: EvalError<S::E>,
) -> bool {
    match e {
        EvalError::Ragged => !is_rectangle(variant.0),
        EvalError::Model(m) => is_rectangle(variant.0) && is_failure::<S>(
            s,
            variant,
            puzzle_id,
            m,
        ),
    }
}

/// `preds` are predictions for the first variants.
pub open spec fn are_preds<S: Solver>(
    s: &S,
    variants: Seq<(Grid, S::T)>,
    puzzle_id: u32,
    preds: Seq<(Grid, S::T)>,
) -> bool {
    &&& preds.len() <= variants.len()
    &&& forall|i: int|
        0 <= i < preds.len() ==> is_pred::<S>(s, variants[i], puzzle_id, #[trigger] preds[i])
}

/// `voted` is what an attempt at the puzzle may answer.
pub open spec fn is_vote<S: Solver>(
    s: &S,
    n: usize,
    seed: u64,
    puzzle: &Grid,
    puzzle_id: u32,
    voted: Grid,
) -> bool {
    exists|variants: Vec<(Grid, S::T)>, preds: Vec<(Grid, S::T)>|
        {
            &&& #[trigger] call_ensures(S::augment_grid, (s, n, seed, puzzle), variants)
            &&& #[trigger] call_ensures(S::majority_vote, (s, n, seed, &preds), voted)
            &&& preds@.len() == variants@.len()
            &&& are_preds::<S>(s, variants@, puzzle_id, preds@)
        }
}

/// `e` is why an attempt at the puzzle may fail.
pub open spec fn vote_fails<S: Solver>(
    s: &S,
    n: usize,
    seed: u64,
    puzzle: &Grid,
    puzzle_id: u32,
    e: EvalError<S::E>,
) -> bool {
    exists|variants: Vec<(Grid, S::T)>, preds: Vec<(Grid, S::T)>|
        {
            &&& #[trigger] call_ensures(S::augment_grid, (s, n, seed, puzzle), variants)
            &&& #[trigger] are_preds::<S>(s, variants@, puzzle_id, preds@)
            &&& preds@.len() < variants@.len()
            &&& is_refusal::<S>(s, variants@[preds@.len() as int], puzzle_id, e)
        }
}

/// `votes` are answers of the first attempts, one after the other.
pub open spec fn are_votes<S: Solver>(
    s: &S,
    n: usize,
    puzzle: &Grid,
    puzzle_id: u32,
    votes: Seq<Grid>,
) -> bool {
    forall|i: int|
        0 <= i < votes.len() ==> is_vote::<S>(
            s,
            n,
            attempt_seed(i) as u64,
            puzzle,
            puzzle_id,
            #[trigger] votes[i],
        )
}

/// Two grids are cell by cell the same.
pub open spec fn same_cells(a: Grid, b: Grid) -> bool {
    data::rows_of(a) == data::rows_of(b)
}

/// None of the answers is the solution.
pub open spec fn all_miss(votes: Seq<Grid>, solution: Grid) -> bool {
    forall|i: int| 0 <= i < votes.len() ==> !same_cells(#[trigger] votes[i], solution)
}

/// One test puzzle.
pub struct Test {
    pub puzzle: Grid,
    pub solution: Grid,
    pub puzzle_id: u32,
}

/// A puzzle is hit by the first answer that is its solution, and missed after `attempts`
/// answers that are not.
pub open spec fn is_tried<S: Solver>(
    s: &S,
    n: usize,
    attempts: int,
    t: Test,
    hit: bool,
) -> bool {
    exists|votes: Seq<Grid>|
        {
            &&& #[trigger] are_votes::<S>(s, n, &t.puzzle, t.puzzle_id, votes)
            &&& 0 < votes.len() <= attempts
            &&& all_miss(votes.drop_last(), t.solution)
            &&& hit == same_cells(votes.last(), t.solution)
            &&& hit || votes.len() == attempts
        }
}

/// `e` is why trying the puzzle may fail.
pub open spec fn try_fails<S: Solver>(
    s: &S,
    n: usize,
    attempts: int,
    t: Test,
    e: EvalError<S::E>,
) -> bool {
    exists|votes: Seq<Grid>|
        {
            &&& #[trigger] are_votes::<S>(s, n, &t.puzzle, t.puzzle_id, votes)
            &&& votes.len() < attempts
            &&& all_miss(votes, t.solution)
            &&& vote_fails::<S>(
                s,
                n,
                attempt_seed(votes.len() as int) as u64,
                &t.puzzle,
                t.puzzle_id,
                e,
            )
        }
}

/// The test puzzles of a task.
pub open spec fn task_tests(t: ArcTask) -> Seq<Test> {
    Seq::new(
        t.test_inputs@.len(),
        |i: int|
            Test {
                puzzle: t.test_inputs@[i],
                solution: t.test_outputs@[i],
                puzzle_id: t.puzzle_id,
            },
    )
}

/// The test puzzles of all tasks.
pub open spec fn all_tests(tasks: Seq<(String, ArcTask)>) -> Seq<Test>
    decreases tasks.len(),
{
    if tasks.len() == 0 {
        Seq::empty()
    } else {
        all_tests(tasks.drop_last()) + task_tests(tasks.last().1)
    }
}

/// How many of the puzzles were hit.
pub open spec fn hit_count(hits: Seq<bool>) -> nat
    decreases hits.len(),
{
    if hits.len() == 0 {
        0
    } else {
        hit_count(hits.drop_last()) + if hits.last() {
            1nat
        } else {
            0
        }
    }
}

/// `hits` says of the first puzzles which were hit.
pub open spec fn are_tried<S: Solver>(
    s: &S,
    n: usize,
    attempts: int,
    tests: Seq<Test>,
    hits: Seq<bool>,
) -> bool {
    &&& hits.len() <= tests.len()
    &&& forall|i: int|
        0 <= i < hits.len() ==> is_tried::<S>(s, n, attempts, tests[i], #[trigger] hits[i])
}

/// A task has a solution for each of its test puzzles.
pub open spec fn has_solutions(t: ArcTask) -> bool {
    t.test_inputs@.len() <= t.test_outputs@.len()
}

fn same_grid(a: &Grid, b: &Grid) -> (r: bool)
    ensures
        r == same_cells(*a, *b),
{
    let ghost ra = data::rows_of(*a);
    let ghost rb = data::rows_of(*b);
    if a.len() != b.len() {
        assert(ra.len() != rb.len());
        return false;
    }
    let mut i: usize = 0;
    while i < a.len()
        invariant
            i <= a@.len(),
            a@.len() == b@.len(),
            ra == data::rows_of(*a),
            rb == data::rows_of(*b),
            forall|k: int| 0 <= k < i ==> ra[k] == rb[k],
        decreases a@.len() - i,
    {
        let x = &a[i];
        let y = &b[i];
        assert(ra[i as int] == x@ && rb[i as int] == y@);
        if x.len() != y.len() {
            return false;
        }
        let mut j: usize = 0;
        while j < x.len()
            invariant
                j <= x@.len(),
                x@.len() == y@.len(),
                i < a@.len(),
                ra[i as int] == x@,
                rb[i as int] == y@,
                ra == data::rows_of(*a),
                rb == data::rows_of(*b),
                forall|k: int| 0 <= k < j ==> x@[k] == y@[k],
            decreases x@.len() - j,
        {
            if x[j] != y[j] {
                assert(ra[i as int][j as int] != rb[i as int][j as int]);
                return false;
            }
            j = j + 1;
        }
        assert(x@ =~= y@);
        i = i + 1;
    }
    assert(ra =~= rb);
    true
}

/// The prediction for one variant.
fn predict<S: Solver>(s: &S, variant: (Grid, S::T), puzzle_id: u32) -> (r: Result<
    (Grid, S::T),
    EvalError<S::E>,
>)
    ensures
        match r {
            Ok(pred) => is_pred::<S>(s, variant, puzzle_id, pred),
            Err(e) => is_refusal::<S>(s, variant, puzzle_id, e),
        },
{
    let ghost given = variant;
    let (grid, transform) = variant;
    let rows: usize = grid.len();
    let cols: usize = if rows > 0 {
        grid[0].len()
    } else {
        0
    };
    let tokens = tokenize_grid(&grid);
    let len: usize = tokens.len();
    match rows.checked_mul(cols) {
        Some(n) => {
            if n != len {
                return Err(EvalError::Ragged);
            }
        },
        None => {
            return Err(EvalError::Ragged);
        },
    }
    let out = s.forward_inference(&tokens, len, puzzle_id);
    assert(call_ensures(
        S::forward_inference,
        (s, &tokens, tokens@.len() as usize, puzzle_id),
        out,
    ));
    match out {
        Ok(pred) => {
            let back = detokenize_grid(pred.as_slice(), rows, cols);
            assert(call_ensures(
                S::forward_inference,
                (s, &tokens, tokens@.len() as usize, puzzle_id),
                Ok::<Vec<u32>, S::E>(pred),
            ));
            let answer = (back, transform);
            assert(is_pred::<S>(s, given, puzzle_id, answer));
            Ok(answer)
        },
        Err(m) => {
            assert(call_ensures(
                S::forward_inference,
                (s, &tokens, tokens@.len() as usize, puzzle_id),
                Err::<Vec<u32>, S::E>(m),
            ));
            assert(is_failure::<S>(s, given, puzzle_id, m));
            Err(EvalError::Model(m))
        },
    }
}

/// The answer of one attempt.
fn vote<S: Solver>(s: &S, n: usize, seed: u64, puzzle: &Grid, puzzle_id: u32) -> (r: Result<
    Grid,
    EvalError<S::E>,
>)
    ensures
        match r {
            Ok(voted) => is_vote::<S>(s, n, seed, puzzle, puzzle_id, voted),
            Err(e) => vote_fails::<S>(s, n, seed, puzzle, puzzle_id, e),
        },
{
    let variants = s.augment_grid(n, seed, puzzle);
    let ghost all = variants;
    assert(call_ensures(S::augment_grid, (s, n, seed, puzzle), all));
    let mut preds: Vec<(Grid, S::T)> = Vec::new();
    for v in it: variants.into_iter()
        invariant
            call_ensures(S::augment_grid, (s, n, seed, puzzle), all),
            it.seq() == all@,
            preds@.len() == it.index(),
            are_preds::<S>(s, all@, puzzle_id, preds@),
    {
        let ghost before = preds@;
        let ghost k = it.index();
        assert(v == all@[k]);
        let p = predict(s, v, puzzle_id);
        match p {
            Ok(pred) => {
                preds.push(pred);
                assert forall|i: int| 0 <= i < preds@.len() implies is_pred::<S>(
                    s,
                    all@[i],
                    puzzle_id,
                    #[trigger] preds@[i],
                ) by {
                    if i < before.len() {
                        assert(preds@[i] == before[i]);
                    }
                }
            },
            Err(e) => {
                assert(are_preds::<S>(s, all@, puzzle_id, preds@));
                assert(is_refusal::<S>(s, all@[preds@.len() as int], puzzle_id, e));
                return Err(e);
            },
        }
    }
    let voted = s.majority_vote(n, seed, &preds);
    assert(call_ensures(S::majority_vote, (s, n, seed, &preds), voted));
    Ok(voted)
}

/// Whether a puzzle is solved within the attempts.
fn try_puzzle<S: Solver>(
    s: &S,
    n: usize,
    attempts: u64,
    puzzle: &Grid,
    solution: &Grid,
    puzzle_id: u32,
) -> (r: Result<bool, EvalError<S::E>>)
    requires
        0 < attempts <= 2,
    ensures
        ({
            let t = Test { puzzle: *puzzle, solution: *solution, puzzle_id };
            match r {
                Ok(hit) => is_tried::<S>(s, n, attempts as int, t, hit),
                Err(e) => try_fails::<S>(s, n, attempts as int, t, e),
            }
        }),
{
    let ghost t = Test { puzzle: *puzzle, solution: *solution, puzzle_id };
    let ghost mut votes: Seq<Grid> = Seq::empty();
    let mut attempt: u64 = 0;
    while attempt < attempts
        invariant
            attempt <= attempts <= 2,
            0 < attempts,
            votes.len() == attempt,
            are_votes::<S>(s, n, puzzle, puzzle_id, votes),
            all_miss(votes, *solution),
            t == (Test { puzzle: *puzzle, solution: *solution, puzzle_id }),
        decreases attempts - attempt,
    {
        let seed: u64 = 42 + attempt * 0x9E3779B97F4A7C15;
        assert(seed == attempt_seed(attempt as int) as u64);
        match vote(s, n, seed, puzzle, puzzle_id) {
            Ok(voted) => {
                let ghost before = votes;
                proof {
                    votes = votes.push(voted);
                    assert(votes.drop_last() =~= before);
                    assert forall|i: int| 0 <= i < votes.len() implies is_vote::<S>(
                        s,
                        n,
                        attempt_seed(i) as u64,
                        puzzle,
                        puzzle_id,
                        #[trigger] votes[i],
                    ) by {
                        if i < before.len() {
                            assert(votes[i] == before[i]);
                        }
                    }
                    assert(are_votes::<S>(s, n, puzzle, puzzle_id, votes));
                }
                if same_grid(&voted, solution) {
                    assert(are_votes::<S>(s, n, &t.puzzle, t.puzzle_id, votes));
                    assert(is_tried::<S>(s, n, attempts as int, t, true));
                    return Ok(true);
                }
                proof {
                    assert forall|i: int| 0 <= i < votes.len() implies !same_cells(
                        #[trigger] votes[i],
                        *solution,
                    ) by {
                        if i < before.len() {
                            assert(votes[i] == before[i]);
                        }
                    }
                }
            },
            Err(e) => {
                assert(are_votes::<S>(s, n, &t.puzzle, t.puzzle_id, votes));
                assert(try_fails::<S>(s, n, attempts as int, t, e));
                return Err(e);
            },
        }
        attempt = attempt + 1;
    }
    proof {
        assert(all_miss(votes.drop_last(), *solution)) by {
            assert forall|i: int| 0 <= i < votes.drop_last().len() implies !same_cells(
                #[trigger] votes.drop_last()[i],
                *solution,
            ) by {
                assert(votes.drop_last()[i] == votes[i]);
            }
        }
        assert(!same_cells(votes[votes.len() - 1], *solution));
        assert(are_votes::<S>(s, n, &t.puzzle, t.puzzle_id, votes));
        assert(is_tried::<S>(s, n, attempts as int, t, false));
    }
    Ok(false)
}

proof fn tests_prefix(tasks: Seq<(String, ArcTask)>, k: int)
    requires
        0 <= k <= tasks.len(),
    ensures
        all_tests(tasks.take(k)).len() <= all_tests(tasks).len(),
        forall|i: int|
            0 <= i < all_tests(tasks.take(k)).len() ==> #[trigger] all_tests(tasks.take(k))[i]
                == all_tests(tasks)[i],
    decreases tasks.len(),
{
    if k == tasks.len() {
        assert(tasks.take(k) =~= tasks);
    } else {
        tests_prefix(tasks.drop_last(), k);
        assert(tasks.drop_last().take(k) =~= tasks.take(k));
    }
}

/// `r` is what an evaluation comes to: how many puzzles there are and how many of them were hit,
/// or why the first one that could not be tried failed.
pub open spec fn is_evaluated<S: Solver>(
    s: &S,
    tasks: Seq<(String, ArcTask)>,
    n: usize,
    two_try: bool,
    r: Result<EvalResult, EvalError<S::E>>,
) -> bool {
    let attempts = attempt_count(two_try);
    let tests = all_tests(tasks);
    exists|hits: Seq<bool>|
        {
            &&& #[trigger] are_tried::<S>(s, n, attempts, tests, hits)
            &&& match r {
                Ok(res) => {
                    &&& hits.len() == tests.len()
                    &&& res.total == tests.len()
                    &&& res.exact == hit_count(hits)
                },
                Err(e) => hits.len() < tests.len() && try_fails::<S>(
                    s,
                    n,
                    attempts,
                    tests[hits.len() as int],
                    e,
                ),
            }
        }
}

/// Evaluates tasks: each test puzzle gets one attempt, or two, and counts as solved where the
/// vote of an attempt is its solution. The first failure ends the evaluation.
pub fn evaluate_arc_tasks<S: Solver>(
    s: &S,
    tasks: &[(String, ArcTask)],
    n_augmentations: usize,
    two_try: bool,
) -> (r: Result<EvalResult, EvalError<S::E>>)
    requires
        forall|i: int| 0 <= i < tasks@.len() ==> has_solutions((#[trigger] tasks@[i]).1),
        all_tests(tasks@).len() <= usize::MAX,
    ensures
        is_evaluated::<S>(s, tasks@, n_augmentations, two_try, r),
{
    let attempts: u64 = if two_try {
        2
    } else {
        1
    };
    let ghost tests = all_tests(tasks@);
    let ghost mut hits: Seq<bool> = Seq::empty();
    let mut total: usize = 0;
    let mut exact: usize = 0;
    let mut i: usize = 0;
    assert(tasks@.take(0) =~= Seq::empty());
    while i < tasks.len()
        invariant
            i <= tasks@.len(),
            0 < attempts <= 2,
            tests == all_tests(tasks@),
            tests.len() <= usize::MAX,
            forall|k: int| 0 <= k < tasks@.len() ==> has_solutions((#[trigger] tasks@[k]).1),
            hits.len() == all_tests(tasks@.take(i as int)).len(),
            total == hits.len(),
            exact == hit_count(hits),
            exact <= total,
            are_tried::<S>(s, n_augmentations, attempts as int, tests, hits),
            attempts == attempt_count(two_try),
        decreases tasks@.len() - i,
    {
        let task = &tasks[i].1;
        let ghost base = all_tests(tasks@.take(i as int)).len() as int;
        proof {
            assert(tasks@.take(i + 1).drop_last() =~= tasks@.take(i as int));
            tests_prefix(tasks@, i + 1);
            assert(has_solutions(tasks@[i as int].1));
        }
        let ghost upto = all_tests(tasks@.take(i + 1));
        assert(upto == all_tests(tasks@.take(i as int)) + task_tests(*task));
        let mut j: usize = 0;
        while j < task.test_inputs.len()
            invariant
                j <= task.test_inputs@.len(),
                has_solutions(*task),
                0 < attempts <= 2,
                tests == all_tests(tasks@),
                tests.len() <= usize::MAX,
                upto.len() == base + task.test_inputs@.len(),
                upto.len() <= tests.len(),
                forall|k: int| 0 <= k < upto.len() ==> #[trigger] upto[k] == tests[k],
                forall|k: int|
                    0 <= k < task.test_inputs@.len() ==> upto[base + k] == #[trigger] task_tests(
                        *task,
                    )[k],
                0 <= base,
                hits.len() == base + j,
                total == hits.len(),
                exact == hit_count(hits),
                exact <= total,
                are_tried::<S>(s, n_augmentations, attempts as int, tests, hits),
                attempts == attempt_count(two_try),
            decreases task.test_inputs@.len() - j,
        {
            let ghost t = task_tests(*task)[j as int];
            assert(upto[base + j] == tests[base + j]);
            assert(tests[base + j] == t);
            let tried = try_puzzle(
                s,
                n_augmentations,
                attempts,
                &task.test_inputs[j],
                &task.test_outputs[j],
                task.puzzle_id,
            );
            match tried {
                Ok(hit) => {
                    let ghost before = hits;
                    proof {
                        hits = hits.push(hit);
                        assert(hits.drop_last() =~= before);
                        assert forall|k: int| 0 <= k < hits.len() implies is_tried::<S>(
                            s,
                            n_augmentations,
                            attempts as int,
                            tests[k],
                            #[trigger] hits[k],
                        ) by {
                            if k < before.len() {
                                assert(hits[k] == before[k]);
                            }
                        }
                    }
                    if hit {
                        exact = exact + 1;
                    }
                    total = total + 1;
                },
                Err(e) => {
                    assert(try_fails::<S>(
                        s,
                        n_augmentations,
                        attempts as int,
                        tests[hits.len() as int],
                        e,
                    ));
                    assert(are_tried::<S>(
                        s,
                        n_augmentations,
                        attempt_count(two_try),
                        tests,
                        hits,
                    ));
                    return Err(e);
                },
            }
            j = j + 1;
        }
        i = i + 1;
    }
    assert(tasks@.take(tasks@.len() as int) =~= tasks@);
    assert(are_tried::<S>(s, n_augmentations, attempt_count(two_try), tests, hits));
    Ok(EvalResult { total, exact })
}

/// No more puzzles are solved than there are, so the accuracy is at most one.
pub proof fn solved_at_most_all(hits: Seq<bool>)
    ensures
        hit_count(hits) <= hits.len(),
    decreases hits.len(),
{
    if hits.len() > 0 {
        solved_at_most_all(hits.drop_last());
    }
}

/// How many test puzzles the tasks have.
pub open spec fn input_count(tasks: Seq<(String, ArcTask)>) -> nat
    decreases tasks.len(),
{
    if tasks.len() == 0 {
        0
    } else {
        input_count(tasks.drop_last()) + tasks.last().1.test_inputs@.len()
    }
}

proof fn tests_count(tasks: Seq<(String, ArcTask)>)
    ensures
        all_tests(tasks).len() == input_count(tasks),
    decreases tasks.len(),
{
    if tasks.len() > 0 {
        tests_count(tasks.drop_last());
    }
}

/// Two lists of predictions are the same cell by cell and came about the same way.
pub open spec fn same_preds<T>(a: Seq<(Grid, T)>, b: Seq<(Grid, T)>) -> bool {
    &&& a.len() == b.len()
    &&& forall|i: int|
        0 <= i < a.len() ==> same_cells((#[trigger] a[i]).0, b[i].0) && a[i].1 == b[i].1
}

/// The solver gives the same answer to the same question.
pub open spec fn is_steady<S: Solver>(s: &S) -> bool {
    &&& forall|n: usize, seed: u64, g: &Grid, a: Vec<(Grid, S::T)>, b: Vec<(Grid, S::T)>| #[trigger]
        call_ensures(S::augment_grid, (s, n, seed, g), a) && #[trigger] call_ensures(
            S::augment_grid,
            (s, n, seed, g),
            b,
        ) ==> a@ == b@
    &&& forall|
        t: &Vec<u32>,
        u: &Vec<u32>,
        len: usize,
        id: u32,
        a: Vec<u32>,
        b: Vec<u32>,
    | #[trigger]
        call_ensures(S::forward_inference, (s, t, len, id), Ok::<Vec<u32>, S::E>(a))
            && #[trigger] call_ensures(
            S::forward_inference,
            (s, u, len, id),
            Ok::<Vec<u32>, S::E>(b),
        ) && t@ == u@ ==> a@ == b@
    &&& forall|
        n: usize,
        seed: u64,
        p: &Vec<(Grid, S::T)>,
        q: &Vec<(Grid, S::T)>,
        a: Grid,
        b: Grid,
    | #[trigger]
        call_ensures(S::majority_vote, (s, n, seed, p), a) && #[trigger] call_ensures(
            S::majority_vote,
            (s, n, seed, q),
            b,
        ) && same_preds(p@, q@) ==> same_cells(a, b)
}

proof fn same_pred<S: Solver>(
    s: &S,
    variant: (Grid, S::T),
    puzzle_id: u32,
    a: (Grid, S::T),
    b: (Grid, S::T),
)
    requires
        is_steady::<S>(s),
        is_pred::<S>(s, variant, puzzle_id, a),
        is_pred::<S>(s, variant, puzzle_id, b),
    ensures
        same_cells(a.0, b.0),
        a.1 == b.1,
{
    let rows = data::rows_of(variant.0);
    let h = variant.0@.len() as int;
    let w = width(variant.0) as int;
    let (t, x) = choose|tokens: Vec<u32>, out: Vec<u32>|
        {
            &&& #[trigger] call_ensures(
                S::forward_inference,
                (s, &tokens, tokens@.len() as usize, puzzle_id),
                Ok::<Vec<u32>, S::E>(out),
            )
            &&& tokens@ == data::grid_tokens(rows)
            &&& data::is_detokenized(out@, h, w, a.0)
        };
    let (u, y) = choose|tokens: Vec<u32>, out: Vec<u32>|
        {
            &&& #[trigger] call_ensures(
                S::forward_inference,
                (s, &tokens, tokens@.len() as usize, puzzle_id),
                Ok::<Vec<u32>, S::E>(out),
            )
            &&& tokens@ == data::grid_tokens(rows)
            &&& data::is_detokenized(out@, h, w, b.0)
        };
    assert(x@ == y@);
    assert forall|i: int| 0 <= i < h implies data::rows_of(a.0)[i] == #[trigger] data::rows_of(
        b.0,
    )[i] by {
        assert(a.0@[i]@.len() == w && b.0@[i]@.len() == w);
        assert forall|j: int| 0 <= j < w implies a.0@[i]@[j] == b.0@[i]@[j] by {}
        assert(a.0@[i]@ =~= b.0@[i]@);
    }
    assert(data::rows_of(a.0) =~= data::rows_of(b.0));
}

proof fn same_vote<S: Solver>(
    s: &S,
    n: usize,
    seed: u64,
    puzzle: &Grid,
    puzzle_id: u32,
    a: Grid,
    b: Grid,
)
    requires
        is_steady::<S>(s),
        is_vote::<S>(s, n, seed, puzzle, puzzle_id, a),
        is_vote::<S>(s, n, seed, puzzle, puzzle_id, b),
    ensures
        same_cells(a, b),
{
    let (v, p) = choose|variants: Vec<(Grid, S::T)>, preds: Vec<(Grid, S::T)>|
        {
            &&& #[trigger] call_ensures(S::augment_grid, (s, n, seed, puzzle), variants)
            &&& #[trigger] call_ensures(S::majority_vote, (s, n, seed, &preds), a)
            &&& preds@.len() == variants@.len()
            &&& are_preds::<S>(s, variants@, puzzle_id, preds@)
        };
    let (w, q) = choose|variants: Vec<(Grid, S::T)>, preds: Vec<(Grid, S::T)>|
        {
            &&& #[trigger] call_ensures(S::augment_grid, (s, n, seed, puzzle), variants)
            &&& #[trigger] call_ensures(S::majority_vote, (s, n, seed, &preds), b)
            &&& preds@.len() == variants@.len()
            &&& are_preds::<S>(s, variants@, puzzle_id, preds@)
        };
    assert(v@ == w@);
    assert forall|i: int| 0 <= i < p@.len() implies same_cells((#[trigger] p@[i]).0, q@[i].0)
        && p@[i].1 == q@[i].1 by {
        same_pred::<S>(s, v@[i], puzzle_id, p@[i], q@[i]);
    }
    assert(same_preds(p@, q@));
}

proof fn second_try_keeps_hit<S: Solver>(s: &S, n: usize, t: Test, one: bool, two: bool)
    requires
        is_steady::<S>(s),
        is_tried::<S>(s, n, 1, t, one),
        is_tried::<S>(s, n, 2, t, two),
    ensures
        one ==> two,
{
    let first = choose|votes: Seq<Grid>|
        {
            &&& #[trigger] are_votes::<S>(s, n, &t.puzzle, t.puzzle_id, votes)
            &&& 0 < votes.len() <= 1
            &&& all_miss(votes.drop_last(), t.solution)
            &&& one == same_cells(votes.last(), t.solution)
            &&& one || votes.len() == 1
        };
    let both = choose|votes: Seq<Grid>|
        {
            &&& #[trigger] are_votes::<S>(s, n, &t.puzzle, t.puzzle_id, votes)
            &&& 0 < votes.len() <= 2
            &&& all_miss(votes.drop_last(), t.solution)
            &&& two == same_cells(votes.last(), t.solution)
            &&& two || votes.len() == 2
        };
    assert(first[0] == first.last());
    same_vote::<S>(
        s,
        n,
        attempt_seed(0) as u64,
        &t.puzzle,
        t.puzzle_id,
        first[0],
        both[0],
    );
    if both.len() == 2 {
        assert(both.drop_last()[0] == both[0]);
    }
}

proof fn more_hits(one: Seq<bool>, two: Seq<bool>)
    requires
        one.len() == two.len(),
        forall|i: int| 0 <= i < one.len() && #[trigger] one[i] ==> two[i],
    ensures
        hit_count(one) <= hit_count(two),
    decreases one.len(),
{
    if one.len() > 0 {
        assert forall|i: int|
            0 <= i < one.len() - 1 && #[trigger] one.drop_last()[i] implies two.drop_last()[i] by {
            assert(one[i]);
        }
        more_hits(one.drop_last(), two.drop_last());
        assert(one[one.len() - 1] ==> two[two.len() - 1]);
    }
}

/// With a solver that gives the same answer to the same question, a second try never solves
/// fewer puzzles: one evaluation with one attempt and one with two count the same puzzles, those
/// of the tasks, and the second solves at least as many.
pub proof fn second_try_solves_no_fewer<S: Solver>(
    s: &S,
    tasks: Seq<(String, ArcTask)>,
    n: usize,
    once: EvalResult,
    twice: EvalResult,
)
    requires
        is_steady::<S>(s),
        is_evaluated::<S>(s, tasks, n, false, Ok(once)),
        is_evaluated::<S>(s, tasks, n, true, Ok(twice)),
    ensures
        once.total == input_count(tasks),
        twice.total == once.total,
        once.exact <= twice.exact <= twice.total,
{
    let tests = all_tests(tasks);
    tests_count(tasks);
    let one = choose|hits: Seq<bool>| #[trigger]
        are_tried::<S>(s, n, 1, tests, hits) && hits.len() == tests.len() && once.exact
            == hit_count(hits);
    let two = choose|hits: Seq<bool>| #[trigger]
        are_tried::<S>(s, n, 2, tests, hits) && hits.len() == tests.len() && twice.exact
            == hit_count(hits);
    assert forall|i: int| 0 <= i < one.len() && #[trigger] one[i] implies two[i] by {
        assert(is_tried::<S>(s, n, 2, tests[i], two[i]));
        second_try_keeps_hit::<S>(s, n, tests[i], one[i], two[i]);
    }
    more_hits(one, two);
    solved_at_most_all(two);
}

} // verus!
