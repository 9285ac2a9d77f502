//! What an evaluation of ARC tasks counts.

use crate::data;
use crate::data::{ArcTask, Grid};
use crate::task_eval;
use crate::task_eval::{EvalResult, Solver, Test};
use vstd::prelude::*;

verus! {

/// What a solver answers, as functions of what it is asked.
#[verifier::reject_recursive_types(T)]
pub struct Answers<T> {
    /// The variants of a puzzle, given their number and a seed.
    pub variants: spec_fn(usize, u64, Seq<Seq<u8>>) -> Seq<(Seq<Seq<u8>>, T)>,
    /// The predicted tokens for the tokens of a puzzle of that number.
    pub infer: spec_fn(Seq<u32>, u32) -> Seq<u32>,
    /// The vote over predictions, given the number of variants and the seed.
    pub vote: spec_fn(usize, u64, Seq<(Seq<Seq<u8>>, T)>) -> Seq<Seq<u8>>,
}

/// The cells of a grid, row by row.
pub open spec fn cells(g: Grid) -> Seq<Seq<u8>> {
    Seq::new(g@.len(), |i: int| g@[i]@)
}

/// Grids by their cells, each beside what came with it.
pub open spec fn beside<T>(v: Seq<(Grid, T)>) -> Seq<(Seq<Seq<u8>>, T)> {
    Seq::new(v.len(), |i: int| (cells(v[i].0), v[i].1))
}

/// The solver answers by these functions.
pub open spec fn answers_by<S: Solver>(s: &S, a: Answers<S::T>) -> bool {
    &&& forall|n: usize, seed: u64, g: &Grid, v: Vec<(Grid, S::T)>| #[trigger]
        call_ensures(S::augment_grid, (s, n, seed, g), v) ==> beside(v@) == (a.variants)(
            n,
            seed,
            cells(*g),
        )
    &&& forall|t: &Vec<u32>, len: usize, id: u32, out: Vec<u32>| #[trigger]
        call_ensures(S::forward_inference, (s, t, len, id), Ok::<Vec<u32>, S::E>(out)) && len
            == t@.len() ==> out@ == (a.infer)(t@, id)
    &&& forall|n: usize, seed: u64, p: &Vec<(Grid, S::T)>, g: Grid| #[trigger]
        call_ensures(S::majority_vote, (s, n, seed, p), g) ==> cells(g) == (a.vote)(
            n,
            seed,
            beside(p@),
        )
}

/// The rows of a grid, one after the other, as tokens.
pub open spec fn in_a_row(g: Seq<Seq<u8>>) -> Seq<u32> {
    g.flatten().map_values(|c: u8| c as u32)
}

/// Tokens laid out in as many rows of the same length as a grid has; what is missing is 0.
pub open spec fn laid_out(tokens: Seq<u32>, like: Seq<Seq<u8>>) -> Seq<Seq<u8>> {
    let w = if like.len() > 0 {
        like[0].len()
    } else {
        0
    };
    Seq::new(
        like.len(),
        |r: int|
            Seq::new(
                w,
                |c: int|
                    if r * w + c < tokens.len() {
                        tokens[r * w + c] as u8
                    } else {
                        0
                    },
            ),
    )
}

/// What a solver votes for as the answer to a puzzle: each variant is read as tokens, answered,
/// and laid out in the shape of the variant.
pub open spec fn answer<T>(
    a: Answers<T>,
    n: usize,
    seed: u64,
    id: u32,
    puzzle: Seq<Seq<u8>>,
) -> Seq<Seq<u8>> {
    let v = (a.variants)(n, seed, puzzle);
    (a.vote)(
        n,
        seed,
        Seq::new(
            v.len(),
            |i: int| (laid_out((a.infer)(in_a_row(v[i].0), id), v[i].0), v[i].1),
        ),
    )
}

/// Test puzzle `j` of a task is solved: with the first seed, or with the second one where there
/// are two tries, the answer is the cells of the output at place `j`.
pub open spec fn solves<T>(
    a: Answers<T>,
    n: usize,
    two_try: bool,
    task: ArcTask,
    j: int,
) -> bool {
    let puzzle = cells(task.test_inputs@[j]);
    let output = cells(task.test_outputs@[j]);
    ||| answer(a, n, 42u64, task.puzzle_id, puzzle) == output
    ||| two_try && answer(a, n, 0x9E3779B97F4A7C3Fu64, task.puzzle_id, puzzle) == output
}

/// How many of the first `k` test puzzles of a task are solved.
pub open spec fn solved_among<T>(
    a: Answers<T>,
    n: usize,
    two_try: bool,
    task: ArcTask,
    k: int,
) -> int
    decreases k,
{
    if k <= 0 {
        0
    } else {
        solved_among(a, n, two_try, task, k - 1) + if solves(a, n, two_try, task, k - 1) {
            1int
        } else {
            0
        }
    }
}

/// How many test puzzles the tasks have, and how many of them are solved.
pub open spec fn scores<T>(
    a: Answers<T>,
    n: usize,
    two_try: bool,
    tasks: Seq<(String, ArcTask)>,
) -> (int, int)
    decreases tasks.len(),
{
    if tasks.len() == 0 {
        (0, 0)
    } else {
        let before = scores(a, n, two_try, tasks.drop_last());
        let task = tasks.last().1;
        let count = task.test_inputs@.len() as int;
        (before.0 + count, before.1 + solved_among(a, n, two_try, task, count))
    }
}

pub(crate) proof fn flat_tokens(g: Seq<Seq<u8>>)
    ensures
        data::grid_tokens(g) == in_a_row(g),
    decreases g.len(),
{
    g.lemma_flatten_and_flatten_alt_are_equivalent();
    if g.len() > 0 {
        let front = g.drop_last();
        flat_tokens(front);
        front.lemma_flatten_and_flatten_alt_are_equivalent();
        assert(g.flatten() == front.flatten() + g.last());
        assert(data::grid_tokens(g) =~= in_a_row(g));
    } else {
        assert(data::grid_tokens(g) =~= in_a_row(g));
    }
}

proof fn vote_is_answer<S: Solver>(
    s: &S,
    a: Answers<S::T>,
    n: usize,
    seed: u64,
    puzzle: &Grid,
    id: u32,
    voted: Grid,
)
    requires
        answers_by(s, a),
        task_eval::is_vote::<S>(s, n, seed, puzzle, id, voted),
    ensures
        cells(voted) == answer(a, n, seed, id, cells(*puzzle)),
{
    let (variants, preds) = choose|variants: Vec<(Grid, S::T)>, preds: Vec<(Grid, S::T)>|
        {
            &&& #[trigger] call_ensures(S::augment_grid, (s, n, seed, puzzle), variants)
            &&& #[trigger] call_ensures(S::majority_vote, (s, n, seed, &preds), voted)
            &&& preds@.len() == variants@.len()
            &&& task_eval::are_preds::<S>(s, variants@, id, preds@)
        };
    let v = (a.variants)(n, seed, cells(*puzzle));
    let want = Seq::new(
        v.len(),
        |i: int| (laid_out((a.infer)(in_a_row(v[i].0), id), v[i].0), v[i].1),
    );
    let got = beside(preds@);
    assert forall|i: int| 0 <= i < got.len() implies #[trigger] got[i] == want[i] by {
        let (x, p) = (variants@[i], preds@[i]);
        assert(v[i] == beside(variants@)[i]);
        assert(task_eval::is_pred::<S>(s, x, id, p));
        let (tokens, out) = choose|tokens: Vec<u32>, out: Vec<u32>|
            {
                &&& #[trigger] call_ensures(
                    S::forward_inference,
                    (s, &tokens, tokens@.len() as usize, id),
                    Ok::<Vec<u32>, S::E>(out),
                )
                &&& tokens@ == data::grid_tokens(data::rows_of(x.0))
                &&& data::is_detokenized(
                    out@,
                    x.0@.len() as int,
                    task_eval::width(x.0) as int,
                    p.0,
                )
            };
        assert(data::rows_of(x.0) =~= cells(x.0));
        flat_tokens(cells(x.0));
        assert(tokens@.len() == tokens.len());
        assert(out@ == (a.infer)(in_a_row(cells(x.0)), id));
        let laid = laid_out(out@, cells(x.0));
        assert forall|r: int| 0 <= r < laid.len() implies #[trigger] cells(p.0)[r] == laid[r] by {
            assert(p.0@[r]@.len() == task_eval::width(x.0));
            assert forall|c: int| 0 <= c < laid[r].len() implies #[trigger] cells(p.0)[r][c]
                == laid[r][c] by {
                assert(p.0@[r]@[c] == data::colour_at(
                    out@,
                    r * task_eval::width(x.0) + c,
                ));
            }
            assert(cells(p.0)[r] =~= laid[r]);
        }
        assert(cells(p.0) =~= laid);
    }
    assert(got =~= want);
}

proof fn tried_is_solved<S: Solver>(
    s: &S,
    a: Answers<S::T>,
    n: usize,
    two_try: bool,
    task: ArcTask,
    j: int,
    hit: bool,
)
    requires
        answers_by(s, a),
        0 <= j < task.test_inputs@.len(),
        task_eval::is_tried::<S>(
            s,
            n,
            task_eval::attempt_count(two_try),
            task_eval::task_tests(task)[j],
            hit,
        ),
    ensures
        hit == solves(a, n, two_try, task, j),
{
    let t = task_eval::task_tests(task)[j];
    let attempts = task_eval::attempt_count(two_try);
    let votes = choose|votes: Seq<Grid>|
        {
            &&& #[trigger] task_eval::are_votes::<S>(s, n, &t.puzzle, t.puzzle_id, votes)
            &&& 0 < votes.len() <= attempts
            &&& task_eval::all_miss(votes.drop_last(), t.solution)
            &&& hit == task_eval::same_cells(votes.last(), t.solution)
            &&& hit || votes.len() == attempts
        };
    let output = cells(task.test_outputs@[j]);
    assert(data::rows_of(t.solution) =~= output);
    let seed0 = task_eval::attempt_seed(0) as u64;
    assert(seed0 == 42u64);
    vote_is_answer(s, a, n, seed0, &t.puzzle, t.puzzle_id, votes[0]);
    assert(data::rows_of(votes[0]) =~= cells(votes[0]));
    if votes.len() == 2 {
        let seed1 = task_eval::attempt_seed(1) as u64;
        assert(seed1 == 0x9E3779B97F4A7C3Fu64);
        vote_is_answer(s, a, n, seed1, &t.puzzle, t.puzzle_id, votes[1]);
        assert(data::rows_of(votes[1]) =~= cells(votes[1]));
        assert(votes.drop_last()[0] == votes[0]);
    }
}

proof fn hits_add<S: Solver>(
    s: &S,
    a: Answers<S::T>,
    n: usize,
    two_try: bool,
    task: ArcTask,
    hits: Seq<bool>,
    base: int,
    k: int,
)
    requires
        answers_by(s, a),
        0 <= base,
        0 <= k <= task.test_inputs@.len(),
        hits.len() == base + k,
        forall|j: int|
            0 <= j < k ==> task_eval::is_tried::<S>(
                s,
                n,
                task_eval::attempt_count(two_try),
                #[trigger] task_eval::task_tests(task)[j],
                hits[base + j],
            ),
    ensures
        task_eval::hit_count(hits) == task_eval::hit_count(hits.take(base)) + solved_among(
            a,
            n,
            two_try,
            task,
            k,
        ),
    decreases k,
{
    if k == 0 {
        assert(hits.take(base) =~= hits);
    } else {
        let front = hits.drop_last();
        assert(front.take(base) =~= hits.take(base));
        assert forall|j: int| 0 <= j < k - 1 implies task_eval::is_tried::<S>(
            s,
            n,
            task_eval::attempt_count(two_try),
            #[trigger] task_eval::task_tests(task)[j],
            front[base + j],
        ) by {
            assert(front[base + j] == hits[base + j]);
        }
        hits_add(s, a, n, two_try, task, front, base, k - 1);
        assert(task_eval::is_tried::<S>(
            s,
            n,
            task_eval::attempt_count(two_try),
            task_eval::task_tests(task)[k - 1],
            hits[base + (k - 1)],
        ));
        tried_is_solved(s, a, n, two_try, task, k - 1, hits.last());
    }
}

proof fn hits_are_scores<S: Solver>(
    s: &S,
    a: Answers<S::T>,
    n: usize,
    two_try: bool,
    tasks: Seq<(String, ArcTask)>,
    hits: Seq<bool>,
)
    requires
        answers_by(s, a),
        hits.len() == task_eval::all_tests(tasks).len(),
        task_eval::are_tried::<S>(
            s,
            n,
            task_eval::attempt_count(two_try),
            task_eval::all_tests(tasks),
            hits,
        ),
    ensures
        hits.len() == scores(a, n, two_try, tasks).0,
        task_eval::hit_count(hits) == scores(a, n, two_try, tasks).1,
    decreases tasks.len(),
{
    if tasks.len() > 0 {
        let front = tasks.drop_last();
        let task = tasks.last().1;
        let tests = task_eval::all_tests(tasks);
        let before = task_eval::all_tests(front);
        let base = before.len() as int;
        let k = task.test_inputs@.len() as int;
        let first = hits.take(base);
        let attempts = task_eval::attempt_count(two_try);
        assert(tests == before + task_eval::task_tests(task));
        assert forall|i: int| 0 <= i < first.len() implies task_eval::is_tried::<S>(
            s,
            n,
            attempts,
            before[i],
            #[trigger] first[i],
        ) by {
            assert(first[i] == hits[i]);
            assert(tests[i] == before[i]);
        }
        hits_are_scores(s, a, n, two_try, front, first);
        assert forall|j: int| 0 <= j < k implies task_eval::is_tried::<S>(
            s,
            n,
            attempts,
            #[trigger] task_eval::task_tests(task)[j],
            hits[base + j],
        ) by {
            assert(tests[base + j] == task_eval::task_tests(task)[j]);
            assert(task_eval::is_tried::<S>(s, n, attempts, tests[base + j], hits[base + j]));
        }
        hits_add(s, a, n, two_try, task, hits, base, k);
    }
}

/// With a solver whose answers are functions of what it is asked, an evaluation counts every test
/// puzzle of every task once, and as solved exactly those whose answer is, cell by cell, the
/// output at the same place of the same task: the answer with seed 42, or, with two tries, the one
/// with the second seed.
pub proof fn evaluation_counts_the_solved<S: Solver>(
    s: &S,
    a: Answers<S::T>,
    tasks: Seq<(String, ArcTask)>,
    n: usize,
    two_try: bool,
    r: EvalResult,
)
    requires
        answers_by(s, a),
        task_eval::is_evaluated::<S>(s, tasks, n, two_try, Ok(r)),
    ensures
        r.total == scores(a, n, two_try, tasks).0,
        r.exact == scores(a, n, two_try, tasks).1,
{
    let tests = task_eval::all_tests(tasks);
    let hits = choose|hits: Seq<bool>| #[trigger]
        task_eval::are_tried::<S>(s, n, task_eval::attempt_count(two_try), tests, hits)
            && hits.len() == tests.len() && r.total == tests.len() && r.exact
            == task_eval::hit_count(hits);
    hits_are_scores(s, a, n, two_try, tasks, hits);
}

proof fn all_or_none<T>(
    a: Answers<T>,
    n: usize,
    two_try: bool,
    task: ArcTask,
    k: int,
    hit: bool,
)
    requires
        0 <= k <= task.test_inputs@.len(),
        forall|j: int| 0 <= j < k ==> #[trigger] solves(a, n, two_try, task, j) == hit,
    ensures
        solved_among(a, n, two_try, task, k) == if hit {
            k
        } else {
            0
        },
    decreases k,
{
    if k > 0 {
        all_or_none(a, n, two_try, task, k - 1, hit);
        assert(solves(a, n, two_try, task, k - 1) == hit);
    }
}

proof fn all_or_none_tasks<T>(
    a: Answers<T>,
    n: usize,
    two_try: bool,
    tasks: Seq<(String, ArcTask)>,
    hit: bool,
)
    requires
        forall|i: int, j: int|
            0 <= i < tasks.len() && 0 <= j < tasks[i].1.test_inputs@.len() ==> #[trigger] solves(
                a,
                n,
                two_try,
                tasks[i].1,
                j,
            ) == hit,
    ensures
        scores(a, n, two_try, tasks).1 == if hit {
            scores(a, n, two_try, tasks).0
        } else {
            0
        },
    decreases tasks.len(),
{
    if tasks.len() > 0 {
        let front = tasks.drop_last();
        assert forall|i: int, j: int|
            0 <= i < front.len() && 0 <= j < front[i].1.test_inputs@.len() implies #[trigger] solves(
            a,
            n,
            two_try,
            front[i].1,
            j,
        ) == hit by {
            assert(front[i] == tasks[i]);
            assert(solves(a, n, two_try, tasks[i].1, j) == hit);
        }
        all_or_none_tasks(a, n, two_try, front, hit);
        let task = tasks.last().1;
        assert forall|j: int| 0 <= j < task.test_inputs@.len() implies #[trigger] solves(
            a,
            n,
            two_try,
            task,
            j,
        ) == hit by {
            assert(solves(a, n, two_try, tasks[tasks.len() - 1].1, j) == hit);
        }
        all_or_none(a, n, two_try, task, task.test_inputs@.len() as int, hit);
    }
}

/// A solver that votes for the output of every test puzzle at its own place solves all of them.
pub proof fn right_answers_score_all<S: Solver>(
    s: &S,
    a: Answers<S::T>,
    tasks: Seq<(String, ArcTask)>,
    n: usize,
    two_try: bool,
    r: EvalResult,
)
    requires
        answers_by(s, a),
        task_eval::is_evaluated::<S>(s, tasks, n, two_try, Ok(r)),
        forall|i: int, j: int|
            0 <= i < tasks.len() && 0 <= j < tasks[i].1.test_inputs@.len() ==> #[trigger] answer(
                a,
                n,
                42u64,
                tasks[i].1.puzzle_id,
                cells(tasks[i].1.test_inputs@[j]),
            ) == cells(tasks[i].1.test_outputs@[j]),
    ensures
        r.exact == r.total,
{
    evaluation_counts_the_solved(s, a, tasks, n, two_try, r);
    assert forall|i: int, j: int|
        0 <= i < tasks.len() && 0 <= j < tasks[i].1.test_inputs@.len() implies #[trigger] solves(
        a,
        n,
        two_try,
        tasks[i].1,
        j,
    ) == true by {
        assert(answer(
            a,
            n,
            42u64,
            tasks[i].1.puzzle_id,
            cells(tasks[i].1.test_inputs@[j]),
        ) == cells(tasks[i].1.test_outputs@[j]));
    }
    all_or_none_tasks(a, n, two_try, tasks, true);
}

/// A solver whose votes all differ from the output at the place of their puzzle solves none.
pub proof fn wrong_answers_score_none<S: Solver>(
    s: &S,
    a: Answers<S::T>,
    tasks: Seq<(String, ArcTask)>,
    n: usize,
    two_try: bool,
    r: EvalResult,
)
    requires
        answers_by(s, a),
        task_eval::is_evaluated::<S>(s, tasks, n, two_try, Ok(r)),
        forall|i: int, j: int, seed: u64|
            0 <= i < tasks.len() && 0 <= j < tasks[i].1.test_inputs@.len() ==> #[trigger] answer(
                a,
                n,
                seed,
                tasks[i].1.puzzle_id,
                cells(tasks[i].1.test_inputs@[j]),
            ) != cells(tasks[i].1.test_outputs@[j]),
    ensures
        r.exact == 0,
{
    evaluation_counts_the_solved(s, a, tasks, n, two_try, r);
    all_or_none_tasks(a, n, two_try, tasks, false);
}

} // verus!
