//! Puzzles as token sequences: grids, ARC tasks, sudoku lines and maze drawings.

use crate::grid;
use crate::text;
use vstd::prelude::*;

verus! {

/// A grid of colours, row by row.
pub type Grid = Vec<Vec<u8>>;

/// The rows of a grid.
pub open spec fn rows_of(g: Grid) -> Seq<Seq<u8>> {
    Seq::new(g@.len(), |i: int| g@[i]@)
}

/// A question and its answer as tokens.
#[derive(Debug, Clone)]
pub struct TokenizedExample {
    pub puzzle_id: u32,
    pub x_tokens: Vec<u32>,
    pub y_tokens: Vec<u32>,
    pub rows: usize,
    pub cols: usize,
    pub x_seq_len: usize,
    pub y_seq_len: usize,
}

/// What a [`TokenizedExample`] holds.
#[verifier::ext_equal]
pub struct ExampleModel {
    pub puzzle_id: u32,
    pub x_tokens: Seq<u32>,
    pub y_tokens: Seq<u32>,
    pub rows: usize,
    pub cols: usize,
    pub x_seq_len: usize,
    pub y_seq_len: usize,
}

impl View for TokenizedExample {
    type V = ExampleModel;

    open spec fn view(&self) -> ExampleModel {
        ExampleModel {
            puzzle_id: self.puzzle_id,
            x_tokens: self.x_tokens@,
            y_tokens: self.y_tokens@,
            rows: self.rows,
            cols: self.cols,
            x_seq_len: self.x_seq_len,
            y_seq_len: self.y_seq_len,
        }
    }
}

/// The example of a question and an answer: its lengths are those of its tokens.
pub open spec fn example(
    puzzle_id: u32,
    x: Seq<u32>,
    y: Seq<u32>,
    rows: usize,
    cols: usize,
) -> ExampleModel {
    ExampleModel {
        puzzle_id,
        x_tokens: x,
        y_tokens: y,
        rows,
        cols,
        x_seq_len: x.len() as usize,
        y_seq_len: y.len() as usize,
    }
}

/// Several examples, each by what it holds.
pub open spec fn examples(v: Seq<TokenizedExample>) -> Seq<ExampleModel> {
    Seq::new(v.len(), |i: int| v[i]@)
}

fn make_example(puzzle_id: u32, x: Vec<u32>, y: Vec<u32>, rows: usize, cols: usize) -> (r:
    TokenizedExample)
    ensures
        r@ == example(puzzle_id, x@, y@, rows, cols),
{
    let x_seq_len: usize = x.len();
    let y_seq_len: usize = y.len();
    TokenizedExample { puzzle_id, x_tokens: x, y_tokens: y, rows, cols, x_seq_len, y_seq_len }
}

/// The tokens of a row.
pub open spec fn row_tokens(row: Seq<u8>) -> Seq<u32> {
    Seq::new(row.len(), |i: int| row[i] as u32)
}

/// The tokens of a grid, row after row.
pub open spec fn grid_tokens(rows: Seq<Seq<u8>>) -> Seq<u32>
    decreases rows.len(),
{
    if rows.len() == 0 {
        Seq::empty()
    } else {
        grid_tokens(rows.drop_last()) + row_tokens(rows.last())
    }
}

/// The tokens of a grid, row after row.
pub fn tokenize_grid(g: &Grid) -> (r: Vec<u32>)
    ensures
        r@ == grid_tokens(rows_of(*g)),
{
    let ghost rows = rows_of(*g);
    let mut out: Vec<u32> = Vec::new();
    let mut r: usize = 0;
    assert(rows.take(0) =~= Seq::empty());
    while r < g.len()
        invariant
            r <= g@.len(),
            rows == rows_of(*g),
            out@ == grid_tokens(rows.take(r as int)),
        decreases g@.len() - r,
    {
        let row = &g[r];
        let ghost before = out@;
        let mut c: usize = 0;
        while c < row.len()
            invariant
                c <= row@.len(),
                out@ == before + row_tokens(row@).take(c as int),
            decreases row@.len() - c,
        {
            out.push(row[c] as u32);
            assert(out@ =~= before + row_tokens(row@).take(c + 1));
            c = c + 1;
        }
        proof {
            assert(row_tokens(row@).take(row@.len() as int) =~= row_tokens(row@));
            assert(rows.take(r + 1).drop_last() =~= rows.take(r as int));
            assert(rows.take(r + 1).last() == row@);
        }
        r = r + 1;
    }
    assert(rows.take(g@.len() as int) =~= rows);
    out
}

/// The colour at a place of a token sequence: the low byte of the token, or 0 past the end.
pub open spec fn colour_at(tokens: Seq<u32>, i: int) -> u8 {
    if i < tokens.len() {
        tokens[i] as u8
    } else {
        0
    }
}

/// `g` is the grid of that shape that the tokens fill row by row; missing cells are 0.
pub open spec fn is_detokenized(tokens: Seq<u32>, rows: int, cols: int, g: Grid) -> bool {
    &&& g@.len() == rows
    &&& forall|i: int| 0 <= i < rows ==> (#[trigger] g@[i])@.len() == cols
    &&& forall|i: int, j: int|
        0 <= i < rows && 0 <= j < cols ==> #[trigger] g@[i]@[j] == colour_at(tokens, i * cols + j)
}

/// The grid that tokens fill row by row; missing cells are 0.
pub fn detokenize_grid(tokens: &[u32], rows: usize, cols: usize) -> (r: Grid)
    requires
        rows * cols <= usize::MAX,
    ensures
        is_detokenized(tokens@, rows as int, cols as int, r),
{
    let mut out: Vec<Vec<u8>> = Vec::new();
    let mut r: usize = 0;
    while r < rows
        invariant
            r <= rows,
            rows * cols <= usize::MAX,
            out@.len() == r,
            forall|i: int| 0 <= i < r ==> (#[trigger] out@[i])@.len() == cols,
            forall|i: int, j: int|
                0 <= i < r && 0 <= j < cols ==> #[trigger] out@[i]@[j] == colour_at(
                    tokens@,
                    i * cols + j,
                ),
        decreases rows - r,
    {
        let mut row: Vec<u8> = Vec::new();
        let mut c: usize = 0;
        while c < cols
            invariant
                c <= cols,
                r < rows,
                rows * cols <= usize::MAX,
                row@.len() == c,
                forall|j: int| 0 <= j < c ==> #[trigger] row@[j] == colour_at(tokens@, r * cols + j),
            decreases cols - c,
        {
            proof {
                grid::cell_place(rows as int, cols as int, r as int, c as int);
            }
            let idx: usize = r * cols + c;
            if idx < tokens.len() {
                row.push(#[verifier::truncate]
                (tokens[idx] as u8));
            } else {
                row.push(0);
            }
            c = c + 1;
        }
        out.push(row);
        r = r + 1;
    }
    out
}

proof fn grid_tokens_at(rows: Seq<Seq<u8>>, cols: int, i: int, j: int)
    requires
        forall|k: int| 0 <= k < rows.len() ==> (#[trigger] rows[k]).len() == cols,
        0 <= i < rows.len(),
        0 <= j < cols,
    ensures
        grid_tokens(rows).len() == rows.len() * cols,
        grid_tokens(rows)[i * cols + j] == rows[i][j] as u32,
    decreases rows.len(),
{
    let init = rows.drop_last();
    assert(rows.len() * cols == init.len() * cols + cols) by (nonlinear_arith)
        requires
            rows.len() == init.len() + 1,
    ;
    assert(rows[rows.len() - 1].len() == cols);
    if init.len() > 0 {
        grid_tokens_at(init, cols, 0, 0);
    } else {
        assert(grid_tokens(init).len() == 0);
        assert(0 * cols == 0) by (nonlinear_arith);
    }
    if i < init.len() {
        grid_tokens_at(init, cols, i, j);
        grid::cell_place(init.len() as int, cols, i, j);
        assert(init[i] == rows[i]);
    }
}

/// A rectangular grid survives tokenizing and detokenizing.
pub proof fn grid_round_trip(g: Grid, cols: int, back: Grid)
    requires
        forall|k: int| 0 <= k < g@.len() ==> (#[trigger] g@[k])@.len() == cols,
        is_detokenized(grid_tokens(rows_of(g)), g@.len() as int, cols, back),
    ensures
        rows_of(back) == rows_of(g),
{
    let rows = rows_of(g);
    assert forall|i: int| 0 <= i < g@.len() implies rows_of(back)[i] == #[trigger] rows_of(
        g,
    )[i] by {
        assert(back@[i]@.len() == g@[i]@.len());
        assert forall|j: int| 0 <= j < cols implies back@[i]@[j] == g@[i]@[j] by {
            grid_tokens_at(rows, cols, i, j);
            grid::cell_place(rows.len() as int, cols, i, j);
            assert(rows[i][j] as u32 as u8 == rows[i][j]);
        }
        assert(back@[i]@ =~= g@[i]@);
    }
    assert(rows_of(back) =~= rows_of(g));
}

/// The tokens cut or padded to a length.
pub open spec fn padded(tokens: Seq<u32>, len: nat, pad: u32) -> Seq<u32> {
    Seq::new(
        len,
        |i: int|
            if i < tokens.len() {
                tokens[i]
            } else {
                pad
            },
    )
}

/// The tokens cut or padded to a length.
pub fn pad_tokens(tokens: &[u32], len: usize, pad: u32) -> (r: Vec<u32>)
    ensures
        r@ == padded(tokens@, len as nat, pad),
{
    let mut out: Vec<u32> = Vec::new();
    let mut i: usize = 0;
    while i < len
        invariant
            i <= len,
            out@ == padded(tokens@, i as nat, pad),
        decreases len - i,
    {
        if i < tokens.len() {
            out.push(tokens[i]);
        } else {
            out.push(pad);
        }
        assert(out@ =~= padded(tokens@, (i + 1) as nat, pad));
        i = i + 1;
    }
    out
}

/// An ARC task: pairs to learn from, inputs to answer and their answers.
pub struct ArcTask {
    pub train_pairs: Vec<(Grid, Grid)>,
    pub test_inputs: Vec<Grid>,
    pub test_outputs: Vec<Grid>,
    pub puzzle_id: u32,
}

/// A task file as it was read: its stem, its pairs to learn from and its pairs to answer.
pub struct ArcFile {
    pub stem: String,
    pub train: Vec<(Grid, Grid)>,
    pub test: Vec<(Grid, Grid)>,
}

/// `t` is the task of a file at place `idx` of the directory.
pub open spec fn is_task(f: ArcFile, idx: int, t: (String, ArcTask)) -> bool {
    &&& t.0 == f.stem
    &&& t.1.train_pairs == f.train
    &&& t.1.test_inputs@ == Seq::new(f.test@.len(), |i: int| f.test@[i].0)
    &&& t.1.test_outputs@ == Seq::new(f.test@.len(), |i: int| f.test@[i].1)
    &&& t.1.puzzle_id == idx as u32
}

/// How many of the entries are task files.
pub open spec fn file_count(entries: Seq<Option<ArcFile>>) -> nat
    decreases entries.len(),
{
    if entries.len() == 0 {
        0
    } else {
        file_count(entries.drop_last()) + if entries.last() is Some {
            1nat
        } else {
            0
        }
    }
}

fn task_of(f: ArcFile, idx: usize) -> (r: (String, ArcTask))
    ensures
        is_task(f, idx as int, r),
{
    let ArcFile { stem, train, test } = f;
    let ghost given = test@;
    let mut inputs: Vec<Grid> = Vec::new();
    let mut outputs: Vec<Grid> = Vec::new();
    for pair in it: test.into_iter()
        invariant
            it.seq() == given,
            inputs@ == Seq::new(it.index() as nat, |i: int| given[i].0),
            outputs@ == Seq::new(it.index() as nat, |i: int| given[i].1),
    {
        let (input, output) = pair;
        inputs.push(input);
        outputs.push(output);
        assert(inputs@ =~= Seq::new((it.index() + 1) as nat, |i: int| given[i].0));
        assert(outputs@ =~= Seq::new((it.index() + 1) as nat, |i: int| given[i].1));
    }
    let task = ArcTask {
        train_pairs: train,
        test_inputs: inputs,
        test_outputs: outputs,
        puzzle_id: #[verifier::truncate]
        (idx as u32),
    };
    (stem, task)
}

/// The tasks of a directory whose entries come in path order, with nothing for an entry that is
/// no task file. A task is numbered by the place of its entry among all of them.
pub fn number_tasks(entries: Vec<Option<ArcFile>>) -> (r: Vec<(String, ArcTask)>)
    ensures
        r@.len() == file_count(entries@),
        forall|i: int|
            0 <= i < entries@.len() && (#[trigger] entries@[i]) is Some ==> {
                let at = file_count(entries@.take(i)) as int;
                at < r@.len() && is_task(entries@[i]->Some_0, i, r@[at])
            },
{
    let ghost given = entries@;
    let mut out: Vec<(String, ArcTask)> = Vec::new();
    let mut idx: usize = 0;
    proof {
        assert(given.take(0) =~= Seq::empty());
    }
    let total: usize = entries.len();
    for entry in it: entries.into_iter()
        invariant
            it.seq() == given,
            total == given.len(),
            idx == it.index(),
            out@.len() == file_count(given.take(idx as int)),
            forall|i: int|
                0 <= i < idx && (#[trigger] given[i]) is Some ==> {
                    let at = file_count(given.take(i)) as int;
                    at < out@.len() && is_task(given[i]->Some_0, i, out@[at])
                },
    {
        proof {
            assert(given.take(idx + 1).drop_last() =~= given.take(idx as int));
            assert(given.take(idx + 1).last() == given[idx as int]);
        }
        let ghost before = out@;
        match entry {
            Some(f) => {
                out.push(task_of(f, idx));
            },
            None => {},
        }
        assert forall|i: int| 0 <= i < idx + 1 && (#[trigger] given[i]) is Some implies {
            let at = file_count(given.take(i)) as int;
            at < out@.len() && is_task(given[i]->Some_0, i, out@[at])
        } by {
            if i < idx {
                let at = file_count(given.take(i)) as int;
                assert(out@[at] == before[at]);
            }
        }
        idx = idx + 1;
    }
    assert(given.take(given.len() as int) =~= given);
    out
}

/// The example of a training pair: the shape is that of the question.
pub open spec fn pair_example(puzzle_id: u32, pair: (Grid, Grid)) -> ExampleModel {
    let x = rows_of(pair.0);
    example(
        puzzle_id,
        grid_tokens(x),
        grid_tokens(rows_of(pair.1)),
        x.len() as usize,
        if x.len() > 0 {
            x[0].len() as usize
        } else {
            0
        },
    )
}

/// The examples of a task, one for each training pair.
pub open spec fn task_examples(t: ArcTask) -> Seq<ExampleModel> {
    Seq::new(t.train_pairs@.len(), |i: int| pair_example(t.puzzle_id, t.train_pairs@[i]))
}

/// The examples of all tasks, task after task.
pub open spec fn tasks_examples(tasks: Seq<(String, ArcTask)>) -> Seq<ExampleModel>
    decreases tasks.len(),
{
    if tasks.len() == 0 {
        Seq::empty()
    } else {
        tasks_examples(tasks.drop_last()) + task_examples(tasks.last().1)
    }
}

/// The training examples of all tasks.
pub fn arc_training_examples(tasks: &[(String, ArcTask)]) -> (r: Vec<TokenizedExample>)
    ensures
        examples(r@) == tasks_examples(tasks@),
{
    let mut out: Vec<TokenizedExample> = Vec::new();
    let mut t: usize = 0;
    proof {
        assert(tasks@.take(0) =~= Seq::empty());
        assert(examples(out@) =~= Seq::empty());
    }
    while t < tasks.len()
        invariant
            t <= tasks@.len(),
            examples(out@) == tasks_examples(tasks@.take(t as int)),
        decreases tasks@.len() - t,
    {
        let task = &tasks[t].1;
        let ghost before = examples(out@);
        let mut p: usize = 0;
        assert(examples(out@) =~= before + task_examples(*task).take(0));
        while p < task.train_pairs.len()
            invariant
                p <= task.train_pairs@.len(),
                examples(out@) == before + task_examples(*task).take(p as int),
            decreases task.train_pairs@.len() - p,
        {
            let x = &task.train_pairs[p].0;
            let y = &task.train_pairs[p].1;
            let rows: usize = x.len();
            let cols: usize = if rows > 0 {
                x[0].len()
            } else {
                0
            };
            let ghost prior = examples(out@);
            let ex = make_example(task.puzzle_id, tokenize_grid(x), tokenize_grid(y), rows, cols);
            assert(ex@ == task_examples(*task)[p as int]);
            out.push(ex);
            proof {
                assert(examples(out@) =~= prior.push(task_examples(*task)[p as int]));
                assert(examples(out@) =~= before + task_examples(*task).take(p + 1));
            }
            p = p + 1;
        }
        proof {
            let all = task_examples(*task);
            assert(all.take(all.len() as int) =~= all);
            assert(tasks@.take(t + 1).drop_last() =~= tasks@.take(t as int));
        }
        t = t + 1;
    }
    assert(tasks@.take(tasks@.len() as int) =~= tasks@);
    out
}

/// Examples of one shape.
#[derive(Debug, Clone)]
pub struct BucketedBatch {
    pub rows: usize,
    pub cols: usize,
    pub examples: Vec<TokenizedExample>,
}

/// Shapes are ordered by rows, then by columns.
pub open spec fn shape_lt(a: (usize, usize), b: (usize, usize)) -> bool {
    a.0 < b.0 || (a.0 == b.0 && a.1 < b.1)
}

/// The shape of a bucket.
pub open spec fn shape_of(b: BucketedBatch) -> (usize, usize) {
    (b.rows, b.cols)
}

/// The examples of that shape, in their order.
pub open spec fn of_shape(s: Seq<TokenizedExample>, shape: (usize, usize)) -> Seq<TokenizedExample>
    decreases s.len(),
{
    if s.len() == 0 {
        Seq::empty()
    } else {
        let before = of_shape(s.drop_last(), shape);
        if (s.last().rows, s.last().cols) == shape {
            before.push(s.last())
        } else {
            before
        }
    }
}

/// How many examples the buckets hold.
pub open spec fn bucket_total(b: Seq<BucketedBatch>) -> nat
    decreases b.len(),
{
    if b.len() == 0 {
        0
    } else {
        bucket_total(b.drop_last()) + b.last().examples@.len()
    }
}

/// The buckets are what examples fall into by shape: one for every shape that occurs, in the
/// order of shapes, each with its examples in their order.
pub open spec fn is_bucketing(s: Seq<TokenizedExample>, b: Seq<BucketedBatch>) -> bool {
    &&& forall|i: int, j: int|
        0 <= i < j < b.len() ==> shape_lt(shape_of(#[trigger] b[i]), shape_of(#[trigger] b[j]))
    &&& forall|i: int|
        0 <= i < b.len() ==> (#[trigger] b[i]).examples@.len() > 0 && b[i].examples@ == of_shape(
            s,
            shape_of(b[i]),
        )
    &&& forall|k: int|
        0 <= k < s.len() ==> exists|i: int|
            0 <= i < b.len() && shape_of(#[trigger] b[i]) == ((#[trigger] s[k]).rows, s[k].cols)
}

proof fn absent_shape(s: Seq<TokenizedExample>, shape: (usize, usize))
    requires
        forall|k: int| 0 <= k < s.len() ==> ((#[trigger] s[k]).rows, s[k].cols) != shape,
    ensures
        of_shape(s, shape).len() == 0,
    decreases s.len(),
{
    if s.len() > 0 {
        let init = s.drop_last();
        assert forall|k: int| 0 <= k < init.len() implies ((#[trigger] init[k]).rows, init[k].cols)
            != shape by {
            assert(init[k] == s[k]);
        }
        absent_shape(init, shape);
        assert(s[s.len() - 1] == s.last());
    }
}

proof fn bucket_total_update(b: Seq<BucketedBatch>, p: int, x: BucketedBatch)
    requires
        0 <= p < b.len(),
    ensures
        bucket_total(b.update(p, x)) == bucket_total(b) - b[p].examples@.len() + x.examples@.len(),
    decreases b.len(),
{
    let u = b.update(p, x);
    if p == b.len() - 1 {
        assert(u.drop_last() =~= b.drop_last());
    } else {
        bucket_total_update(b.drop_last(), p, x);
        assert(u.drop_last() =~= b.drop_last().update(p, x));
    }
}

proof fn bucket_total_insert(b: Seq<BucketedBatch>, p: int, x: BucketedBatch)
    requires
        0 <= p <= b.len(),
    ensures
        bucket_total(b.insert(p, x)) == bucket_total(b) + x.examples@.len(),
    decreases b.len(),
{
    let u = b.insert(p, x);
    if p == b.len() {
        assert(u.drop_last() =~= b);
    } else {
        bucket_total_insert(b.drop_last(), p, x);
        assert(u.drop_last() =~= b.drop_last().insert(p, x));
    }
}

fn put_in_bucket(buckets: &mut Vec<BucketedBatch>, ex: TokenizedExample, Ghost(seen): Ghost<
    Seq<TokenizedExample>,
>)
    requires
        is_bucketing(seen, old(buckets)@),
    ensures
        is_bucketing(seen.push(ex), final(buckets)@),
        bucket_total(final(buckets)@) == bucket_total(old(buckets)@) + 1,
{
    let rows: usize = ex.rows;
    let cols: usize = ex.cols;
    let ghost shape = (rows, cols);
    let ghost before = buckets@;
    let ghost after = seen.push(ex);
    assert(after.drop_last() =~= seen);
    let mut p: usize = 0;
    while p < buckets.len() && (buckets[p].rows < rows || (buckets[p].rows == rows
        && buckets[p].cols < cols))
        invariant
            p <= buckets@.len(),
            shape == (rows, cols),
            forall|k: int| 0 <= k < p ==> shape_lt(shape_of(#[trigger] buckets@[k]), shape),
        decreases buckets@.len() - p,
    {
        p = p + 1;
    }
    if p < buckets.len() && buckets[p].rows == rows && buckets[p].cols == cols {
        let mut b = buckets.remove(p);
        let ghost had = b.examples@;
        b.examples.push(ex);
        buckets.insert(p, b);
        proof {
            assert(buckets@ =~= before.update(p as int, b));
            bucket_total_update(before, p as int, b);
            assert(b.examples@ == of_shape(after, shape));
            assert forall|i: int| 0 <= i < buckets@.len() implies (
            #[trigger] buckets@[i]).examples@.len() > 0 && buckets@[i].examples@ == of_shape(
                after,
                shape_of(buckets@[i]),
            ) by {
                if i != p {
                    assert(buckets@[i] == before[i]);
                    if i < p {
                        assert(shape_lt(shape_of(before[i]), shape_of(before[p as int])));
                    } else {
                        assert(shape_lt(shape_of(before[p as int]), shape_of(before[i])));
                    }
                }
            }
            assert forall|i: int, j: int| 0 <= i < j < buckets@.len() implies shape_lt(
                shape_of(#[trigger] buckets@[i]),
                shape_of(#[trigger] buckets@[j]),
            ) by {
                assert(shape_of(buckets@[i]) == shape_of(before[i]));
                assert(shape_of(buckets@[j]) == shape_of(before[j]));
                assert(shape_lt(shape_of(before[i]), shape_of(before[j])));
            }
            assert forall|k: int| 0 <= k < after.len() implies exists|i: int|
                0 <= i < buckets@.len() && shape_of(#[trigger] buckets@[i]) == ((
                #[trigger] after[k]).rows, after[k].cols) by {
                if k < seen.len() {
                    assert(after[k] == seen[k]);
                    let i = choose|i: int|
                        0 <= i < before.len() && shape_of(#[trigger] before[i]) == (
                            seen[k].rows,
                            seen[k].cols,
                        );
                    assert(shape_of(buckets@[i]) == shape_of(before[i]));
                } else {
                    assert(shape_of(buckets@[p as int]) == shape);
                }
            }
        }
    } else {
        let mut list: Vec<TokenizedExample> = Vec::new();
        list.push(ex);
        let b = BucketedBatch { rows, cols, examples: list };
        proof {
            assert forall|k: int| p <= k < before.len() implies shape_lt(
                shape,
                shape_of(#[trigger] before[k]),
            ) by {
                if k > p {
                    assert(shape_lt(shape_of(before[p as int]), shape_of(before[k])));
                }
            }
            assert forall|k: int| 0 <= k < seen.len() implies ((#[trigger] seen[k]).rows, seen[k].cols)
                != shape by {
                let i = choose|i: int|
                    0 <= i < before.len() && shape_of(#[trigger] before[i]) == (
                        seen[k].rows,
                        seen[k].cols,
                    );
                assert(shape_lt(shape_of(before[i]), shape) || shape_lt(shape, shape_of(before[i])));
            }
            absent_shape(seen, shape);
            bucket_total_insert(before, p as int, b);
        }
        buckets.insert(p, b);
        proof {
            assert(of_shape(seen, shape) =~= Seq::empty());
            assert(b.examples@ =~= of_shape(after, shape));
            assert forall|i: int| 0 <= i < buckets@.len() implies (
            #[trigger] buckets@[i]).examples@.len() > 0 && buckets@[i].examples@ == of_shape(
                after,
                shape_of(buckets@[i]),
            ) by {
                if i < p {
                    assert(buckets@[i] == before[i]);
                } else if i > p {
                    assert(buckets@[i] == before[i - 1]);
                }
            }
            assert forall|i: int, j: int| 0 <= i < j < buckets@.len() implies shape_lt(
                shape_of(#[trigger] buckets@[i]),
                shape_of(#[trigger] buckets@[j]),
            ) by {
                if i < p {
                    assert(buckets@[i] == before[i]);
                } else if i > p {
                    assert(buckets@[i] == before[i - 1]);
                }
                if j < p {
                    assert(buckets@[j] == before[j]);
                } else if j > p {
                    assert(buckets@[j] == before[j - 1]);
                }
            }
            assert forall|k: int| 0 <= k < after.len() implies exists|i: int|
                0 <= i < buckets@.len() && shape_of(#[trigger] buckets@[i]) == ((
                #[trigger] after[k]).rows, after[k].cols) by {
                if k < seen.len() {
                    assert(after[k] == seen[k]);
                    let i = choose|i: int|
                        0 <= i < before.len() && shape_of(#[trigger] before[i]) == (
                            seen[k].rows,
                            seen[k].cols,
                        );
                    let at = if i < p {
                        i
                    } else {
                        i + 1
                    };
                    assert(buckets@[at] == before[i]);
                } else {
                    assert(shape_of(buckets@[p as int]) == shape);
                }
            }
        }
    }
}

/// Sorts examples into buckets by shape. None is lost, and none comes twice.
pub fn bucket_by_shape(examples: Vec<TokenizedExample>) -> (r: Vec<BucketedBatch>)
    ensures
        is_bucketing(examples@, r@),
        bucket_total(r@) == examples@.len(),
{
    let ghost given = examples@;
    let mut buckets: Vec<BucketedBatch> = Vec::new();
    assert(given.take(0) =~= Seq::empty());
    for ex in it: examples.into_iter()
        invariant
            it.seq() == given,
            is_bucketing(given.take(it.index() as int), buckets@),
            bucket_total(buckets@) == it.index(),
    {
        put_in_bucket(&mut buckets, ex, Ghost(given.take(it.index() as int)));
        assert(given.take(it.index() as int).push(ex) =~= given.take(it.index() + 1));
    }
    assert(given.take(given.len() as int) =~= given);
    buckets
}

/// The digits of a text; other characters are passed over.
pub open spec fn digits_in(s: Seq<char>) -> Seq<u32>
    decreases s.len(),
{
    if s.len() == 0 {
        Seq::empty()
    } else {
        let before = digits_in(s.drop_last());
        let c = s.last() as u32;
        if 48 <= c <= 57 {
            before.push((c - 48) as u32)
        } else {
            before
        }
    }
}

fn digits_of(s: &Vec<char>) -> (r: Vec<u32>)
    ensures
        r@ == digits_in(s@),
{
    let mut out: Vec<u32> = Vec::new();
    let mut i: usize = 0;
    assert(s@.take(0) =~= Seq::empty());
    while i < s.len()
        invariant
            i <= s@.len(),
            out@ == digits_in(s@.take(i as int)),
        decreases s@.len() - i,
    {
        let c: u32 = s[i] as u32;
        assert(s@.take(i + 1).drop_last() =~= s@.take(i as int));
        if 48 <= c && c <= 57 {
            out.push(c - 48);
        }
        i = i + 1;
    }
    assert(s@.take(s@.len() as int) =~= s@);
    out
}

/// The puzzle and its solution on a line: two parts about one comma, of 81 digits each.
pub open spec fn sudoku_line(line: Seq<char>) -> Option<(Seq<u32>, Seq<u32>)> {
    let t = text::trim(line);
    let parts = text::split(t, ',');
    if t.len() > 0 && parts.len() == 2 && digits_in(parts[0]).len() == 81 && digits_in(
        parts[1],
    ).len() == 81 {
        Some((digits_in(parts[0]), digits_in(parts[1])))
    } else {
        None
    }
}

/// The examples of lines, numbered by line; a line that is no puzzle gives none.
pub open spec fn sudoku_examples(lines: Seq<Seq<char>>) -> Seq<ExampleModel>
    decreases lines.len(),
{
    if lines.len() == 0 {
        Seq::empty()
    } else {
        let before = sudoku_examples(lines.drop_last());
        match sudoku_line(lines.last()) {
            Some((x, y)) => before.push(example((lines.len() - 1) as u32, x, y, 9, 9)),
            None => before,
        }
    }
}

fn parse_sudoku_line(line: &Vec<char>) -> (r: Option<(Vec<u32>, Vec<u32>)>)
    ensures
        match r {
            Some((x, y)) => sudoku_line(line@) == Some((x@, y@)),
            None => sudoku_line(line@) is None,
        },
{
    let whole = text::text_of(line, 0, line.len());
    assert(line@.subrange(0, line@.len() as int) =~= line@);
    let trimmed = text::trimmed(whole.as_str());
    let chars = text::chars_of(trimmed.as_str());
    if chars.len() == 0 {
        return None;
    }
    let parts = text::split_chars(&chars, ',');
    let ghost p = text::split(chars@, ',');
    assert(text::texts(parts@).len() == p.len());
    if parts.len() != 2 {
        return None;
    }
    assert(text::texts(parts@)[0] == parts@[0]@ && text::texts(parts@)[1] == parts@[1]@);
    let x = digits_of(&parts[0]);
    let y = digits_of(&parts[1]);
    if x.len() == 81 && y.len() == 81 {
        Some((x, y))
    } else {
        None
    }
}

/// The sudoku examples of a text, one puzzle to a line.
pub fn parse_sudoku(txt: &str) -> (r: Vec<TokenizedExample>)
    ensures
        examples(r@) == sudoku_examples(text::lines(txt@)),
{
    let lines = text::lines_of(txt);
    let ghost all = text::lines(txt@);
    let mut out: Vec<TokenizedExample> = Vec::new();
    let mut i: usize = 0;
    proof {
        assert(text::texts(lines@).len() == all.len());
        assert(all.take(0) =~= Seq::empty());
        assert(examples(out@) =~= Seq::empty());
    }
    while i < lines.len()
        invariant
            i <= lines@.len(),
            all == text::texts(lines@),
            all.len() == lines@.len(),
            examples(out@) == sudoku_examples(all.take(i as int)),
        decreases lines@.len() - i,
    {
        let ghost before = examples(out@);
        proof {
            assert(all.take(i + 1).drop_last() =~= all.take(i as int));
            assert(all.take(i + 1).last() == lines@[i as int]@);
        }
        match parse_sudoku_line(&lines[i]) {
            Some((x, y)) => {
                let ex = make_example(
                    #[verifier::truncate]
                    (i as u32),
                    x,
                    y,
                    9,
                    9,
                );
                out.push(ex);
                assert(examples(out@) =~= before.push(ex@));
            },
            None => {},
        }
        i = i + 1;
    }
    assert(all.take(all.len() as int) =~= all);
    out
}

/// The token of a maze character.
pub open spec fn maze_token(c: char) -> u32 {
    if c == '#' {
        0
    } else if c == 'S' {
        2
    } else if c == 'E' {
        3
    } else if c == '*' {
        4
    } else {
        1
    }
}

/// The tokens of a maze line.
pub open spec fn line_tokens(line: Seq<char>) -> Seq<u32> {
    Seq::new(line.len(), |i: int| maze_token(line[i]))
}

/// The tokens of a maze, line after line.
pub open spec fn maze_tokens(lines: Seq<Seq<char>>) -> Seq<u32>
    decreases lines.len(),
{
    if lines.len() == 0 {
        Seq::empty()
    } else {
        maze_tokens(lines.drop_last()) + line_tokens(lines.last())
    }
}

/// The example of a maze drawing, which is its own answer; a file without lines gives none.
pub open spec fn maze_example(txt: Seq<char>, idx: int) -> Option<ExampleModel> {
    let lines = text::lines(txt);
    if lines.len() == 0 {
        None
    } else {
        let t = maze_tokens(lines);
        Some(example(idx as u32, t, t, lines.len() as usize, lines[0].len() as usize))
    }
}

/// The examples of maze files, numbered by file.
pub open spec fn maze_examples(files: Seq<Seq<char>>) -> Seq<ExampleModel>
    decreases files.len(),
{
    if files.len() == 0 {
        Seq::empty()
    } else {
        let before = maze_examples(files.drop_last());
        match maze_example(files.last(), files.len() - 1) {
            Some(e) => before.push(e),
            None => before,
        }
    }
}

fn parse_maze(txt: &str, idx: usize) -> (r: Option<TokenizedExample>)
    ensures
        match r {
            Some(e) => maze_example(txt@, idx as int) == Some(e@),
            None => maze_example(txt@, idx as int) is None,
        },
{
    let lines = text::lines_of(txt);
    let ghost all = text::lines(txt@);
    assert(text::texts(lines@).len() == all.len());
    if lines.len() == 0 {
        return None;
    }
    let rows: usize = lines.len();
    let cols: usize = lines[0].len();
    assert(all[0] == lines@[0]@);
    let mut x: Vec<u32> = Vec::new();
    let mut i: usize = 0;
    assert(all.take(0) =~= Seq::empty());
    while i < lines.len()
        invariant
            i <= lines@.len(),
            all == text::texts(lines@),
            x@ == maze_tokens(all.take(i as int)),
        decreases lines@.len() - i,
    {
        let line = &lines[i];
        let ghost before = x@;
        let mut c: usize = 0;
        while c < line.len()
            invariant
                c <= line@.len(),
                x@ == before + line_tokens(line@).take(c as int),
            decreases line@.len() - c,
        {
            let ch: char = line[c];
            let tok: u32 = if ch == '#' {
                0
            } else if ch == 'S' {
                2
            } else if ch == 'E' {
                3
            } else if ch == '*' {
                4
            } else {
                1
            };
            x.push(tok);
            assert(x@ =~= before + line_tokens(line@).take(c + 1));
            c = c + 1;
        }
        proof {
            assert(line_tokens(line@).take(line@.len() as int) =~= line_tokens(line@));
            assert(all.take(i + 1).drop_last() =~= all.take(i as int));
            assert(all.take(i + 1).last() == line@);
        }
        i = i + 1;
    }
    assert(all.take(all.len() as int) =~= all);
    let y = crate::copy::copy_vec(&x);
    Some(
        make_example(
            #[verifier::truncate]
            (idx as u32),
            x,
            y,
            rows,
            cols,
        ),
    )
}

/// The maze examples of files that come in path order.
pub fn parse_mazes(files: &Vec<String>) -> (r: Vec<TokenizedExample>)
    ensures
        examples(r@) == maze_examples(text::strings(files@)),
{
    let ghost all = text::strings(files@);
    let mut out: Vec<TokenizedExample> = Vec::new();
    let mut i: usize = 0;
    proof {
        assert(all.take(0) =~= Seq::empty());
        assert(examples(out@) =~= Seq::empty());
    }
    while i < files.len()
        invariant
            i <= files@.len(),
            all == text::strings(files@),
            examples(out@) == maze_examples(all.take(i as int)),
        decreases files@.len() - i,
    {
        let ghost before = examples(out@);
        proof {
            assert(all.take(i + 1).drop_last() =~= all.take(i as int));
            assert(all.take(i + 1).last() == files@[i as int]@);
        }
        match parse_maze(files[i].as_str(), i) {
            Some(ex) => {
                out.push(ex);
                assert(examples(out@) =~= before.push(ex@));
            },
            None => {},
        }
        i = i + 1;
    }
    assert(all.take(all.len() as int) =~= all);
    out
}

/// A file name with the extension `json`, that is, something before `.json` at its end.
pub open spec fn is_json_name(name: Seq<char>) -> bool {
    name.len() > 5 && text::occurs_at(name, ".json"@, name.len() - 5)
}

/// Whether a file name has the extension `json`.
pub fn is_json_file(name: &str) -> (r: bool)
    ensures
        r == is_json_name(name@),
{
    proof {
        reveal_strlit(".json");
    }
    text::chars_of(name).len() > 5 && text::ends_with(name, ".json")
}

/// Whether a task directory with these files needs the sample tasks: none of them is a task
/// file.
pub fn needs_samples(names: &Vec<String>) -> (r: bool)
    ensures
        r == (forall|i: int| 0 <= i < names@.len() ==> !is_json_name((#[trigger] names@[i])@)),
{
    let mut i: usize = 0;
    while i < names.len()
        invariant
            i <= names@.len(),
            forall|k: int| 0 <= k < i ==> !is_json_name((#[trigger] names@[k])@),
        decreases names@.len() - i,
    {
        if is_json_file(names[i].as_str()) {
            return false;
        }
        i = i + 1;
    }
    true
}

/// Where a benchmark lies: under its name in the root directory. `join` puts a path and a name
/// together as the platform does.
pub fn discover_benchmark_dir<J: Fn(&str, &str) -> String>(
    join: &J,
    root: &str,
    name: &str,
) -> (r: String)
    requires
        call_requires(*join, (root, name)),
    ensures
        call_ensures(*join, (root, name), r),
{
    join(root, name)
}

} // verus!
