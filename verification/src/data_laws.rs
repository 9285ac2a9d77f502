//! What the loaders make of what they read.

use crate::data;
use crate::data::{ArcFile, ArcTask, BucketedBatch, ExampleModel, Grid, TokenizedExample};
use crate::task_eval_laws;
use crate::text;
use vstd::prelude::*;

verus! {

/// Padding keeps the tokens in front, as many as there is room for, and fills the rest.
pub proof fn padding_keeps_the_tokens(tokens: Seq<u32>, len: nat, pad: u32)
    ensures
        data::padded(tokens, len, pad).len() == len,
        tokens.len() <= len ==> data::padded(tokens, len, pad) == tokens + Seq::new(
            (len - tokens.len()) as nat,
            |i: int| pad,
        ),
        tokens.len() >= len ==> data::padded(tokens, len, pad) == tokens.take(len as int),
{
    let p = data::padded(tokens, len, pad);
    if tokens.len() <= len {
        assert(p =~= tokens + Seq::new((len - tokens.len()) as nat, |i: int| pad));
    }
    if tokens.len() >= len {
        assert(p =~= tokens.take(len as int));
    }
}

/// A task has the training pairs of its file, the inputs and outputs of its test pairs in their
/// order, and the number of its file.
pub proof fn task_keeps_the_pairs_of_its_file(f: ArcFile, idx: int, t: (String, ArcTask))
    requires
        data::is_task(f, idx, t),
        0 <= idx <= u32::MAX,
    ensures
        t.0@ == f.stem@,
        t.1.train_pairs@ == f.train@,
        t.1.test_inputs@.len() == f.test@.len(),
        t.1.test_outputs@.len() == f.test@.len(),
        forall|j: int|
            0 <= j < f.test@.len() ==> (t.1.test_inputs@[j], t.1.test_outputs@[j])
                == #[trigger] f.test@[j],
        t.1.puzzle_id == idx,
{
}

/// The files that could be read are those of the entries that hold one.
pub proof fn files_are_the_entries_that_hold_one(entries: Seq<Option<ArcFile>>)
    ensures
        data::file_count(entries) == entries.filter(|e: Option<ArcFile>| e is Some).len(),
    decreases entries.len(),
{
    reveal(Seq::filter);
    if entries.len() > 0 {
        files_are_the_entries_that_hold_one(entries.drop_last());
    }
}

/// The example of a pair: the cells of both grids row by row, in the shape of the first.
pub open spec fn example_of(id: u32, pair: (Grid, Grid)) -> ExampleModel {
    let (x, y) = (task_eval_laws::cells(pair.0), task_eval_laws::cells(pair.1));
    let (xs, ys) = (task_eval_laws::in_a_row(x), task_eval_laws::in_a_row(y));
    ExampleModel {
        puzzle_id: id,
        x_tokens: xs,
        y_tokens: ys,
        rows: x.len() as usize,
        cols: if x.len() == 0 {
            0
        } else {
            x[0].len() as usize
        },
        x_seq_len: xs.len() as usize,
        y_seq_len: ys.len() as usize,
    }
}

/// The examples of tasks are those of their training pairs, task after task and pair after pair,
/// each under the number of its task.
pub proof fn examples_follow_the_pairs(tasks: Seq<(String, ArcTask)>)
    ensures
        data::tasks_examples(tasks) == Seq::new(
            tasks.len(),
            |t: int|
                Seq::new(
                    tasks[t].1.train_pairs@.len(),
                    |i: int| example_of(tasks[t].1.puzzle_id, tasks[t].1.train_pairs@[i]),
                ),
        ).flatten(),
    decreases tasks.len(),
{
    let all = Seq::new(
        tasks.len(),
        |t: int|
            Seq::new(
                tasks[t].1.train_pairs@.len(),
                |i: int| example_of(tasks[t].1.puzzle_id, tasks[t].1.train_pairs@[i]),
            ),
    );
    all.lemma_flatten_and_flatten_alt_are_equivalent();
    if tasks.len() > 0 {
        let front = tasks.drop_last();
        let task = tasks.last().1;
        examples_follow_the_pairs(front);
        let before = Seq::new(
            front.len(),
            |t: int|
                Seq::new(
                    front[t].1.train_pairs@.len(),
                    |i: int| example_of(front[t].1.puzzle_id, front[t].1.train_pairs@[i]),
                ),
        );
        assert(all.drop_last() =~= before);
        before.lemma_flatten_and_flatten_alt_are_equivalent();
        assert forall|i: int| 0 <= i < task.train_pairs@.len() implies #[trigger]
            data::task_examples(task)[i] == all.last()[i] by {
            let pair = task.train_pairs@[i];
            assert(data::rows_of(pair.0) =~= task_eval_laws::cells(pair.0));
            assert(data::rows_of(pair.1) =~= task_eval_laws::cells(pair.1));
            task_eval_laws::flat_tokens(task_eval_laws::cells(pair.0));
            task_eval_laws::flat_tokens(task_eval_laws::cells(pair.1));
        }
        assert(data::task_examples(task) =~= all.last());
        assert(data::tasks_examples(tasks) =~= all.flatten());
    } else {
        assert(data::tasks_examples(tasks) =~= all.flatten());
    }
}

/// A bucket holds the examples of its shape, each once and in their order: `at` tells where they
/// stood.
pub proof fn bucket_holds_its_shape(
    s: Seq<TokenizedExample>,
    b: Seq<BucketedBatch>,
    i: int,
) -> (at: Seq<int>)
    requires
        data::is_bucketing(s, b),
        0 <= i < b.len(),
    ensures
        at.len() == b[i].examples@.len(),
        at.len() > 0,
        forall|j: int|
            0 <= j < at.len() ==> 0 <= #[trigger] at[j] < s.len() && s[at[j]]
                == b[i].examples@[j] && s[at[j]].rows == b[i].rows && s[at[j]].cols == b[i].cols,
        forall|j: int, l: int| 0 <= j < l < at.len() ==> #[trigger] at[j] < #[trigger] at[l],
        forall|k: int|
            0 <= k < s.len() && (#[trigger] s[k]).rows == b[i].rows && s[k].cols == b[i].cols
                ==> at.contains(k),
{
    places(s, b[i].rows, b[i].cols)
}

/// The bucket has the shape of the example and holds it.
pub open spec fn holds_as_its_shape(b: BucketedBatch, e: TokenizedExample) -> bool {
    b.rows == e.rows && b.cols == e.cols && b.examples@.contains(e)
}

/// Some bucket has the shape of the example and holds it.
pub open spec fn some_holds(b: Seq<BucketedBatch>, e: TokenizedExample) -> bool {
    exists|i: int| 0 <= i < b.len() && #[trigger] holds_as_its_shape(b[i], e)
}

/// Buckets differ in shape, smaller shapes come first, and every example is in the bucket of its
/// shape.
pub proof fn buckets_part_by_shape(s: Seq<TokenizedExample>, b: Seq<BucketedBatch>)
    requires
        data::is_bucketing(s, b),
    ensures
        forall|i: int, j: int|
            0 <= i < j < b.len() ==> (#[trigger] b[i]).rows < (#[trigger] b[j]).rows || (b[i].rows
                == b[j].rows && b[i].cols < b[j].cols),
        forall|k: int| 0 <= k < s.len() ==> some_holds(b, #[trigger] s[k]),
{
    assert forall|k: int| 0 <= k < s.len() implies some_holds(b, #[trigger] s[k]) by {
        let i = choose|i: int|
            0 <= i < b.len() && data::shape_of(#[trigger] b[i]) == (s[k].rows, s[k].cols);
        let at = bucket_holds_its_shape(s, b, i);
        assert(at.contains(k));
        let j = choose|j: int| 0 <= j < at.len() && at[j] == k;
        assert(b[i].examples@[j] == s[k]);
        assert(holds_as_its_shape(b[i], s[k]));
    }
}

proof fn places(s: Seq<TokenizedExample>, rows: usize, cols: usize) -> (at: Seq<int>)
    ensures
        at.len() == data::of_shape(s, (rows, cols)).len(),
        forall|j: int|
            0 <= j < at.len() ==> 0 <= #[trigger] at[j] < s.len() && s[at[j]] == data::of_shape(
                s,
                (rows, cols),
            )[j] && s[at[j]].rows == rows && s[at[j]].cols == cols,
        forall|j: int, l: int| 0 <= j < l < at.len() ==> #[trigger] at[j] < #[trigger] at[l],
        forall|k: int|
            0 <= k < s.len() && (#[trigger] s[k]).rows == rows && s[k].cols == cols
                ==> at.contains(k),
    decreases s.len(),
{
    if s.len() == 0 {
        Seq::empty()
    } else {
        let front = s.drop_last();
        let before = places(front, rows, cols);
        let at = if s.last().rows == rows && s.last().cols == cols {
            before.push(s.len() - 1)
        } else {
            before
        };
        assert forall|k: int|
            0 <= k < s.len() && (#[trigger] s[k]).rows == rows && s[k].cols
                == cols implies at.contains(k) by {
            if k < front.len() {
                assert(front[k] == s[k]);
                let j = choose|j: int| 0 <= j < before.len() && before[j] == k;
                assert(at[j] == k);
            } else {
                assert(at[at.len() - 1] == k);
            }
        }
        at
    }
}

/// The digits of a text, in order, as numbers.
pub open spec fn digits(s: Seq<char>) -> Seq<u32> {
    s.filter(|c: char| '0' as u32 <= c as u32 <= '9' as u32).map_values(
        |c: char| (c as u32 - '0' as u32) as u32,
    )
}

proof fn digits_found(s: Seq<char>)
    ensures
        data::digits_in(s) == digits(s),
    decreases s.len(),
{
    reveal(Seq::filter);
    let is_digit = |c: char| '0' as u32 <= c as u32 <= '9' as u32;
    if s.len() > 0 {
        let front = s.drop_last();
        digits_found(front);
        assert(s.filter(is_digit) == if is_digit(s.last()) {
            front.filter(is_digit).push(s.last())
        } else {
            front.filter(is_digit)
        });
    }
    assert(data::digits_in(s) =~= digits(s));
}

/// The sudoku of a line: two parts, one comma between them, with the digits of nine by nine cells
/// each.
pub open spec fn sudoku_of(line: Seq<char>) -> Option<(Seq<u32>, Seq<u32>)> {
    let parts = text::split(text::trim(line), ',');
    if parts.len() == 2 && digits(parts[0]).len() == 9 * 9 && digits(parts[1]).len() == 9 * 9 {
        Some((digits(parts[0]), digits(parts[1])))
    } else {
        None
    }
}

/// Every line that holds a sudoku makes one example, in the order of the lines and under the
/// number of the line; no other line makes any.
pub proof fn sudokus_follow_the_lines(lines: Seq<Seq<char>>)
    requires
        lines.len() <= u32::MAX,
    ensures
        ({
            let all = data::sudoku_examples(lines);
            &&& forall|i: int|
                0 <= i < all.len() ==> {
                    let e = #[trigger] all[i];
                    &&& e.puzzle_id < lines.len()
                    &&& sudoku_of(lines[e.puzzle_id as int]) == Some((e.x_tokens, e.y_tokens))
                    &&& e.rows == 9 && e.cols == 9 && e.x_seq_len == 81 && e.y_seq_len == 81
                }
            &&& forall|i: int, j: int|
                0 <= i < j < all.len() ==> (#[trigger] all[i]).puzzle_id < (
                #[trigger] all[j]).puzzle_id
            &&& forall|n: int|
                0 <= n < lines.len() && sudoku_of(#[trigger] lines[n]) is Some ==> exists|i: int|
                    0 <= i < all.len() && (#[trigger] all[i]).puzzle_id == n
        }),
    decreases lines.len(),
{
    let all = data::sudoku_examples(lines);
    if lines.len() > 0 {
        let front = lines.drop_last();
        sudokus_follow_the_lines(front);
        let before = data::sudoku_examples(front);
        let line = lines.last();
        line_read(line);
        assert forall|i: int| 0 <= i < all.len() implies {
            let e = #[trigger] all[i];
            &&& e.puzzle_id < lines.len()
            &&& sudoku_of(lines[e.puzzle_id as int]) == Some((e.x_tokens, e.y_tokens))
            &&& e.rows == 9 && e.cols == 9 && e.x_seq_len == 81 && e.y_seq_len == 81
        } by {
            if i < before.len() {
                assert(all[i] == before[i]);
                assert(front[before[i].puzzle_id as int] == lines[before[i].puzzle_id as int]);
            }
        }
        assert forall|i: int, j: int| 0 <= i < j < all.len() implies (
        #[trigger] all[i]).puzzle_id < (#[trigger] all[j]).puzzle_id by {
            assert(all[i] == before[i]);
            if j < before.len() {
                assert(all[j] == before[j]);
            }
        }
        assert forall|n: int|
            0 <= n < lines.len() && sudoku_of(#[trigger] lines[n]) is Some implies exists|i: int|
            0 <= i < all.len() && (#[trigger] all[i]).puzzle_id == n by {
            if n < front.len() {
                assert(front[n] == lines[n]);
                let i = choose|i: int|
                    0 <= i < before.len() && (#[trigger] before[i]).puzzle_id == n;
                assert(all[i] == before[i]);
            } else {
                assert(all[all.len() - 1].puzzle_id == n);
            }
        }
    }
}

proof fn line_read(line: Seq<char>)
    ensures
        data::sudoku_line(line) == sudoku_of(line),
{
    let t = text::trim(line);
    let parts = text::split(t, ',');
    if parts.len() == 2 {
        digits_found(parts[0]);
        digits_found(parts[1]);
        assert(t.len() > 0);
    }
}

/// The token of a cell of a maze.
pub open spec fn token_of(c: char) -> u32 {
    match c {
        '#' => 0,
        'S' => 2,
        'E' => 3,
        '*' => 4,
        _ => 1,
    }
}

/// The maze of a text: its lines in a row as tokens, question and answer alike, as high as there
/// are lines and as wide as the first of them. A text without lines holds none.
pub open spec fn maze_of(txt: Seq<char>, id: int) -> Option<ExampleModel> {
    let lines = text::lines(txt);
    let tokens = lines.flatten().map_values(|c: char| token_of(c));
    if lines.len() == 0 {
        None
    } else {
        Some(
            ExampleModel {
                puzzle_id: id as u32,
                x_tokens: tokens,
                y_tokens: tokens,
                rows: lines.len() as usize,
                cols: lines[0].len() as usize,
                x_seq_len: tokens.len() as usize,
                y_seq_len: tokens.len() as usize,
            },
        )
    }
}

proof fn maze_read(lines: Seq<Seq<char>>)
    ensures
        data::maze_tokens(lines) == lines.flatten().map_values(|c: char| token_of(c)),
    decreases lines.len(),
{
    lines.lemma_flatten_and_flatten_alt_are_equivalent();
    if lines.len() > 0 {
        let front = lines.drop_last();
        maze_read(front);
        front.lemma_flatten_and_flatten_alt_are_equivalent();
        assert(lines.flatten() == front.flatten() + lines.last());
    }
    assert(data::maze_tokens(lines) =~= lines.flatten().map_values(|c: char| token_of(c)));
}

/// Every file that holds a maze makes one example, in the order of the files and under the number
/// of the file; no other file makes any.
pub proof fn mazes_follow_the_files(files: Seq<Seq<char>>)
    requires
        files.len() <= u32::MAX,
    ensures
        ({
            let all = data::maze_examples(files);
            &&& forall|i: int|
                0 <= i < all.len() ==> {
                    let e = #[trigger] all[i];
                    &&& e.puzzle_id < files.len()
                    &&& maze_of(files[e.puzzle_id as int], e.puzzle_id as int) == Some(e)
                }
            &&& forall|i: int, j: int|
                0 <= i < j < all.len() ==> (#[trigger] all[i]).puzzle_id < (
                #[trigger] all[j]).puzzle_id
            &&& forall|n: int|
                0 <= n < files.len() && maze_of(#[trigger] files[n], n) is Some ==> exists|i: int|
                    0 <= i < all.len() && (#[trigger] all[i]).puzzle_id == n
        }),
    decreases files.len(),
{
    let all = data::maze_examples(files);
    if files.len() > 0 {
        let front = files.drop_last();
        mazes_follow_the_files(front);
        let before = data::maze_examples(front);
        maze_read(text::lines(files.last()));
        assert(data::maze_example(files.last(), files.len() - 1) == maze_of(
            files.last(),
            files.len() - 1,
        ));
        assert forall|i: int| 0 <= i < all.len() implies {
            let e = #[trigger] all[i];
            &&& e.puzzle_id < files.len()
            &&& maze_of(files[e.puzzle_id as int], e.puzzle_id as int) == Some(e)
        } by {
            if i < before.len() {
                assert(all[i] == before[i]);
                assert(front[before[i].puzzle_id as int] == files[before[i].puzzle_id as int]);
            }
        }
        assert forall|i: int, j: int| 0 <= i < j < all.len() implies (
        #[trigger] all[i]).puzzle_id < (#[trigger] all[j]).puzzle_id by {
            assert(all[i] == before[i]);
            if j < before.len() {
                assert(all[j] == before[j]);
            }
        }
        assert forall|n: int|
            0 <= n < files.len() && maze_of(#[trigger] files[n], n) is Some implies exists|i: int|
            0 <= i < all.len() && (#[trigger] all[i]).puzzle_id == n by {
            if n < front.len() {
                assert(front[n] == files[n]);
                let i = choose|i: int|
                    0 <= i < before.len() && (#[trigger] before[i]).puzzle_id == n;
                assert(all[i] == before[i]);
            } else {
                assert(all[all.len() - 1].puzzle_id == n);
            }
        }
    }
}

/// A file counts as a task exactly where its name has something before a final `.json`.
pub proof fn tasks_are_named_json(name: &str, r: bool)
    requires
        call_ensures(data::is_json_file, (name,), r),
    ensures
        r <==> exists|stem: Seq<char>| stem.len() > 0 && name@ == #[trigger] (stem + ".json"@),
{
    reveal_strlit(".json");
    let end = ".json"@;
    let n = name@.len();
    if r {
        let stem = name@.take(n - 5);
        assert(name@ =~= stem + name@.subrange(n - 5, n - 5 + end.len()));
        assert(name@ == stem + ".json"@);
    }
    if exists|stem: Seq<char>| stem.len() > 0 && name@ == #[trigger] (stem + ".json"@) {
        let stem = choose|stem: Seq<char>|
            stem.len() > 0 && name@ == #[trigger] (stem + ".json"@);
        assert(name@.subrange(n - 5, n - 5 + end.len()) =~= end);
    }
}

} // verus!
