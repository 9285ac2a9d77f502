use trm_omega::data::{ArcTask, Grid};
use trm_omega::ratio::Ratio;
use trm_omega::task_eval::{evaluate_arc_tasks, EvalError, EvalResult, Solver};

/// Adds one to every colour, and only on the second attempt at puzzle 1. Fails on puzzle 9.
struct PlusOne;

impl Solver for PlusOne {
    type T = usize;
    type E = String;

    fn augment_grid(&self, n: usize, seed: u64, grid: &Grid) -> Vec<(Grid, usize)> {
        let late = if seed == 42 { 0 } else { 1 };
        (0..n).map(|_| (grid.clone(), late)).collect()
    }
    fn forward_inference(
        &self,
        tokens: &Vec<u32>,
        seq_len: usize,
        puzzle_id: u32,
    ) -> Result<Vec<u32>, String> {
        assert_eq!(tokens.len(), seq_len);
        if puzzle_id == 9 {
            return Err("cannot".to_string());
        }
        Ok(tokens.iter().map(|t| t + 1).collect())
    }
    fn majority_vote(&self, _n: usize, _seed: u64, preds: &Vec<(Grid, usize)>) -> Grid {
        match preds.first() {
            Some((g, late)) => {
                if *late == 0 && g[0][0] == 8 {
                    vec![vec![0]]
                } else {
                    g.clone()
                }
            }
            None => vec![],
        }
    }
}

fn task(id: u32, input: Grid, output: Grid) -> (String, ArcTask) {
    (
        format!("t{id}"),
        ArcTask {
            train_pairs: vec![],
            test_inputs: vec![input],
            test_outputs: vec![output],
            puzzle_id: id,
        },
    )
}

#[test]
fn a_puzzle_is_solved_where_a_vote_is_its_solution() {
    let tasks = vec![
        task(0, vec![vec![1, 2], vec![3, 4]], vec![vec![2, 3], vec![4, 5]]),
        task(1, vec![vec![7]], vec![vec![8]]),
        task(2, vec![vec![1]], vec![vec![1]]),
    ];
    let once = evaluate_arc_tasks(&PlusOne, &tasks, 3, false).ok().unwrap();
    assert_eq!((once.total, once.exact), (3, 1));
    let twice = evaluate_arc_tasks(&PlusOne, &tasks, 3, true).ok().unwrap();
    assert_eq!((twice.total, twice.exact), (3, 2));
    assert_eq!(twice.accuracy(), Ratio { num: 2, den: 3 });
}

#[test]
fn an_empty_evaluation_scores_zero() {
    let r = evaluate_arc_tasks(&PlusOne, &[], 1, true).ok().unwrap();
    assert_eq!((r.total, r.exact), (0, 0));
    assert_eq!(r.accuracy(), Ratio { num: 0, den: 1 });
    assert_eq!(EvalResult { total: 4, exact: 1 }.accuracy(), Ratio { num: 1, den: 4 });
}

#[test]
fn the_first_failure_ends_the_evaluation() {
    let tasks = vec![task(0, vec![vec![1]], vec![vec![2]]), task(9, vec![vec![1]], vec![vec![2]])];
    let r = evaluate_arc_tasks(&PlusOne, &tasks, 1, false);
    assert!(matches!(r, Err(EvalError::Model(m)) if m == "cannot"));
    let ragged = vec![task(0, vec![vec![1, 2], vec![3]], vec![vec![2]])];
    let r = evaluate_arc_tasks(&PlusOne, &ragged, 1, false);
    assert!(matches!(r, Err(EvalError::Ragged)));
}

#[test]
fn a_solution_of_another_shape_is_a_miss() {
    let tasks = vec![task(0, vec![vec![1, 2]], vec![vec![2], vec![3]])];
    let r = evaluate_arc_tasks(&PlusOne, &tasks, 1, true).ok().unwrap();
    assert_eq!((r.total, r.exact), (1, 0));
}

#[test]
fn a_second_try_solves_no_fewer() {
    let tasks = vec![
        task(0, vec![vec![1]], vec![vec![2]]),
        task(1, vec![vec![7]], vec![vec![8]]),
        task(2, vec![vec![7]], vec![vec![0]]),
        task(3, vec![vec![5]], vec![vec![5]]),
    ];
    for n in [0, 1, 4] {
        let once = evaluate_arc_tasks(&PlusOne, &tasks, n, false).ok().unwrap();
        let twice = evaluate_arc_tasks(&PlusOne, &tasks, n, true).ok().unwrap();
        assert_eq!((once.total, twice.total), (4, 4));
        assert!(once.exact <= twice.exact && twice.exact <= twice.total);
    }
}
