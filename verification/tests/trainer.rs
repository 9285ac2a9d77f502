use rand::rngs::StdRng;
use rand::seq::SliceRandom;
use rand::SeedableRng;
use trm_omega::arith::Arith;
use trm_omega::data::{ArcTask, Grid, TokenizedExample};
use trm_omega::network::NetworkVariant;
use trm_omega::ratio::Ratio;
use trm_omega::train::checkpoint::{ema_file, epoch_tag, meta_file, model_file, TrainingMeta};
use trm_omega::train::loss::{DsWeightScheme, LossMath};
use trm_omega::train::session::{Session, Task};
use trm_omega::train::trainer::{
    accum_steps, assemble, augment_mode, evaluate, network_seq_len, parse_task,
    parse_variant, split_list, split_tasks, total_steps, train_split, AsyncDataLoader, AugmentMode,
    Augmenter, Batch, EpochProgress, Evaluator, Rates, TaskType, TrainConfig,
};

struct F64;

impl Arith for F64 {
    type Num = f64;

    fn whole(&self, n: i128) -> f64 {
        n as f64
    }
    fn plus(&self, a: f64, b: f64) -> f64 {
        a + b
    }
    fn minus(&self, a: f64, b: f64) -> f64 {
        a - b
    }
    fn times(&self, a: f64, b: f64) -> f64 {
        a * b
    }
    fn over(&self, a: f64, b: f64) -> f64 {
        a / b
    }
    fn negated(&self, a: f64) -> f64 {
        -a
    }
    fn magnitude(&self, a: f64) -> f64 {
        a.abs()
    }
    fn exp(&self, a: f64) -> f64 {
        a.exp()
    }
    fn sqrt(&self, a: f64) -> f64 {
        a.sqrt()
    }
    fn exceeds(&self, a: f64, b: f64) -> bool {
        a > b
    }
    fn lowest(&self) -> f64 {
        f64::NEG_INFINITY
    }
    fn speck(&self) -> f64 {
        1e-12
    }
}

fn ex(id: u32, x: &[u32], y: &[u32]) -> TokenizedExample {
    TokenizedExample {
        puzzle_id: id,
        x_tokens: x.to_vec(),
        y_tokens: y.to_vec(),
        rows: 1,
        cols: x.len(),
        x_seq_len: x.len(),
        y_seq_len: y.len(),
    }
}

#[test]
fn tasks_and_variants_are_told_by_name() {
    assert_eq!(parse_task("sudoku"), TaskType::Sudoku);
    assert_eq!(parse_task("maze"), TaskType::Maze);
    assert_eq!(parse_task("arc"), TaskType::Arc);
    assert_eq!(parse_task("other"), TaskType::Arc);
    assert_eq!(parse_variant("mixer"), NetworkVariant::MlpMixer);
    assert_eq!(parse_variant("transformer"), NetworkVariant::Transformer);
    assert_eq!(network_seq_len(TaskType::Sudoku), 243);
    assert_eq!(network_seq_len(TaskType::Arc), 2700);
    assert_eq!(network_seq_len(TaskType::Maze), 2700);
}

#[test]
fn a_batch_is_padded_to_its_longest_question() {
    let b = assemble(vec![ex(3, &[1, 2, 3], &[4]), ex(5, &[6], &[7, 8, 9, 9])], 10);
    assert_eq!(b.max_seq, 3);
    assert_eq!(b.x, vec![1, 2, 3, 6, 10, 10]);
    assert_eq!(b.y, vec![4, 10, 10, 7, 8, 9]);
    assert_eq!(b.p, vec![3, 5]);
    assert_eq!(b.blocked.len(), 18);
    assert!(b.blocked[..9].iter().all(|m| !m));
    // of the second example only the first position is seen by the first
    let open: Vec<usize> = (9..18).filter(|&i| !b.blocked[i]).collect();
    assert_eq!(open, vec![9]);
    assert_eq!(assemble(vec![], 10).max_seq, 1);
}

struct Fixed;

impl Augmenter for Fixed {
    fn sudoku_pair(&self, x: &Grid, y: &Grid) -> (Grid, Grid) {
        (y.clone(), x.clone())
    }
    fn variants(&self, puzzle_id: u32, x: &Grid, _y: &Grid) -> Vec<(Grid, Grid)> {
        vec![(vec![vec![puzzle_id as u8, 1]], x.clone())]
    }
}

fn epoch(mode: AugmentMode, seed: u64) -> Vec<Batch> {
    let data: Vec<TokenizedExample> = (0..7).map(|i| ex(i, &[i, 0], &[9, i])).collect();
    let mut loader = AsyncDataLoader::start(data, 3, mode, 10, seed);
    let mut out = Vec::new();
    while let Some(b) = loader.next_batch(&Fixed) {
        out.push(b);
    }
    assert!(loader.next_batch(&Fixed).is_none());
    out
}

#[test]
fn an_epoch_deals_every_example_once() {
    let batches = epoch(AugmentMode::Off, 42);
    let sizes: Vec<usize> = batches.iter().map(|b| b.examples.len()).collect();
    assert_eq!(sizes, vec![3, 3, 1]);
    let mut ids: Vec<u32> = batches.iter().flat_map(|b| b.p.clone()).collect();
    ids.sort();
    assert_eq!(ids, vec![0, 1, 2, 3, 4, 5, 6]);
}

#[test]
fn the_order_follows_the_seed() {
    let ids = |seed: u64| -> Vec<u32> {
        epoch(AugmentMode::Off, seed).iter().flat_map(|b| b.p.clone()).collect()
    };
    assert_eq!(ids(42), ids(42));
    assert!((0..20).any(|s| ids(s) != ids(42)));
    assert!((0..20).any(|s| ids(s) != vec![0, 1, 2, 3, 4, 5, 6]));
}

#[test]
fn examples_are_varied_as_the_mode_says() {
    for b in epoch(AugmentMode::Sudoku, 1) {
        for e in &b.examples {
            assert_eq!(e.x_tokens, vec![9, e.puzzle_id]);
            assert_eq!(e.y_tokens, vec![e.puzzle_id, 0]);
        }
    }
    for b in epoch(AugmentMode::Cached, 1) {
        for e in &b.examples {
            assert_eq!(e.x_tokens, vec![e.puzzle_id, 1]);
            assert_eq!(e.y_tokens, vec![e.puzzle_id, 0]);
            assert_eq!(e.y_seq_len, 2);
        }
    }
    assert!(matches!(augment_mode(true, TaskType::Sudoku), AugmentMode::Off));
    assert!(matches!(augment_mode(false, TaskType::Sudoku), AugmentMode::Sudoku));
    assert!(matches!(augment_mode(false, TaskType::Maze), AugmentMode::Cached));
}

#[test]
fn nine_tenths_go_to_training() {
    assert_eq!(train_split(10), 9);
    assert_eq!(train_split(4), 3);
    assert_eq!(train_split(1), 0);
    let (train, val) = split_list(vec![1, 2, 3, 4]);
    assert_eq!((train, val), (vec![1, 2, 3], vec![4]));
    let (train, val) = split_list(Vec::<u8>::new());
    assert!(train.is_empty() && val.is_empty());
}

#[test]
fn whole_tasks_are_parted() {
    let task = |id: u32| {
        (
            format!("t{id}"),
            ArcTask {
                train_pairs: vec![(vec![vec![id as u8]], vec![vec![0]]); 2],
                test_inputs: vec![],
                test_outputs: vec![],
                puzzle_id: id,
            },
        )
    };
    let (train, val) = split_tasks(vec![task(0), task(1), task(2)]);
    let ids = |v: &Vec<TokenizedExample>| -> Vec<u32> { v.iter().map(|e| e.puzzle_id).collect() };
    assert_eq!(ids(&train), vec![0, 0, 1, 1]);
    assert_eq!(ids(&val), vec![2, 2]);
}

#[test]
fn micro_batches_cover_the_batch() {
    assert_eq!(accum_steps(32, 4), 8);
    assert_eq!(accum_steps(33, 4), 9);
    assert_eq!(accum_steps(1, 4), 1);
    assert_eq!(accum_steps(5, 0), 4);
}

#[test]
fn losses_are_averaged_over_steps_and_then_over_the_epoch() {
    let mut p = EpochProgress::start(&F64, 2);
    assert!(!p.on_batch(&F64, 1.0));
    assert!(p.on_batch(&F64, 3.0));
    assert!(!p.on_batch(&F64, 100.0));
    assert_eq!(p.mean_loss(&F64), 2.0);
    assert!(p.on_batch(&F64, 100.0));
    assert_eq!(p.mean_loss(&F64), 51.0);
    assert_eq!(p.batches, 2);
    let none = EpochProgress::start(&F64, 2);
    assert_eq!(none.mean_loss(&F64), 0.0);
}

#[test]
fn the_schedule_runs_for_a_hundred_steps_an_epoch() {
    assert_eq!(total_steps(50_000), 5_000_000);
}

fn session_from(epoch: usize, max_epochs: usize) -> Session<f64> {
    let mut meta = TrainingMeta::fresh(0.0, f64::MAX, 0.999);
    meta.epoch = epoch;
    Session::start(meta, max_epochs, 2, 3, 16)
}

fn run_through(mut s: Session<f64>, accuracies: &[f64]) -> (Vec<Task>, Session<f64>) {
    let mut next = accuracies.iter();
    let mut asked = Vec::new();
    loop {
        let task = s.task();
        match &task {
            Task::Train(_) => s.trained(),
            Task::Evaluate => s.evaluated(&F64, *next.next().unwrap()),
            Task::Save(_) => s.saved(),
            Task::Done => return (asked, s),
        }
        asked.push(task);
    }
}

fn save(tag: &str) -> Task {
    Task::Save(tag.to_string())
}

#[test]
fn evaluation_and_checkpoints_come_every_so_many_epochs() {
    let (asked, end) = run_through(session_from(0, 6), &[0.25, 0.25, 0.5]);
    assert_eq!(
        asked,
        vec![
            Task::Train(0),
            Task::Train(1),
            Task::Evaluate,
            save("best"),
            Task::Train(2),
            save("epoch_3"),
            Task::Train(3),
            Task::Evaluate,
            Task::Train(4),
            Task::Train(5),
            Task::Evaluate,
            save("best"),
            save("epoch_6"),
            save("final"),
        ]
    );
    assert_eq!(end.meta.best_val_acc, 0.5);
    assert_eq!(end.meta.epoch, 5);
    assert_eq!(end.meta.current_batch_size, 16);
}

#[test]
fn a_run_goes_on_from_its_record() {
    let (asked, _) = run_through(session_from(4, 5), &[]);
    assert_eq!(asked, vec![Task::Train(4), save("final")]);
    let (asked, end) = run_through(session_from(5, 5), &[]);
    assert_eq!(asked, vec![save("final")]);
    assert_eq!(end.meta.current_batch_size, 32);
}

#[test]
fn checkpoint_files_are_named_by_their_tag() {
    assert_eq!(model_file("best"), "best.safetensors");
    assert_eq!(ema_file("best"), "best.ema.safetensors");
    assert_eq!(meta_file("best"), "best.meta.json");
    assert_eq!(epoch_tag(120), "epoch_120");
    assert_eq!(epoch_tag(0), "epoch_0");
    let names = [model_file("a"), ema_file("a"), meta_file("a"), model_file("b")];
    for i in 0..4 {
        for j in 0..i {
            assert_ne!(names[i], names[j]);
        }
    }
}

#[test]
fn a_fresh_record_has_seen_nothing() {
    let m = TrainingMeta::fresh(0.0, f64::MAX, 0.999);
    assert_eq!((m.epoch, m.global_step, m.ema_step), (0, 0, 0));
    assert_eq!((m.rng_seed, m.ema_warmup, m.current_batch_size), (42, 1000, 32));
    assert_eq!((m.best_val_acc, m.best_val_loss, m.ema_decay), (0.0, f64::MAX, 0.999));
}

#[test]
fn the_standard_run() {
    let c = TrainConfig::standard(Rates {
        base_lr: 1e-3,
        puzzle_lr: 1e-4,
        weight_decay: 1.0,
        puzzle_wd: 1.0,
        grad_clip: 1.0,
        ema_decay: 0.999,
        halt_lambda: 0.01,
    });
    assert_eq!((c.data_dir.as_str(), c.checkpoint_dir.as_str()), ("data", "checkpoints"));
    assert_eq!((c.batch_size, c.micro_batch_size, c.max_tokens_per_batch), (32, 4, 32 * 900));
    assert_eq!((c.max_epochs, c.eval_every_epochs, c.save_every_epochs), (50_000, 5000, 10_000));
    assert_eq!(c.ds_weight_scheme, DsWeightScheme::LinearIncreasing);
    assert!(c.use_fp16 && !c.no_augment && c.resume_tag.is_none());
    assert_eq!((c.base_lr, c.halt_lambda), (1e-3, 0.01));
}

/// A table of numbers.
#[derive(Clone)]
struct Sheet {
    cols: usize,
    cells: Vec<f64>,
}

impl Sheet {
    fn map(&self, f: impl Fn(f64) -> f64) -> Result<Sheet, String> {
        Ok(Sheet { cols: self.cols, cells: self.cells.iter().map(|c| f(*c)).collect() })
    }
    fn zip(&self, other: &Sheet, f: impl Fn(f64, f64) -> f64) -> Result<Sheet, String> {
        if self.cells.len() != other.cells.len() {
            return Err("shapes differ".to_string());
        }
        let pairs = self.cells.iter().zip(other.cells.iter());
        Ok(Sheet { cols: self.cols, cells: pairs.map(|(a, b)| f(*a, *b)).collect() })
    }
}

fn number(n: f64) -> Result<Sheet, String> {
    Ok(Sheet { cols: 1, cells: vec![n] })
}

/// Answers every example with its own question; fails on puzzle 99. A wrong token costs one.
struct Echo;

impl LossMath for Echo {
    type T = Sheet;
    type W = f64;
    type E = String;

    fn zero(&self, _like: Option<&Sheet>) -> Result<Sheet, String> {
        number(0.0)
    }
    fn log_softmax(&self, logits: &Sheet) -> Result<Sheet, String> {
        Ok(logits.clone())
    }
    fn at_targets(&self, t: &Sheet, targets: &Sheet) -> Result<Sheet, String> {
        t.zip(targets, |a, b| if a == b { 0.0 } else { -1.0 })
    }
    fn differs(&self, targets: &Sheet, class: u32) -> Result<Sheet, String> {
        targets.map(|t| if t == class as f64 { 0.0 } else { 1.0 })
    }
    fn negated(&self, t: &Sheet) -> Result<Sheet, String> {
        t.map(|a| -a)
    }
    fn one_more(&self, t: &Sheet) -> Result<Sheet, String> {
        t.map(|a| a + 1.0)
    }
    fn times(&self, a: &Sheet, b: &Sheet) -> Result<Sheet, String> {
        a.zip(b, |a, b| a * b)
    }
    fn total(&self, t: &Sheet) -> Result<Sheet, String> {
        number(t.cells.iter().sum())
    }
    fn mean(&self, t: &Sheet) -> Result<Sheet, String> {
        number(t.cells.iter().sum::<f64>() / t.cells.len() as f64)
    }
    fn at_least_one(&self, t: &Sheet) -> Result<Sheet, String> {
        t.map(|a| a.max(1.0))
    }
    fn over(&self, a: &Sheet, b: &Sheet) -> Result<Sheet, String> {
        a.zip(b, |a, b| a / b)
    }
    fn uniform(&self, n: usize) -> f64 {
        1.0 / n as f64
    }
    fn weighed(&self, loss: &Sheet, w: f64) -> Result<Sheet, String> {
        loss.map(|a| a * w)
    }
    fn plus(&self, a: &Sheet, b: &Sheet) -> Result<Sheet, String> {
        a.zip(b, |a, b| a + b)
    }
}

impl Evaluator<f64> for Echo {
    fn tokens(&self, flat: &Vec<u32>, rows: usize, cols: usize) -> Result<Sheet, String> {
        assert_eq!(flat.len(), rows * cols);
        Ok(Sheet { cols, cells: flat.iter().map(|t| *t as f64).collect() })
    }
    fn puzzles(&self, ids: &Vec<u32>) -> Result<Sheet, String> {
        Ok(Sheet { cols: 1, cells: ids.iter().map(|t| *t as f64).collect() })
    }
    fn mask(&self, blocked: &Vec<bool>, count: usize, seq: usize) -> Result<Sheet, String> {
        assert_eq!(blocked.len(), count * seq * seq);
        Ok(Sheet { cols: seq, cells: blocked.iter().map(|b| *b as u32 as f64).collect() })
    }
    fn forward_trace(
        &self,
        x: &Sheet,
        y_seq: usize,
        p: &Sheet,
        mask: &Sheet,
    ) -> Result<(Sheet, Sheet), String> {
        if p.cells.contains(&99.0) {
            return Err("no such puzzle".to_string());
        }
        assert_eq!((y_seq, mask.cols), (x.cols, x.cols));
        Ok((x.clone(), x.clone()))
    }
    fn value(&self, loss: &Sheet) -> Result<f64, String> {
        Ok(loss.cells[0])
    }
    fn rows(&self, t: &Sheet) -> Result<Vec<Vec<u32>>, String> {
        Ok(t.cells.chunks(t.cols).map(|r| r.iter().map(|c| *c as u32).collect()).collect())
    }
}

#[test]
fn evaluation_counts_rows_tokens_and_mean_loss() {
    let val = vec![ex(0, &[1, 2], &[1, 2]), ex(1, &[1, 2], &[1, 3]), ex(2, &[5], &[5])];
    let r = evaluate(&F64, &Echo, &val, 2, 10).unwrap();
    assert_eq!(r.exact, Ratio { num: 2, den: 3 });
    assert_eq!(r.token, Ratio { num: 4, den: 5 });
    // one of four tokens is wrong in the first window, none in the second
    assert_eq!(r.loss, 0.125);
    let none = evaluate(&F64, &Echo, &[], 2, 10).unwrap();
    assert_eq!(none.exact, Ratio { num: 0, den: 1 });
    assert_eq!(none.loss, 0.0);
    let bad = vec![ex(0, &[1], &[1]), ex(99, &[1], &[1])];
    assert_eq!(evaluate(&F64, &Echo, &bad, 1, 10).unwrap_err(), "no such puzzle");
}

#[test]
fn the_validation_loss_leaves_padding_out() {
    let val = vec![ex(1, &[1, 2], &[4, 3]), ex(2, &[5], &[5])];
    let r = evaluate(&F64, &Echo, &val, 2, 10).unwrap();
    assert_eq!(r.loss, 2.0 / 3.0);
    // tokens are counted with the padding, which agrees
    assert_eq!(r.token, Ratio { num: 2, den: 4 });
}

struct Several;

impl Augmenter for Several {
    fn sudoku_pair(&self, x: &Grid, y: &Grid) -> (Grid, Grid) {
        (x.clone(), y.clone())
    }
    fn variants(&self, _puzzle_id: u32, _x: &Grid, y: &Grid) -> Vec<(Grid, Grid)> {
        (0..50).map(|v| (vec![vec![v]], y.clone())).collect()
    }
}

#[test]
fn order_and_variants_come_from_one_generator() {
    let data: Vec<TokenizedExample> = (0..9).map(|i| ex(i, &[i, 0], &[9, i])).collect();
    let mut loader = AsyncDataLoader::start(data, 4, AugmentMode::Cached, 10, 42);
    let mut seen: Vec<(u32, u32)> = Vec::new();
    while let Some(b) = loader.next_batch(&Several) {
        for e in &b.examples {
            seen.push((e.puzzle_id, e.x_tokens[0]));
        }
    }

    let mut rng = StdRng::seed_from_u64(42);
    let mut order: Vec<u32> = (0..9).collect();
    order.shuffle(&mut rng);
    let places: Vec<u32> = (0..50).collect();
    let expected: Vec<(u32, u32)> =
        order.iter().map(|&id| (id, *places.choose(&mut rng).unwrap())).collect();
    assert_eq!(seen, expected);
}
