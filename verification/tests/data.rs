use trm_omega::data::{
    arc_training_examples, bucket_by_shape, detokenize_grid, discover_benchmark_dir, is_json_file, needs_samples,
    number_tasks, pad_tokens, parse_mazes, parse_sudoku, tokenize_grid, ArcFile, TokenizedExample,
};

#[test]
fn a_grid_survives_tokens() {
    let g = vec![vec![1u8, 2, 3], vec![4, 5, 255]];
    let t = tokenize_grid(&g);
    assert_eq!(t, vec![1, 2, 3, 4, 5, 255]);
    assert_eq!(detokenize_grid(&t, 2, 3), g);
    assert!(tokenize_grid(&vec![]).is_empty());
}

#[test]
fn missing_cells_are_zero_and_large_tokens_keep_their_low_byte() {
    assert_eq!(detokenize_grid(&[7], 2, 2), vec![vec![7, 0], vec![0, 0]]);
    assert_eq!(detokenize_grid(&[258, 9, 9], 1, 1), vec![vec![2]]);
    assert_eq!(detokenize_grid(&[1, 2], 2, 0), vec![Vec::<u8>::new(), Vec::new()]);
}

#[test]
fn tokens_are_padded_or_cut() {
    assert_eq!(pad_tokens(&[1, 2], 4, 9), vec![1, 2, 9, 9]);
    assert_eq!(pad_tokens(&[1, 2, 3], 2, 9), vec![1, 2]);
    assert!(pad_tokens(&[1], 0, 9).is_empty());
}

fn file(stem: &str) -> ArcFile {
    ArcFile {
        stem: stem.to_string(),
        train: vec![(vec![vec![1, 2], vec![3, 4]], vec![vec![1, 1, 2, 2]])],
        test: vec![(vec![vec![5]], vec![vec![6]]), (vec![vec![7]], vec![vec![8]])],
    }
}

#[test]
fn tasks_are_numbered_by_their_place_in_the_directory() {
    let tasks = number_tasks(vec![None, Some(file("a")), None, Some(file("b"))]);
    let ids: Vec<(&str, u32)> = tasks.iter().map(|(n, t)| (n.as_str(), t.puzzle_id)).collect();
    assert_eq!(ids, vec![("a", 1), ("b", 3)]);
    assert_eq!(tasks[0].1.test_inputs, vec![vec![vec![5u8]], vec![vec![7]]]);
    assert_eq!(tasks[0].1.test_outputs, vec![vec![vec![6u8]], vec![vec![8]]]);
    assert!(number_tasks(vec![]).is_empty());
}

#[test]
fn training_pairs_become_examples() {
    let tasks = number_tasks(vec![Some(file("a"))]);
    let ex = arc_training_examples(&tasks);
    assert_eq!(ex.len(), 1);
    assert_eq!(ex[0].x_tokens, vec![1, 2, 3, 4]);
    assert_eq!(ex[0].y_tokens, vec![1, 1, 2, 2]);
    assert_eq!((ex[0].rows, ex[0].cols), (2, 2));
    assert_eq!((ex[0].x_seq_len, ex[0].y_seq_len), (4, 4));
    assert_eq!(ex[0].puzzle_id, 0);
}

fn shaped(id: u32, rows: usize, cols: usize) -> TokenizedExample {
    TokenizedExample {
        puzzle_id: id,
        x_tokens: vec![0; rows * cols],
        y_tokens: vec![0; rows * cols],
        rows,
        cols,
        x_seq_len: rows * cols,
        y_seq_len: rows * cols,
    }
}

#[test]
fn buckets_come_in_order_of_shape_and_keep_arrival_order() {
    let b = bucket_by_shape(vec![
        shaped(0, 3, 3),
        shaped(1, 2, 9),
        shaped(2, 3, 3),
        shaped(3, 3, 1),
    ]);
    let got: Vec<(usize, usize, Vec<u32>)> = b
        .iter()
        .map(|b| (b.rows, b.cols, b.examples.iter().map(|e| e.puzzle_id).collect()))
        .collect();
    assert_eq!(got, vec![(2, 9, vec![1]), (3, 1, vec![3]), (3, 3, vec![0, 2])]);
    assert!(bucket_by_shape(vec![]).is_empty());
}

#[test]
fn sudoku_lines_need_two_full_boards() {
    let board = "003020600900305001001806400008102900700000008006708200002609500800203009005010300";
    let solved = "483921657967345821251876493548132976729564138136798245372689514814253769695417382";
    let txt = format!("\n  {board},{solved}  \r\nshort,line\n{board}\n{board},{solved},x\n");
    let ex = parse_sudoku(&txt);
    assert_eq!(ex.len(), 1);
    assert_eq!(ex[0].puzzle_id, 1);
    assert_eq!((ex[0].rows, ex[0].cols, ex[0].x_seq_len), (9, 9, 81));
    assert_eq!(&ex[0].x_tokens[..9], &[0, 0, 3, 0, 2, 0, 6, 0, 0]);
    assert_eq!(&ex[0].y_tokens[..4], &[4, 8, 3, 9]);
    assert!(parse_sudoku("").is_empty());
}

#[test]
fn characters_that_are_no_digits_are_skipped_in_a_board() {
    let board: String = (0..81).map(|i| if i % 9 == 0 { "1 " } else { "2" }).collect();
    let ex = parse_sudoku(&format!("{board},{board}"));
    assert_eq!(ex.len(), 1);
    assert_eq!(ex[0].x_tokens.len(), 81);
}

#[test]
fn mazes_are_drawn_in_five_tokens() {
    let txt = "#####\n#S..#\n#.#.#\n#..E#\n#####\n".to_string();
    let ex = parse_mazes(&vec![String::new(), txt, "*?".to_string()]);
    assert_eq!(ex.len(), 2);
    assert_eq!(ex[0].puzzle_id, 1);
    assert_eq!((ex[0].rows, ex[0].cols), (5, 5));
    assert_eq!(&ex[0].x_tokens[5..10], &[0, 2, 1, 1, 0]);
    assert_eq!(ex[0].x_tokens[18], 3);
    assert_eq!(ex[0].x_tokens, ex[0].y_tokens);
    assert_eq!(ex[1].x_tokens, vec![4, 1]);
    assert_eq!(ex[1].puzzle_id, 2);
}

#[test]
fn only_json_files_are_tasks() {
    assert!(is_json_file("a.json"));
    assert!(!is_json_file(".json"));
    assert!(!is_json_file("a.JSON"));
    assert!(!is_json_file("json"));
    assert!(needs_samples(&vec!["readme.md".to_string(), ".json".to_string()]));
    assert!(!needs_samples(&vec!["x".to_string(), "b.json".to_string()]));
    assert!(needs_samples(&vec![]));
}

#[test]
fn a_benchmark_lies_under_its_root() {
    let join = |root: &str, name: &str| {
        std::path::Path::new(root).join(name).to_string_lossy().to_string()
    };
    assert_eq!(discover_benchmark_dir(&join, "data", "arc"), join("data", "arc"));
    assert_eq!(discover_benchmark_dir(&join, "", "arc"), "arc");
    let windows = |root: &str, name: &str| format!("{root}\\{name}");
    assert_eq!(discover_benchmark_dir(&windows, "data", "arc"), "data\\arc");
}
