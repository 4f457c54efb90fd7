use rand::rngs::StdRng;
use rand::{Rng, SeedableRng};
use tictactoe::{
    choose_move, empty_count, get_ai_move_blocking, get_ai_move_random, nth_empty_cell,
    tactical_move, winning_move, Board, Cell, Difficulty, Mark,
};

const E: Cell = Cell::Empty;
const X: Cell = Cell::Marked(Mark::X);
const O: Cell = Cell::Marked(Mark::O);

#[test]
fn blocking_takes_own_win_before_blocking() {
    let b = Board::from_cells([X, X, E, O, O, E, E, E, E]);
    assert_eq!(get_ai_move_blocking(&b, Mark::O), 5);
    assert_eq!(choose_move(&b, Mark::O, Difficulty::Hard), 5);
    assert_eq!(tactical_move(&b, Mark::O), Some(5));
}

#[test]
fn blocking_for_x_takes_its_own_row() {
    let b = Board::from_cells([X, X, E, O, O, E, E, E, E]);
    assert_eq!(get_ai_move_blocking(&b, Mark::X), 2);
}

#[test]
fn blocking_blocks_when_no_own_win() {
    let b = Board::from_cells([X, E, E, E, X, E, O, E, E]);
    // X threatens the main diagonal at 8; O has no line of two.
    assert_eq!(winning_move(&b, Mark::O), None);
    assert_eq!(winning_move(&b, Mark::X), Some(8));
    assert_eq!(get_ai_move_blocking(&b, Mark::O), 8);
}

#[test]
fn blocking_uses_fixed_line_order() {
    // X threatens row 1 (cell 5) and column 0 (cell 6); rows come first.
    let b = Board::from_cells([X, O, E, X, X, E, E, E, O]);
    assert_eq!(winning_move(&b, Mark::X), Some(5));
    assert_eq!(get_ai_move_blocking(&b, Mark::O), 5);
}

#[test]
fn blocking_completes_line_with_gap_in_middle() {
    let b = Board::from_cells([O, E, O, X, E, E, X, E, E]);
    assert_eq!(winning_move(&b, Mark::O), Some(1));
    assert_eq!(get_ai_move_blocking(&b, Mark::O), 1);
}

#[test]
fn blocking_falls_back_to_an_empty_cell() {
    let b = Board::from_cells([X, E, E, E, O, E, E, E, E]);
    assert_eq!(tactical_move(&b, Mark::O), None);
    for _ in 0..200 {
        let i = get_ai_move_blocking(&b, Mark::O);
        assert!(i < 9);
        assert_eq!(b.cell_at(i), Cell::Empty);
    }
}

#[test]
fn random_move_with_one_empty_cell_takes_it() {
    let b = Board::from_cells([X, O, X, X, O, O, O, X, E]);
    for _ in 0..50 {
        assert_eq!(get_ai_move_random(&b), 8);
        assert_eq!(choose_move(&b, Mark::X, Difficulty::Easy), 8);
    }
}

#[test]
fn random_move_always_lands_on_empty_cell() {
    let b = Board::from_cells([X, E, O, E, X, E, O, E, X]);
    for _ in 0..500 {
        let i = get_ai_move_random(&b);
        assert!(i < 9);
        assert_eq!(b.cell_at(i), Cell::Empty);
    }
}

#[test]
fn empty_cells_are_enumerated_in_order() {
    let b = Board::from_cells([X, E, O, E, X, E, O, E, X]);
    assert_eq!(empty_count(&b), 4);
    let cells: Vec<usize> = (0..4).map(|k| nth_empty_cell(&b, k)).collect();
    assert_eq!(cells, vec![1, 3, 5, 7]);
    assert_eq!(empty_count(&Board::new()), 9);
    assert_eq!(nth_empty_cell(&Board::new(), 8), 8);
}

#[test]
fn seeded_random_choice_is_uniform_over_empty_cells() {
    let b = Board::from_cells([X, E, O, E, X, E, O, E, E]);
    let k = empty_count(&b);
    assert_eq!(k, 5);
    let trials = 20_000;
    let mut rng = StdRng::seed_from_u64(7);
    let mut hits = [0usize; 9];
    for _ in 0..trials {
        let i = nth_empty_cell(&b, rng.gen_range(0..k));
        hits[i] += 1;
    }
    let expected = trials / k;
    for i in 0..9 {
        if b.cell_at(i) == Cell::Empty {
            let diff = (hits[i] as i64 - expected as i64).abs();
            assert!(diff * 10 < expected as i64, "cell {} hit {} times", i, hits[i]);
        } else {
            assert_eq!(hits[i], 0);
        }
    }
}

#[test]
fn random_choice_reaches_every_empty_cell() {
    let b = Board::from_cells([X, E, O, E, X, E, O, E, E]);
    let mut hits = [0usize; 9];
    for _ in 0..2000 {
        hits[get_ai_move_random(&b)] += 1;
    }
    for i in [1, 3, 5, 7, 8] {
        assert!(hits[i] > 0);
    }
}
