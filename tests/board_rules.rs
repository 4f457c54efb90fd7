use tictactoe::{
    check_winner, evaluate, is_draw, line_at, Board, Cell, Line, Mark, OccupiedOrOutOfRange,
    Verdict,
};

const E: Cell = Cell::Empty;
const X: Cell = Cell::Marked(Mark::X);
const O: Cell = Cell::Marked(Mark::O);

#[test]
fn new_board_is_empty_and_not_full() {
    let b = Board::new();
    for i in 0..9 {
        assert_eq!(b.cell_at(i), Cell::Empty);
    }
    assert!(!b.is_full());
    assert_eq!(evaluate(&b), Verdict::Ongoing);
}

#[test]
fn place_marks_an_empty_cell() {
    let mut b = Board::new();
    assert_eq!(b.place(4, Mark::X), Ok(()));
    assert_eq!(b.cell_at(4), X);
    assert_eq!(b.cells(), [E, E, E, E, X, E, E, E, E]);
}

#[test]
fn place_refuses_occupied_cell_and_keeps_board() {
    let mut b = Board::new();
    b.place(2, Mark::O).unwrap();
    let before = b;
    assert_eq!(b.place(2, Mark::X), Err(OccupiedOrOutOfRange));
    assert_eq!(b, before);
    assert_eq!(b.cell_at(2), O);
}

#[test]
fn place_refuses_out_of_range_index() {
    let mut b = Board::new();
    assert_eq!(b.place(9, Mark::X), Err(OccupiedOrOutOfRange));
    assert_eq!(b.place(usize::MAX, Mark::O), Err(OccupiedOrOutOfRange));
    assert_eq!(b, Board::new());
}

#[test]
fn lines_follow_rows_columns_diagonals() {
    let expected = [
        [0, 1, 2],
        [3, 4, 5],
        [6, 7, 8],
        [0, 3, 6],
        [1, 4, 7],
        [2, 5, 8],
        [0, 4, 8],
        [2, 4, 6],
    ];
    for (k, e) in expected.iter().enumerate() {
        assert_eq!(line_at(k).indices(), *e);
    }
}

#[test]
fn each_line_filled_by_one_mark_wins() {
    for k in 0..8 {
        let l = line_at(k);
        let mut cells = [E; 9];
        cells[l.a] = O;
        cells[l.b] = O;
        cells[l.c] = O;
        let b = Board::from_cells(cells);
        assert_eq!(check_winner(&b), Some((Mark::O, l)));
        assert_eq!(evaluate(&b), Verdict::Win(Mark::O, l));
    }
}

#[test]
fn mixed_line_does_not_win() {
    let b = Board::from_cells([X, X, O, E, E, E, E, E, E]);
    assert_eq!(check_winner(&b), None);
    assert_eq!(evaluate(&b), Verdict::Ongoing);
}

#[test]
fn first_line_in_order_wins_ties() {
    // Row 0 and column 0 are both filled with X; the row comes first.
    let b = Board::from_cells([X, X, X, X, O, O, X, O, O]);
    assert_eq!(evaluate(&b), Verdict::Win(Mark::X, Line::new(0, 1, 2)));
    // Column 2 and the anti-diagonal are both filled with O.
    let b = Board::from_cells([X, X, O, X, O, O, O, X, O]);
    assert_eq!(evaluate(&b), Verdict::Win(Mark::O, Line::new(2, 5, 8)));
}

#[test]
fn full_board_without_line_is_draw() {
    let b = Board::from_cells([X, O, X, X, O, O, O, X, X]);
    assert!(b.is_full());
    assert_eq!(check_winner(&b), None);
    assert_eq!(evaluate(&b), Verdict::Draw);
    assert!(is_draw(&b));
}

#[test]
fn full_board_with_line_is_full_and_a_win() {
    let b = Board::from_cells([X, X, X, O, O, X, X, O, O]);
    assert!(b.is_full());
    assert_eq!(evaluate(&b), Verdict::Win(Mark::X, Line::new(0, 1, 2)));
    assert!(is_draw(&b));
}

#[test]
fn board_with_empty_cell_is_never_draw() {
    let b = Board::from_cells([X, O, X, X, O, O, O, X, E]);
    assert!(!b.is_full());
    assert_eq!(evaluate(&b), Verdict::Ongoing);
    assert!(!is_draw(&b));
}

#[test]
fn other_mark_swaps() {
    assert_eq!(Mark::X.other(), Mark::O);
    assert_eq!(Mark::O.other(), Mark::X);
}
