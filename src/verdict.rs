use vstd::prelude::*;

use crate::board::{Board, Cell, Mark, full, lemma_board_len};

verus! {

broadcast use lemma_board_len;

/// Number of winning lines: three rows, three columns, two diagonals.
pub const LINE_COUNT: usize = 8;

/// Three board indices that win when they hold the same mark.
#[derive(Clone, Copy, Debug, PartialEq, Eq, Structural)]
pub struct Line {
    pub a: usize,
    pub b: usize,
    pub c: usize,
}

impl Line {
    /// The line through `a`, `b` and `c`.
    pub fn new(a: usize, b: usize, c: usize) -> (l: Line)
        ensures
            l == (Line { a, b, c }),
    {
        Line { a, b, c }
    }

    /// The three indices, in order.
    pub fn indices(&self) -> (r: [usize; 3])
        ensures
            r@ == seq![self.a, self.b, self.c],
    {
        let r = [self.a, self.b, self.c];
        assert(r@ =~= seq![self.a, self.b, self.c]);
        r
    }
}

/// The `k`-th line in the fixed order: rows, then columns, then diagonals.
pub open spec fn line_spec(k: int) -> Line {
    if k == 0 {
        Line { a: 0, b: 1, c: 2 }
    } else if k == 1 {
        Line { a: 3, b: 4, c: 5 }
    } else if k == 2 {
        Line { a: 6, b: 7, c: 8 }
    } else if k == 3 {
        Line { a: 0, b: 3, c: 6 }
    } else if k == 4 {
        Line { a: 1, b: 4, c: 7 }
    } else if k == 5 {
        Line { a: 2, b: 5, c: 8 }
    } else if k == 6 {
        Line { a: 0, b: 4, c: 8 }
    } else {
        Line { a: 2, b: 4, c: 6 }
    }
}

/// The `k`-th line in the fixed order.
pub fn line_at(k: usize) -> (l: Line)
    requires
        k < 8,
    ensures
        l == line_spec(k as int),
        l.a < 9 && l.b < 9 && l.c < 9,
{
    match k {
        0 => Line { a: 0, b: 1, c: 2 },
        1 => Line { a: 3, b: 4, c: 5 },
        2 => Line { a: 6, b: 7, c: 8 },
        3 => Line { a: 0, b: 3, c: 6 },
        4 => Line { a: 1, b: 4, c: 7 },
        5 => Line { a: 2, b: 5, c: 8 },
        6 => Line { a: 0, b: 4, c: 8 },
        _ => Line { a: 2, b: 4, c: 6 },
    }
}

/// The outcome of evaluating a board.
#[derive(Clone, Copy, Debug, PartialEq, Eq, Structural)]
pub enum Verdict {
    Ongoing,
    Win(Mark, Line),
    Draw,
}

/// The mark that fills all three cells of `l`, if one does.
pub open spec fn line_winner(cells: Seq<Cell>, l: Line) -> Option<Mark> {
    match cells[l.a as int] {
        Cell::Marked(m) => if cells[l.b as int] == Cell::Marked(m) && cells[l.c as int]
            == Cell::Marked(m) {
            Some(m)
        } else {
            None
        },
        Cell::Empty => None,
    }
}

/// The first line, from the `k`-th on in the fixed order, that one mark fills.
pub open spec fn first_win_from(cells: Seq<Cell>, k: int) -> Option<(Mark, Line)>
    decreases 8 - k,
{
    if k < 0 || k >= 8 {
        None
    } else {
        match line_winner(cells, line_spec(k)) {
            Some(m) => Some((m, line_spec(k))),
            None => first_win_from(cells, k + 1),
        }
    }
}

/// The first line in the fixed order that one mark fills, with that mark.
pub open spec fn winning_line(cells: Seq<Cell>) -> Option<(Mark, Line)> {
    first_win_from(cells, 0)
}

/// The verdict on a board: the first filled line wins; else a full board is
/// a draw; else play goes on.
pub open spec fn verdict_of(cells: Seq<Cell>) -> Verdict {
    match winning_line(cells) {
        Some((m, l)) => Verdict::Win(m, l),
        None => if full(cells) {
            Verdict::Draw
        } else {
            Verdict::Ongoing
        },
    }
}

/// Whether one mark fills all three cells of `l`.
fn line_winner_exec(board: &Board, l: Line) -> (r: Option<Mark>)
    requires
        l.a < 9 && l.b < 9 && l.c < 9,
    ensures
        r == line_winner(board@, l),
{
    match board.cell_at(l.a) {
        Cell::Marked(m) => {
            if board.cell_at(l.b) == Cell::Marked(m) && board.cell_at(l.c) == Cell::Marked(m) {
                Some(m)
            } else {
                None
            }
        },
        Cell::Empty => None,
    }
}

/// The first line in the fixed order that one mark fills, with that mark.
pub fn check_winner(board: &Board) -> (r: Option<(Mark, Line)>)
    ensures
        r == winning_line(board@),
{
    let mut k: usize = 0;
    while k < LINE_COUNT
        invariant
            k <= 8,
            first_win_from(board@, 0) == first_win_from(board@, k as int),
        decreases 8 - k,
    {
        let l = line_at(k);
        if let Some(m) = line_winner_exec(board, l) {
            return Some((m, l));
        }
        k = k + 1;
    }
    None
}

/// The verdict on `board`, derived from its cells alone.
pub fn evaluate(board: &Board) -> (v: Verdict)
    ensures
        v == verdict_of(board@),
{
    match check_winner(board) {
        Some((m, l)) => Verdict::Win(m, l),
        None => if board.is_full() {
            Verdict::Draw
        } else {
            Verdict::Ongoing
        },
    }
}

/// True when no cell is empty: the board can take no further move. Whether
/// that is a draw or a win is for `evaluate` to say.
pub fn is_draw(board: &Board) -> (r: bool)
    ensures
        r == full(board@),
{
    board.is_full()
}

/// No line from the `k`-th on is filled when the search from `k` finds none.
pub proof fn lemma_no_win_from(cells: Seq<Cell>, k: int)
    requires
        0 <= k <= 8,
        first_win_from(cells, k) is None,
    ensures
        forall|j: int| k <= j < 8 ==> (#[trigger] line_winner(cells, line_spec(j))) is None,
    decreases 8 - k,
{
    if k < 8 {
        lemma_no_win_from(cells, k + 1);
    }
}

/// A board with every cell empty has no filled line from the `k`-th on.
pub proof fn lemma_no_win_on_empty_board(cells: Seq<Cell>, k: int)
    requires
        cells.len() == 9,
        forall|i: int| 0 <= i < 9 ==> #[trigger] cells[i] == Cell::Empty,
    ensures
        first_win_from(cells, k) is None,
    decreases 8 - k,
{
    if 0 <= k < 8 {
        let l = line_spec(k);
        assert(cells[l.a as int] == Cell::Empty);
        lemma_no_win_on_empty_board(cells, k + 1);
    }
}

/// A board is judged a draw only when it is full and no line is filled by a
/// single mark.
pub proof fn lemma_draw_only_when_full_without_winner(b: Board)
    ensures
        verdict_of(b@) is Draw ==> full(b@) && forall|k: int|
            0 <= k < 8 ==> (#[trigger] line_winner(b@, line_spec(k))) is None,
{
    if verdict_of(b@) is Draw {
        lemma_no_win_from(b@, 0);
    }
}

} // verus!
