use vstd::prelude::*;

use rand::seq::IteratorRandom;

use crate::board::{Board, Cell, Mark, full, lemma_board_len};
use crate::verdict::{LINE_COUNT, Line, line_at, line_spec};

verus! {

broadcast use lemma_board_len;

/// How the computer opponent picks its moves.
#[derive(Clone, Copy, Debug, PartialEq, Eq, Structural)]
pub enum Difficulty {
    /// Any empty cell, uniformly at random.
    Easy,
    /// Take an immediate win, else block one, else as `Easy`.
    Hard,
}

/// The three indices of `l`, in order.
pub open spec fn line_cells(l: Line) -> Seq<usize> {
    seq![l.a, l.b, l.c]
}

/// Position `j` of `l` is empty and the other two hold `m`.
pub open spec fn completes_at(cells: Seq<Cell>, l: Line, m: Mark, j: int) -> bool {
    &&& 0 <= j < 3
    &&& cells[line_cells(l)[j] as int] == Cell::Empty
    &&& forall|k: int|
        0 <= k < 3 && k != j ==> cells[#[trigger] line_cells(l)[k] as int] == Cell::Marked(m)
}

/// The cell that completes `l` for `m`: two of the line's cells hold `m`,
/// the third is empty, and the result is that empty cell.
pub open spec fn completion(cells: Seq<Cell>, l: Line, m: Mark) -> Option<usize> {
    if exists|j: int| completes_at(cells, l, m, j) {
        Some(line_cells(l)[choose|j: int| completes_at(cells, l, m, j)])
    } else {
        None
    }
}

/// At most one position of a line can be the one that completes it.
proof fn lemma_completes_at_unique(cells: Seq<Cell>, l: Line, m: Mark, j: int, k: int)
    requires
        completes_at(cells, l, m, j),
        completes_at(cells, l, m, k),
    ensures
        j == k,
{
    if j != k {
        assert(cells[line_cells(l)[k] as int] == Cell::Marked(m));
    }
}

/// The completing cell of the first line, from the `k`-th on in the fixed
/// order, that `m` can complete.
pub open spec fn first_completion_from(cells: Seq<Cell>, m: Mark, k: int) -> Option<usize>
    decreases 8 - k,
{
    if k < 0 || k >= 8 {
        None
    } else {
        match completion(cells, line_spec(k), m) {
            Some(i) => Some(i),
            None => first_completion_from(cells, m, k + 1),
        }
    }
}

/// The cell that completes the first line in the fixed order that `m` can
/// complete with one more mark.
pub open spec fn first_completion(cells: Seq<Cell>, m: Mark) -> Option<usize> {
    first_completion_from(cells, m, 0)
}

/// The one-move tactic for the player of `own`: its own winning cell if it
/// has one, else the cell that blocks the opponent's win, if there is one.
pub open spec fn tactical_spec(cells: Seq<Cell>, own: Mark) -> Option<usize> {
    match first_completion(cells, own) {
        Some(i) => Some(i),
        None => first_completion(cells, own.spec_other()),
    }
}

/// The empty cells with index `i` or more, in increasing order.
pub open spec fn empty_cells_from(cells: Seq<Cell>, i: int) -> Seq<usize>
    decreases cells.len() - i,
{
    if i < 0 || i >= cells.len() {
        Seq::empty()
    } else if cells[i] == Cell::Empty {
        seq![i as usize] + empty_cells_from(cells, i + 1)
    } else {
        empty_cells_from(cells, i + 1)
    }
}

/// The empty cells, in increasing order.
pub open spec fn empty_cells(cells: Seq<Cell>) -> Seq<usize> {
    empty_cells_from(cells, 0)
}

/// The cell that completes `l` for `m`, if there is one.
fn completion_exec(board: &Board, l: Line, m: Mark) -> (r: Option<usize>)
    requires
        l.a < 9 && l.b < 9 && l.c < 9,
    ensures
        r == completion(board@, l, m),
        r matches Some(i) ==> i < 9 && board@[i as int] == Cell::Empty,
{
    let mk = Cell::Marked(m);
    let x = board.cell_at(l.a);
    let y = board.cell_at(l.b);
    let z = board.cell_at(l.c);
    let ghost cells = board@;
    let ghost idx = line_cells(l);
    proof {
        assert(idx[0] == l.a && idx[1] == l.b && idx[2] == l.c);
        assert forall|j: int| completes_at(cells, l, m, j) implies (j == 0 && x == Cell::Empty
            && y == mk && z == mk) || (j == 1 && x == mk && y == Cell::Empty && z == mk) || (j
            == 2 && x == mk && y == mk && z == Cell::Empty) by {
            assert(cells[idx[0] as int] == x && cells[idx[1] as int] == y && cells[idx[2] as int]
                == z);
        }
    }
    if x == mk && y == mk && z == Cell::Empty {
        proof {
            assert(completes_at(cells, l, m, 2));
            let j = choose|j: int| completes_at(cells, l, m, j);
            lemma_completes_at_unique(cells, l, m, j, 2);
        }
        Some(l.c)
    } else if x == mk && y == Cell::Empty && z == mk {
        proof {
            assert(completes_at(cells, l, m, 1));
            let j = choose|j: int| completes_at(cells, l, m, j);
            lemma_completes_at_unique(cells, l, m, j, 1);
        }
        Some(l.b)
    } else if x == Cell::Empty && y == mk && z == mk {
        proof {
            assert(completes_at(cells, l, m, 0));
            let j = choose|j: int| completes_at(cells, l, m, j);
            lemma_completes_at_unique(cells, l, m, j, 0);
        }
        Some(l.a)
    } else {
        None
    }
}

/// The cell where `m` would complete a line, taking the lines in the fixed
/// order, if there is one.
pub fn winning_move(board: &Board, m: Mark) -> (r: Option<usize>)
    ensures
        r == first_completion(board@, m),
        r matches Some(i) ==> i < 9 && board@[i as int] == Cell::Empty,
{
    let mut k: usize = 0;
    while k < LINE_COUNT
        invariant
            k <= 8,
            first_completion_from(board@, m, 0) == first_completion_from(board@, m, k as int),
        decreases 8 - k,
    {
        let l = line_at(k);
        if let Some(i) = completion_exec(board, l, m) {
            return Some(i);
        }
        k = k + 1;
    }
    None
}

/// The one-move tactic for `own`: win now if possible, else block the
/// opponent's immediate win, else nothing.
pub fn tactical_move(board: &Board, own: Mark) -> (r: Option<usize>)
    ensures
        r == tactical_spec(board@, own),
        r matches Some(i) ==> i < 9 && board@[i as int] == Cell::Empty,
{
    match winning_move(board, own) {
        Some(i) => Some(i),
        None => winning_move(board, own.other()),
    }
}

/// What the enumeration of empty cells from `i` on holds: exactly the empty
/// cells at `i` or after, in strictly increasing order.
pub proof fn lemma_empty_cells_from(cells: Seq<Cell>, i: int)
    requires
        0 <= i <= cells.len(),
        cells.len() <= usize::MAX,
    ensures
        forall|x: usize| #[trigger]
            empty_cells_from(cells, i).contains(x) <==> (i <= x < cells.len() && cells[x as int]
                == Cell::Empty),
        forall|j: int, l: int|
            0 <= j < l < empty_cells_from(cells, i).len() ==> #[trigger] empty_cells_from(
                cells,
                i,
            )[j] < #[trigger] empty_cells_from(cells, i)[l],
    decreases cells.len() - i,
{
    if i < cells.len() {
        lemma_empty_cells_from(cells, i + 1);
        let rest = empty_cells_from(cells, i + 1);
        if cells[i] == Cell::Empty {
            let s = seq![i as usize] + rest;
            assert(empty_cells_from(cells, i) == s);
            assert forall|x: usize| #[trigger] s.contains(x) <==> (i <= x < cells.len()
                && cells[x as int] == Cell::Empty) by {
                if s.contains(x) {
                    let j = choose|j: int| 0 <= j < s.len() && s[j] == x;
                    if j > 0 {
                        assert(rest[j - 1] == x);
                        assert(rest.contains(x));
                    }
                }
                if i <= x < cells.len() && cells[x as int] == Cell::Empty {
                    if x == i {
                        assert(s[0] == x);
                    } else {
                        assert(rest.contains(x));
                        let j = choose|j: int| 0 <= j < rest.len() && rest[j] == x;
                        assert(s[j + 1] == x);
                    }
                }
            }
            assert forall|j: int, l: int| 0 <= j < l < s.len() implies #[trigger] s[j]
                < #[trigger] s[l] by {
                assert(rest.contains(s[l]));
                if j > 0 {
                    assert(s[j] == rest[j - 1]);
                    assert(s[l] == rest[l - 1]);
                }
            }
        }
    }
}

/// The empty cells are enumerated once each, and nothing else is: a draw
/// uniform over `0..empty_cells(b@).len()`, mapped through the enumeration,
/// picks every empty cell with the same probability.
pub proof fn lemma_empty_cells_enumerate_each_once(b: Board)
    ensures
        empty_cells(b@).no_duplicates(),
        forall|x: usize| #[trigger]
            empty_cells(b@).contains(x) <==> (x < 9 && b@[x as int] == Cell::Empty),
        full(b@) <==> empty_cells(b@).len() == 0,
{
    lemma_empty_cells_from(b@, 0);
    let s = empty_cells(b@);
    assert forall|j: int, l: int| 0 <= j < s.len() && 0 <= l < s.len() && j != l implies s[j]
        != s[l] by {
        if j < l {
            assert(s[j] < s[l]);
        } else {
            assert(s[l] < s[j]);
        }
    }
    if !full(b@) {
        let i = choose|i: int| 0 <= i < 9 && b@[i] == Cell::Empty;
        assert(s.contains(i as usize));
    }
    if s.len() > 0 {
        assert(s.contains(s[0]));
    }
}

/// The number of empty cells.
pub fn empty_count(board: &Board) -> (n: usize)
    ensures
        n == empty_cells(board@).len(),
{
    let mut n: usize = 0;
    let mut i: usize = 9;
    while i > 0
        invariant
            i <= 9,
            n <= 9 - i,
            n == empty_cells_from(board@, i as int).len(),
        decreases i,
    {
        i = i - 1;
        assert(empty_cells_from(board@, i as int).len() == empty_cells_from(board@, i + 1).len()
            + if board@[i as int] == Cell::Empty {
            1int
        } else {
            0int
        });
        if board.cell_at(i) == Cell::Empty {
            n = n + 1;
        }
    }
    n
}

/// The `k`-th empty cell in increasing order of index.
pub fn nth_empty_cell(board: &Board, k: usize) -> (r: usize)
    requires
        k < empty_cells(board@).len(),
    ensures
        r == empty_cells(board@)[k as int],
        r < 9 && board@[r as int] == Cell::Empty,
{
    proof {
        lemma_empty_cells_enumerate_each_once(*board);
        assert(empty_cells(board@).contains(empty_cells(board@)[k as int]));
    }
    let mut seen: usize = 0;
    let mut i: usize = 0;
    while i < 9
        invariant
            i <= 9,
            seen <= k,
            k < empty_cells(board@).len(),
            empty_cells(board@).skip(seen as int) == empty_cells_from(board@, i as int),
        decreases 9 - i,
    {
        if board.cell_at(i) == Cell::Empty {
            let ghost rest = empty_cells_from(board@, i + 1);
            assert(empty_cells_from(board@, i as int) == seq![i] + rest);
            if seen == k {
                assert(empty_cells(board@).skip(seen as int)[0] == i);
                return i;
            }
            assert(empty_cells(board@).skip(seen + 1) =~= (seq![i] + rest).skip(1));
            assert((seq![i] + rest).skip(1) =~= rest);
            seen = seen + 1;
        }
        i = i + 1;
    }
    assert(empty_cells(board@).skip(seen as int).len() == 0);
    0
}

/// A number drawn uniformly from `0..n`, or `None` when `n` is zero.
///
/// Relies on rand's `IteratorRandom::choose` over the range `0..n` with the
/// thread-local generator `rand::thread_rng`: for an iterator of exact size it
/// returns `None` when the size is zero and otherwise one of its items.
/// rand panics if the operating system's random source fails when the
/// generator is first seeded or reseeded; no argument causes or prevents that.
#[verifier::external_body]
fn draw_below(n: usize) -> (r: Option<usize>)
    ensures
        r is None <==> n == 0,
        r matches Some(k) ==> k < n,
{
    (0..n).choose(&mut rand::thread_rng())
}

/// An empty cell chosen uniformly at random.
pub fn get_ai_move_random(board: &Board) -> (r: usize)
    requires
        !full(board@),
    ensures
        r < 9 && board@[r as int] == Cell::Empty,
{
    proof {
        lemma_empty_cells_enumerate_each_once(*board);
    }
    let n = empty_count(board);
    match draw_below(n) {
        Some(k) => nth_empty_cell(board, k),
        None => 0,
    }
}

/// The greedy opponent: its own winning cell in the fixed line order if it
/// has one, else the cell that blocks the opponent's first winning line,
/// else a random empty cell.
pub fn get_ai_move_blocking(board: &Board, own: Mark) -> (r: usize)
    requires
        !full(board@),
    ensures
        r < 9 && board@[r as int] == Cell::Empty,
        tactical_spec(board@, own) matches Some(i) ==> r == i,
{
    match tactical_move(board, own) {
        Some(i) => i,
        None => get_ai_move_random(board),
    }
}

/// The computer's move for the player of `own` at the given difficulty.
pub fn choose_move(board: &Board, own: Mark, difficulty: Difficulty) -> (r: usize)
    requires
        !full(board@),
    ensures
        r < 9 && board@[r as int] == Cell::Empty,
        difficulty == Difficulty::Hard ==> (tactical_spec(board@, own) matches Some(i) ==> r
            == i),
{
    match difficulty {
        Difficulty::Easy => get_ai_move_random(board),
        Difficulty::Hard => get_ai_move_blocking(board, own),
    }
}

} // verus!
