use vstd::prelude::*;

verus! {

/// Number of cells on the 3x3 board.
pub const CELL_COUNT: usize = 9;

/// One of the two player symbols.
#[derive(Clone, Copy, Debug, PartialEq, Eq, Structural)]
pub enum Mark {
    X,
    O,
}

impl Mark {
    /// The opposing mark.
    pub open spec fn spec_other(self) -> Mark {
        match self {
            Mark::X => Mark::O,
            Mark::O => Mark::X,
        }
    }

    /// The opposing mark.
    pub fn other(self) -> (r: Mark)
        ensures
            r == self.spec_other(),
    {
        match self {
            Mark::X => Mark::O,
            Mark::O => Mark::X,
        }
    }
}

/// The content of one board position.
#[derive(Clone, Copy, Debug, PartialEq, Eq, Structural)]
pub enum Cell {
    Empty,
    Marked(Mark),
}

/// Why a placement was refused: the index is not a board position, or the
/// cell there already holds a mark.
#[derive(Clone, Copy, Debug, PartialEq, Eq)]
pub struct OccupiedOrOutOfRange;

/// True when every cell holds a mark.
pub open spec fn full(cells: Seq<Cell>) -> bool {
    forall|i: int| 0 <= i < cells.len() ==> #[trigger] cells[i] != Cell::Empty
}

/// The number of cells among the first `n` that hold exactly `c`.
pub open spec fn count_prefix(cells: Seq<Cell>, c: Cell, n: int) -> nat
    decreases n,
{
    if n <= 0 {
        0
    } else {
        count_prefix(cells, c, n - 1) + if cells[n - 1] == c {
            1nat
        } else {
            0nat
        }
    }
}

/// The number of cells that hold exactly `c`.
pub open spec fn count_cells(cells: Seq<Cell>, c: Cell) -> nat {
    count_prefix(cells, c, cells.len() as int)
}

/// The number of cells that hold a mark.
pub open spec fn marked_count(cells: Seq<Cell>) -> nat {
    count_cells(cells, Cell::Marked(Mark::X)) + count_cells(cells, Cell::Marked(Mark::O))
}

/// How writing `new` at index `i` changes the number of cells, among the
/// first `n`, that hold `c`.
pub proof fn lemma_count_prefix_update(cells: Seq<Cell>, i: int, new: Cell, c: Cell, n: int)
    requires
        0 <= i < cells.len(),
        0 <= n <= cells.len(),
    ensures
        count_prefix(cells.update(i, new), c, n) as int == count_prefix(cells, c, n) as int - (
        if i < n && cells[i] == c {
            1int
        } else {
            0int
        }) + (if i < n && new == c {
            1int
        } else {
            0int
        }),
    decreases n,
{
    if n > 0 {
        lemma_count_prefix_update(cells, i, new, c, n - 1);
    }
}

/// How writing `new` at index `i` changes the number of cells that hold `c`.
pub proof fn lemma_count_update(cells: Seq<Cell>, i: int, new: Cell, c: Cell)
    requires
        0 <= i < cells.len(),
    ensures
        count_cells(cells.update(i, new), c) as int == count_cells(cells, c) as int - (if cells[i]
            == c {
            1int
        } else {
            0int
        }) + (if new == c {
            1int
        } else {
            0int
        }),
{
    lemma_count_prefix_update(cells, i, new, c, cells.len() as int);
}

/// A 3x3 board, cells indexed 0..9 in row-major order.
#[derive(Clone, Copy, Debug, PartialEq, Eq)]
pub struct Board {
    cells: [Cell; 9],
}

impl View for Board {
    type V = Seq<Cell>;

    closed spec fn view(&self) -> Seq<Cell> {
        self.cells@
    }
}

/// Every board has exactly nine cells.
pub broadcast proof fn lemma_board_len(b: Board)
    ensures
        #[trigger] b@.len() == 9,
{
}

impl Board {
    /// A board with every cell empty.
    pub fn new() -> (b: Board)
        ensures
            b@.len() == 9,
            forall|i: int| 0 <= i < 9 ==> #[trigger] b@[i] == Cell::Empty,
    {
        Board { cells: [Cell::Empty; 9] }
    }

    /// A board holding the given cells.
    pub fn from_cells(cells: [Cell; 9]) -> (b: Board)
        ensures
            b@ == cells@,
    {
        Board { cells }
    }

    /// The board's cells, in index order.
    pub fn cells(&self) -> (r: [Cell; 9])
        ensures
            r@ == self@,
    {
        self.cells
    }

    /// The content of cell `index`.
    pub fn cell_at(&self, index: usize) -> (c: Cell)
        requires
            index < 9,
        ensures
            c == self@[index as int],
    {
        self.cells[index]
    }

    /// True when no cell is empty.
    pub fn is_full(&self) -> (r: bool)
        ensures
            r == full(self@),
    {
        let mut i: usize = 0;
        while i < CELL_COUNT
            invariant
                i <= 9,
                self@.len() == 9,
                forall|j: int| 0 <= j < i ==> #[trigger] self@[j] != Cell::Empty,
            decreases 9 - i,
        {
            if self.cells[i] == Cell::Empty {
                return false;
            }
            i = i + 1;
        }
        true
    }

    /// Puts `mark` on cell `index`, which must be on the board and empty;
    /// otherwise the board is left as it was.
    pub fn place(&mut self, index: usize, mark: Mark) -> (r: Result<(), OccupiedOrOutOfRange>)
        ensures
            r is Ok <==> (index < 9 && old(self)@[index as int] == Cell::Empty),
            r is Ok ==> final(self)@ == old(self)@.update(index as int, Cell::Marked(mark)),
            r is Err ==> *final(self) == *old(self),
    {
        if index >= CELL_COUNT {
            return Err(OccupiedOrOutOfRange);
        }
        if self.cells[index] != Cell::Empty {
            return Err(OccupiedOrOutOfRange);
        }
        self.cells[index] = Cell::Marked(mark);
        Ok(())
    }
}

} // verus!
