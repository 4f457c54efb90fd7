use vstd::prelude::*;

use crate::board::{
    Board,
    CELL_COUNT,
    Cell,
    Mark,
    count_cells,
    count_prefix,
    lemma_board_len,
    lemma_count_update,
    marked_count,
};
use crate::strategy::{Difficulty, choose_move, tactical_spec};
use crate::verdict::{Verdict, evaluate, lemma_no_win_on_empty_board, verdict_of};

verus! {

broadcast use lemma_board_len;

/// Who supplies the moves of a match.
#[derive(Clone, Copy, Debug, PartialEq, Eq, Structural)]
pub enum GameMode {
    /// Both marks are played by people.
    TwoHuman,
    /// One mark is played by the computer at the given difficulty; the
    /// flag says whether the person moves first (and so plays `X`).
    HumanVsComputer(Difficulty, bool),
}

/// The mark the person plays against the computer: `X` when moving first.
pub open spec fn human_mark_spec(human_first: bool) -> Mark {
    if human_first {
        Mark::X
    } else {
        Mark::O
    }
}

/// Whether a person supplies the move for `current`.
pub open spec fn is_human_turn_spec(mode: GameMode, current: Mark) -> bool {
    match mode {
        GameMode::TwoHuman => true,
        GameMode::HumanVsComputer(_, human_first) => current == human_mark_spec(human_first),
    }
}

/// Whether a person, rather than the computer, supplies the move for
/// `current` in `mode`.
pub fn is_human_turn(mode: GameMode, current: Mark) -> (r: bool)
    ensures
        r == is_human_turn_spec(mode, current),
{
    match mode {
        GameMode::TwoHuman => true,
        GameMode::HumanVsComputer(_, human_first) => {
            if human_first {
                current == Mark::X
            } else {
                current == Mark::O
            }
        },
    }
}

/// The mark that moves after `current`.
pub fn switch_player(current: Mark) -> (r: Mark)
    ensures
        r == current.spec_other(),
{
    current.other()
}

/// Where a match stands.
#[derive(Clone, Copy, Debug, PartialEq, Eq, Structural)]
pub enum MatchState {
    /// The given mark moves next.
    AwaitingMove(Mark),
    /// The match is over with the given verdict.
    Finished(Verdict),
}

/// What an accepted move led to.
#[derive(Clone, Copy, Debug, PartialEq, Eq, Structural)]
pub enum TurnOutcome {
    /// The match goes on; the given mark moves next.
    Continued(Mark),
    /// The move ended the match with the given verdict.
    Ended(Verdict),
}

/// Why a move was refused. The match is left as it was.
#[derive(Clone, Copy, Debug, PartialEq, Eq, Structural)]
pub enum InvalidMove {
    /// The index is not a board position.
    OutOfRange,
    /// The cell already holds a mark.
    Occupied,
    /// The match is already over.
    MatchFinished,
}

/// With `active` to move, `X` has moved once more than `O` exactly when
/// `O` is to move, and as often otherwise.
pub open spec fn turn_consistent(cells: Seq<Cell>, active: Mark) -> bool {
    count_cells(cells, Cell::Marked(Mark::X)) == count_cells(cells, Cell::Marked(Mark::O)) + if active
        == Mark::O {
        1nat
    } else {
        0nat
    }
}

/// Whether a match with these cells and this state accepts a move on `index`.
pub open spec fn accepts(cells: Seq<Cell>, state: MatchState, index: usize) -> bool {
    state is AwaitingMove && index < 9 && cells[index as int] == Cell::Empty
}

/// The cells and state after a move on `index`: a refused move changes
/// nothing; an accepted one puts the active mark there and then either ends
/// the match with the board's verdict or hands the turn to the other mark.
pub open spec fn apply_move(cells: Seq<Cell>, state: MatchState, index: usize) -> (Seq<
    Cell,
>, MatchState) {
    match state {
        MatchState::AwaitingMove(m) => if accepts(cells, state, index) {
            let next = cells.update(index as int, Cell::Marked(m));
            let v = verdict_of(next);
            (next, if v == Verdict::Ongoing {
                MatchState::AwaitingMove(m.spec_other())
            } else {
                MatchState::Finished(v)
            })
        } else {
            (cells, state)
        },
        MatchState::Finished(_) => (cells, state),
    }
}

/// The cells and state after submitting `moves` in order.
pub open spec fn play(cells: Seq<Cell>, state: MatchState, moves: Seq<usize>) -> (Seq<
    Cell,
>, MatchState)
    decreases moves.len(),
{
    if moves.len() == 0 {
        (cells, state)
    } else {
        let before = play(cells, state, moves.drop_last());
        apply_move(before.0, before.1, moves.last())
    }
}

/// The cells of a new match: all empty.
pub open spec fn empty_cells_seq() -> Seq<Cell> {
    Seq::new(9, |i: int| Cell::Empty)
}

/// The mark that makes the `k`-th move of a match (counting from 0).
pub open spec fn mark_of_move(k: int) -> Mark {
    if k % 2 == 0 {
        Mark::X
    } else {
        Mark::O
    }
}

/// Every move of `moves` is accepted in the state it meets.
pub open spec fn all_accepted(cells: Seq<Cell>, state: MatchState, moves: Seq<usize>) -> bool {
    forall|k: int|
        0 <= k < moves.len() ==> {
            let before = #[trigger] play(cells, state, moves.take(k));
            accepts(before.0, before.1, moves[k])
        }
}

/// Refused moves never change a match: when the match accepts none of
/// `moves` in its present state, submitting all of them leaves its cells and
/// state as they were.
pub proof fn lemma_refused_moves_change_nothing(
    cells: Seq<Cell>,
    state: MatchState,
    moves: Seq<usize>,
)
    requires
        forall|k: int| 0 <= k < moves.len() ==> !accepts(cells, state, #[trigger] moves[k]),
    ensures
        play(cells, state, moves) == (cells, state),
    decreases moves.len(),
{
    if moves.len() > 0 {
        let rest = moves.drop_last();
        assert forall|k: int| 0 <= k < rest.len() implies !accepts(cells, state, #[trigger] rest[k]) by {
            assert(rest[k] == moves[k]);
        }
        lemma_refused_moves_change_nothing(cells, state, rest);
        assert(!accepts(cells, state, moves[moves.len() - 1]));
    }
}

/// Submitting moves never changes the number of cells.
proof fn lemma_play_keeps_len(cells: Seq<Cell>, state: MatchState, moves: Seq<usize>)
    requires
        cells.len() == 9,
    ensures
        play(cells, state, moves).0.len() == cells.len(),
    decreases moves.len(),
{
    if moves.len() > 0 {
        lemma_play_keeps_len(cells, state, moves.drop_last());
    }
}

/// Turns alternate from `X`: in a new match where every move of `moves` is
/// accepted, the `k`-th move is made by `X` when `k` is even and by `O` when
/// it is odd, and the mark it puts down stays on its cell after the next
/// move.
pub proof fn lemma_accepted_moves_alternate(moves: Seq<usize>, k: int)
    requires
        all_accepted(empty_cells_seq(), MatchState::AwaitingMove(Mark::X), moves),
        0 <= k < moves.len(),
    ensures
        play(empty_cells_seq(), MatchState::AwaitingMove(Mark::X), moves.take(k)).1
            == MatchState::AwaitingMove(mark_of_move(k)),
        play(empty_cells_seq(), MatchState::AwaitingMove(Mark::X), moves.take(k + 1)).0[moves[k] as int]
            == Cell::Marked(mark_of_move(k)),
    decreases k,
{
    let start = empty_cells_seq();
    let s0 = MatchState::AwaitingMove(Mark::X);
    let before = play(start, s0, moves.take(k));
    assert(accepts(before.0, before.1, moves[k]));
    if k == 0 {
        assert(moves.take(0) =~= Seq::<usize>::empty());
    } else {
        lemma_accepted_moves_alternate(moves, k - 1);
        let prev = play(start, s0, moves.take(k - 1));
        assert(moves.take(k).drop_last() =~= moves.take(k - 1));
        assert(moves.take(k).last() == moves[k - 1]);
        assert(accepts(prev.0, prev.1, moves[k - 1]));
    }
    assert(moves.take(k + 1).drop_last() =~= moves.take(k));
    assert(moves.take(k + 1).last() == moves[k]);
    lemma_play_keeps_len(start, s0, moves.take(k));
}

/// One match: its board, whose turn it is or how it ended, and who plays.
#[derive(Clone, Copy, Debug)]
pub struct TurnController {
    board: Board,
    state: MatchState,
    mode: GameMode,
}

/// A new match: an empty board with `X` to move.
pub fn new_match(mode: GameMode) -> (c: TurnController)
    ensures
        c.wf(),
        forall|i: int| 0 <= i < 9 ==> #[trigger] c.spec_board()[i] == Cell::Empty,
        c.spec_state() == MatchState::AwaitingMove(Mark::X),
        c.spec_mode() == mode,
{
    let c = TurnController { board: Board::new(), state: MatchState::AwaitingMove(Mark::X), mode };
    proof {
        let cells = c.board@;
        assert(cells.len() == 9);
        lemma_count_prefix_empty(cells, Cell::Marked(Mark::X), 9);
        lemma_count_prefix_empty(cells, Cell::Marked(Mark::O), 9);
        assert(cells[0] == Cell::Empty);
        lemma_no_win_on_empty_board(cells, 0);
    }
    c
}

/// No cell among the first `n` holds `c` when all of them are empty.
proof fn lemma_count_prefix_empty(cells: Seq<Cell>, c: Cell, n: int)
    requires
        0 <= n <= cells.len(),
        c != Cell::Empty,
        forall|i: int| 0 <= i < n ==> #[trigger] cells[i] == Cell::Empty,
    ensures
        count_prefix(cells, c, n) == 0,
    decreases n,
{
    if n > 0 {
        lemma_count_prefix_empty(cells, c, n - 1);
    }
}

impl TurnController {
    /// The cells of the match's board.
    pub closed spec fn spec_board(&self) -> Seq<Cell> {
        self.board@
    }

    /// Whose turn it is, or how the match ended.
    pub closed spec fn spec_state(&self) -> MatchState {
        self.state
    }

    /// Who plays the match.
    pub closed spec fn spec_mode(&self) -> GameMode {
        self.mode
    }

    /// A waiting match has no verdict yet and a turn count that fits the
    /// mark to move; a finished one holds the verdict of its board.
    pub open spec fn wf(&self) -> bool {
        &&& self.spec_board().len() == 9
        &&& match self.spec_state() {
            MatchState::AwaitingMove(m) => verdict_of(self.spec_board()) == Verdict::Ongoing
                && turn_consistent(self.spec_board(), m),
            MatchState::Finished(v) => v == verdict_of(self.spec_board()) && v != Verdict::Ongoing,
        }
    }

    /// The match's board.
    pub fn board(&self) -> (b: &Board)
        ensures
            b@ == self.spec_board(),
    {
        &self.board
    }

    /// Whose turn it is, or how the match ended.
    pub fn state(&self) -> (s: MatchState)
        ensures
            s == self.spec_state(),
    {
        self.state
    }

    /// Who plays the match.
    pub fn mode(&self) -> (m: GameMode)
        ensures
            m == self.spec_mode(),
    {
        self.mode
    }

    /// The mark to move, or `None` once the match is over.
    pub fn active_mark(&self) -> (r: Option<Mark>)
        ensures
            r == (match self.spec_state() {
                MatchState::AwaitingMove(m) => Some(m),
                MatchState::Finished(_) => None,
            }),
    {
        match self.state {
            MatchState::AwaitingMove(m) => Some(m),
            MatchState::Finished(_) => None,
        }
    }

    /// Plays the active mark on cell `index`. A move off the board, onto a
    /// marked cell or after the end is refused and changes nothing. An
    /// accepted move either ends the match with the board's verdict or hands
    /// the turn to the other mark.
    pub fn submit_move(&mut self, index: usize) -> (r: Result<TurnOutcome, InvalidMove>)
        requires
            old(self).wf(),
        ensures
            final(self).wf(),
            final(self).spec_mode() == old(self).spec_mode(),
            (final(self).spec_board(), final(self).spec_state()) == apply_move(
                old(self).spec_board(),
                old(self).spec_state(),
                index,
            ),
            r is Ok <==> (old(self).spec_state() is AwaitingMove && index < 9 && old(
                self,
            ).spec_board()[index as int] == Cell::Empty),
            (r == Err::<TurnOutcome, InvalidMove>(InvalidMove::MatchFinished)) <==> old(
                self,
            ).spec_state() is Finished,
            (r == Err::<TurnOutcome, InvalidMove>(InvalidMove::OutOfRange)) <==> (old(
                self,
            ).spec_state() is AwaitingMove && index >= 9),
            (r == Err::<TurnOutcome, InvalidMove>(InvalidMove::Occupied)) <==> (old(
                self,
            ).spec_state() is AwaitingMove && index < 9 && old(self).spec_board()[index as int]
                != Cell::Empty),
            r is Err ==> *final(self) == *old(self),
            r is Ok ==> (old(self).spec_state() matches MatchState::AwaitingMove(m) && {
                let cells = old(self).spec_board().update(index as int, Cell::Marked(m));
                let v = verdict_of(cells);
                &&& final(self).spec_board() == cells
                &&& v == Verdict::Ongoing ==> r == Ok::<TurnOutcome, InvalidMove>(
                    TurnOutcome::Continued(m.spec_other()),
                ) && final(self).spec_state() == MatchState::AwaitingMove(m.spec_other())
                &&& v != Verdict::Ongoing ==> r == Ok::<TurnOutcome, InvalidMove>(
                    TurnOutcome::Ended(v),
                ) && final(self).spec_state() == MatchState::Finished(v)
            }),
    {
        let m = match self.state {
            MatchState::Finished(_) => {
                return Err(InvalidMove::MatchFinished);
            },
            MatchState::AwaitingMove(m) => m,
        };
        if index >= CELL_COUNT {
            return Err(InvalidMove::OutOfRange);
        }
        if self.board.cell_at(index) != Cell::Empty {
            return Err(InvalidMove::Occupied);
        }
        let ghost before = self.board@;
        let _ = self.board.place(index, m);
        proof {
            lemma_count_update(before, index as int, Cell::Marked(m), Cell::Marked(Mark::X));
            lemma_count_update(before, index as int, Cell::Marked(m), Cell::Marked(Mark::O));
        }
        let v = evaluate(&self.board);
        match v {
            Verdict::Ongoing => {
                let next = m.other();
                self.state = MatchState::AwaitingMove(next);
                Ok(TurnOutcome::Continued(next))
            },
            _ => {
                self.state = MatchState::Finished(v);
                Ok(TurnOutcome::Ended(v))
            },
        }
    }

    /// The computer's move when it is the computer's turn, chosen at the
    /// match's difficulty; `None` when a person is to move or the match is
    /// over.
    pub fn computer_move(&self) -> (r: Option<usize>)
        requires
            self.wf(),
        ensures
            r is Some <==> (self.spec_state() matches MatchState::AwaitingMove(m)
                && !is_human_turn_spec(self.spec_mode(), m)),
            r matches Some(i) ==> i < 9 && self.spec_board()[i as int] == Cell::Empty,
            r matches Some(i) ==> (self.spec_state() matches MatchState::AwaitingMove(m)
                && self.spec_mode() matches GameMode::HumanVsComputer(d, _) && (d
                == Difficulty::Hard ==> (tactical_spec(self.spec_board(), m) matches Some(t) ==> i
                == t))),
    {
        match self.state {
            MatchState::Finished(_) => None,
            MatchState::AwaitingMove(m) => match self.mode {
                GameMode::TwoHuman => None,
                GameMode::HumanVsComputer(difficulty, _) => {
                    if is_human_turn(self.mode, m) {
                        None
                    } else {
                        Some(choose_move(&self.board, m, difficulty))
                    }
                },
            },
        }
    }
}

/// While a match waits for a move, `X` is to move exactly when an even
/// number of marks stands on the board: turns alternate from `X`.
pub proof fn lemma_active_mark_follows_move_count(c: TurnController)
    requires
        c.wf(),
    ensures
        c.spec_state() matches MatchState::AwaitingMove(m) ==> (m == Mark::X <==> marked_count(
            c.spec_board(),
        ) % 2 == 0),
{
}

} // verus!
