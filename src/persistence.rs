use vstd::prelude::*;

use crate::game::Game;
use crate::grid::{cell_ok, cells_ok, has_unique_completion, Cell, Sudoku};
use crate::notes::Notes;

verus! {

/// What is kept of a game between sessions: its clues, the player's board
/// and the notes. The solution is derived again on load.
#[derive(Clone, Copy, Debug, PartialEq, Eq)]
pub struct SerializedGame {
    pub start: Sudoku,
    pub current: Sudoku,
    pub notes: Notes,
}

/// Why a snapshot could not be turned into a game.
#[derive(Clone, Copy, Debug, PartialEq, Eq)]
pub enum LoadError {
    /// A list did not hold exactly 81 entries.
    WrongLength,
    /// A cell held a number outside 1 through 9.
    InvalidDigit,
    /// The clues have no completion, or more than one.
    NoUniqueSolution,
}

/// `s` is a snapshot of `g`.
pub open spec fn is_snapshot_of(s: SerializedGame, g: Game) -> bool {
    s.start == g.start && s.current == g.current && s.notes == g.notes
}

/// A snapshot can be loaded: its boards hold digits only, and its clues have
/// exactly one completion.
pub open spec fn loadable(s: SerializedGame) -> bool {
    s.start.wf() && s.current.wf() && has_unique_completion(s.start@)
}

/// `g` is the game that loading `s` gives: its boards and notes, a solution
/// derived from the clues, no mistakes and no hints counted.
pub open spec fn loads_as(s: SerializedGame, g: Game) -> bool {
    &&& g.wf()
    &&& g.start == s.start
    &&& g.current == s.current
    &&& g.notes == s.notes
    &&& forall|i: int| 0 <= i < 81 ==> (#[trigger] g.mistakes@[i]) == 0
    &&& g.num_hints == 0
}

impl SerializedGame {
    /// The snapshot of `game`.
    pub fn from_game(game: &Game) -> (r: SerializedGame)
        ensures
            is_snapshot_of(r, *game),
    {
        SerializedGame { start: game.start, current: game.current, notes: game.notes }
    }
}

impl Sudoku {
    /// Whether every cell is empty or a digit from 1 through 9.
    pub fn is_valid(&self) -> (r: bool)
        ensures
            r == self.wf(),
    {
        let mut i: usize = 0;
        while i < 81
            invariant
                i <= 81,
                forall|k: int| 0 <= k < i ==> #[trigger] cell_ok(self@[k]),
            decreases 81 - i,
        {
            if let Some(d) = self.cells[i] {
                if d < 1 || d > 9 {
                    assert(!cell_ok(self@[i as int]));
                    return false;
                }
            }
            i += 1;
        }
        true
    }

    /// The board whose cells are `values`, in linear order; an error when
    /// there are not exactly 81 values, or one is not a digit.
    pub fn from_values(values: &Vec<Cell>) -> (r: Result<Sudoku, LoadError>)
        ensures
            values@.len() != 81 ==> r == Err::<Sudoku, LoadError>(LoadError::WrongLength),
            values@.len() == 81 && (exists|i: int|
                0 <= i < 81 && !#[trigger] cell_ok(values@[i])) ==> r == Err::<
                Sudoku,
                LoadError,
            >(LoadError::InvalidDigit),
            r is Ok <==> cells_ok(values@),
            match r {
                Ok(s) => s.wf() && s@ == values@,
                Err(_) => true,
            },
    {
        if values.len() != 81 {
            return Err(LoadError::WrongLength);
        }
        let mut s = Sudoku::new();
        let mut i: usize = 0;
        while i < 81
            invariant
                i <= 81,
                values@.len() == 81,
                forall|k: int|
                    0 <= k < 81 ==> #[trigger] s@[k] == if k < i {
                        values@[k]
                    } else {
                        None
                    },
                forall|k: int| 0 <= k < i ==> #[trigger] cell_ok(values@[k]),
            decreases 81 - i,
        {
            let c = values[i];
            if let Some(d) = c {
                if d < 1 || d > 9 {
                    assert(!cell_ok(values@[i as int]));
                    return Err(LoadError::InvalidDigit);
                }
            }
            let ghost before = s@;
            s.cells[i] = c;
            assert(s@ =~= before.update(i as int, c));
            i += 1;
        }
        assert(s@ =~= values@);
        Ok(s)
    }
}

impl Notes {
    /// The notes whose cells are `values`, in linear order; an error when
    /// there are not exactly 81 values.
    pub fn from_values(values: &Vec<u16>) -> (r: Result<Notes, LoadError>)
        ensures
            values@.len() != 81 ==> r == Err::<Notes, LoadError>(LoadError::WrongLength),
            r is Ok <==> values@.len() == 81,
            match r {
                Ok(n) => n@ == values@,
                Err(_) => true,
            },
    {
        if values.len() != 81 {
            return Err(LoadError::WrongLength);
        }
        let mut n = Notes::new();
        let mut i: usize = 0;
        while i < 81
            invariant
                i <= 81,
                values@.len() == 81,
                forall|k: int|
                    0 <= k < 81 ==> #[trigger] n@[k] == if k < i {
                        values@[k]
                    } else {
                        0u16
                    },
            decreases 81 - i,
        {
            let ghost before = n@;
            n.cells[i] = values[i];
            assert(n@ =~= before.update(i as int, values@[i as int]));
            i += 1;
        }
        assert(n@ =~= values@);
        Ok(n)
    }
}

impl Game {
    /// Rebuilds a game from its snapshot, deriving the solution from the
    /// clues. Fails when a board holds a number that is not a digit, or when
    /// the clues do not have exactly one completion.
    pub fn from_serialized(s: SerializedGame) -> (r: Result<Game, LoadError>)
        ensures
            !(s.start.wf() && s.current.wf()) ==> r == Err::<Game, LoadError>(
                LoadError::InvalidDigit,
            ),
            s.start.wf() && s.current.wf() && !has_unique_completion(s.start@) ==> r == Err::<
                Game,
                LoadError,
            >(LoadError::NoUniqueSolution),
            r is Ok <==> loadable(s),
            match r {
                Ok(g) => loads_as(s, g),
                Err(_) => true,
            },
    {
        if !s.start.is_valid() || !s.current.is_valid() {
            return Err(LoadError::InvalidDigit);
        }
        match s.start.find_unique_solution() {
            Some(solution) => Ok(
                Game {
                    start: s.start,
                    current: s.current,
                    solution,
                    notes: s.notes,
                    mistakes: Notes::new(),
                    num_hints: 0,
                },
            ),
            None => Err(LoadError::NoUniqueSolution),
        }
    }
}

/// Saving a game and loading the snapshot succeeds, and gives back the same
/// clues, board and notes, and the same solution.
pub proof fn lemma_round_trip(g: Game, s: SerializedGame, h: Game)
    requires
        g.wf(),
        is_snapshot_of(s, g),
    ensures
        loadable(s),
        loads_as(s, h) ==> h.start == g.start && h.current == g.current && h.notes == g.notes
            && h.solution@ == g.solution@,
{
    assert(has_unique_completion(g.start@));
}

} // verus!
