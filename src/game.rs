use vstd::prelude::*;

use crate::grid::{
    are_peers, count_candidates, get_pos, get_x_and_y_from_pos, has_unique_completion, is_completion,
    is_digit, is_peer, num_candidates, pos_spec, Cell, Sudoku,
};
use crate::notes::{digit_bit, lemma_unset_removes, mask_has, only_number, Notes};

verus! {

/// How a digit is being placed.
#[derive(Clone, Copy, Debug, PartialEq, Eq)]
pub struct SetNumberOptions {
    /// The digit comes from a hint.
    pub is_hint: bool,
    /// A wrong digit is recorded as a mistake instead of being written.
    pub show_mistakes: bool,
}

/// A cell chosen to be revealed next.
#[derive(Clone, Copy, Debug, PartialEq, Eq)]
pub struct Hint {
    pub x: u8,
    pub y: u8,
}

/// A puzzle in play: the given clues, the player's board, the one solution,
/// the player's notes and the wrong digits tried.
#[derive(Clone, Copy, Debug, PartialEq, Eq)]
pub struct Game {
    pub start: Sudoku,
    pub current: Sudoku,
    pub solution: Sudoku,
    pub notes: Notes,
    pub mistakes: Notes,
    pub num_hints: u64,
}

/// The board after placing `d` at cell `i`: a correct digit is written, and
/// so is a wrong one unless mistakes are shown.
pub open spec fn placed_current(cur: Seq<Cell>, sol: Seq<Cell>, i: int, d: u8, show: bool) -> Seq<
    Cell,
> {
    if sol[i] == Some(d) || !show {
        cur.update(i, Some(d))
    } else {
        cur
    }
}

/// The notes after placing `d` at cell `i`: the cell's notes go when the
/// digit is written, and a correct digit also leaves the notes of every peer.
pub open spec fn placed_notes(notes: Seq<u16>, sol: Seq<Cell>, i: int, d: u8, show: bool) -> Seq<
    u16,
> {
    if sol[i] == Some(d) {
        Seq::new(
            81,
            |j: int|
                if j == i {
                    0u16
                } else if are_peers(i, j) {
                    notes[j] & !digit_bit(d)
                } else {
                    notes[j]
                },
        )
    } else if !show {
        notes.update(i, 0u16)
    } else {
        notes
    }
}

/// The mistakes after placing `d` at cell `i`: a wrong digit is recorded
/// when mistakes are shown.
pub open spec fn placed_mistakes(
    mistakes: Seq<u16>,
    sol: Seq<Cell>,
    i: int,
    d: u8,
    show: bool,
) -> Seq<u16> {
    if sol[i] != Some(d) && show {
        mistakes.update(i, mistakes[i] | digit_bit(d))
    } else {
        mistakes
    }
}

/// Cell `i` is empty on the board and was not given.
pub open spec fn hint_eligible(start: Seq<Cell>, cur: Seq<Cell>, i: int) -> bool {
    0 <= i < 81 && start[i] is None && cur[i] is None
}

/// `r` is the empty, non-given cell with the fewest candidates, the first
/// in linear order among equals, or `None` when there is no such cell.
pub open spec fn is_best_hint(start: Seq<Cell>, cur: Seq<Cell>, r: Option<Hint>) -> bool {
    match r {
        None => forall|j: int| !#[trigger] hint_eligible(start, cur, j),
        Some(h) => {
            &&& h.x < 9
            &&& h.y < 9
            &&& hint_eligible(start, cur, pos_spec(h.x as int, h.y as int))
            &&& forall|j: int| #[trigger]
                hint_eligible(start, cur, j) ==> num_candidates(
                    cur,
                    pos_spec(h.x as int, h.y as int),
                ) <= num_candidates(cur, j)
            &&& forall|j: int|
                #[trigger] hint_eligible(start, cur, j) && j < pos_spec(h.x as int, h.y as int)
                    ==> num_candidates(cur, pos_spec(h.x as int, h.y as int)) < num_candidates(
                    cur,
                    j,
                )
        },
    }
}

/// What cell `i` would hold if each empty cell took the one digit noted there.
pub open spec fn resolved(c: Cell, m: u16) -> Cell {
    match c {
        Some(v) => Some(v),
        None => only_number(m),
    }
}

impl Game {
    /// The boards are valid, and `solution` is the one completion of `start`.
    pub open spec fn wf(&self) -> bool {
        &&& self.start.wf()
        &&& self.current.wf()
        &&& is_completion(self.start@, self.solution@)
        &&& forall|t: Seq<Cell>| #[trigger] is_completion(self.start@, t) ==> t == self.solution@
    }

    /// A fresh game on the clues `start`, or `None` when they do not have
    /// exactly one completion.
    pub fn new(start: Sudoku) -> (r: Option<Game>)
        requires
            start.wf(),
        ensures
            r is Some <==> has_unique_completion(start@),
            match r {
                Some(g) => {
                    &&& g.wf()
                    &&& g.start == start
                    &&& g.current == start
                    &&& forall|i: int| 0 <= i < 81 ==> (#[trigger] g.notes@[i]) == 0
                    &&& forall|i: int| 0 <= i < 81 ==> (#[trigger] g.mistakes@[i]) == 0
                    &&& g.num_hints == 0
                },
                None => true,
            },
    {
        match start.find_unique_solution() {
            Some(solution) => Some(
                Game {
                    start,
                    current: start,
                    solution,
                    notes: Notes::new(),
                    mistakes: Notes::new(),
                    num_hints: 0,
                },
            ),
            None => None,
        }
    }

    /// Places digit `d` at column `x` and row `y`, and returns whether it is
    /// the solution's digit there.
    ///
    /// A correct digit is written, the cell's notes are cleared, and `d` is
    /// removed from the notes of every peer. A wrong digit is recorded as a
    /// mistake when `options.show_mistakes` is set, and otherwise written
    /// as if it were correct.
    pub fn place(&mut self, x: u8, y: u8, d: u8, options: SetNumberOptions) -> (r: bool)
        requires
            old(self).wf(),
            x < 9,
            y < 9,
            is_digit(d as int),
            old(self).start@[pos_spec(x as int, y as int)] is None,
        ensures
            final(self).wf(),
            r == (old(self).solution@[pos_spec(x as int, y as int)] == Some(d)),
            final(self).start == old(self).start,
            final(self).solution == old(self).solution,
            final(self).num_hints == old(self).num_hints,
            final(self).current@ == placed_current(
                old(self).current@,
                old(self).solution@,
                pos_spec(x as int, y as int),
                d,
                options.show_mistakes,
            ),
            final(self).notes@ == placed_notes(
                old(self).notes@,
                old(self).solution@,
                pos_spec(x as int, y as int),
                d,
                options.show_mistakes,
            ),
            final(self).mistakes@ == placed_mistakes(
                old(self).mistakes@,
                old(self).solution@,
                pos_spec(x as int, y as int),
                d,
                options.show_mistakes,
            ),
            r ==> forall|j: int|
                are_peers(pos_spec(x as int, y as int), j) ==> !#[trigger] mask_has(
                    final(self).notes@[j],
                    d,
                ),
    {
        let i = get_pos(x, y);
        let correct = match self.solution.get(x, y) {
            Some(s) => s == d,
            None => false,
        };
        if correct {
            self.current = self.current.set(x, y, d);
            self.notes.clear(x, y);
            let ghost base = self.notes@;
            let ghost cur0 = self.current;
            let mut j: usize = 0;
            while j < 81
                invariant
                    j <= 81,
                    i < 81,
                    i == pos_spec(x as int, y as int),
                    is_digit(d as int),
                    self.notes@.len() == 81,
                    base.len() == 81,
                    base[i as int] == 0,
                    forall|k: int|
                        0 <= k < 81 ==> #[trigger] self.notes@[k] == if k < j && are_peers(
                            i as int,
                            k,
                        ) {
                            base[k] & !digit_bit(d)
                        } else {
                            base[k]
                        },
                    self.start == old(self).start,
                    self.solution == old(self).solution,
                    self.current == cur0,
                    self.mistakes == old(self).mistakes,
                    self.num_hints == old(self).num_hints,
                decreases 81 - j,
            {
                if is_peer(i, j) {
                    let (px, py) = get_x_and_y_from_pos(j);
                    self.notes.unset(px, py, d);
                }
                j += 1;
            }
            proof {
                let want = placed_notes(
                    old(self).notes@,
                    old(self).solution@,
                    i as int,
                    d,
                    options.show_mistakes,
                );
                assert(self.notes@ =~= want);
                assert forall|k: int| are_peers(i as int, k) implies !#[trigger] mask_has(
                    self.notes@[k],
                    d,
                ) by {
                    lemma_unset_removes(base[k], d);
                }
            }
        } else if options.show_mistakes {
            self.mistakes.set(x, y, d);
        } else {
            self.current = self.current.set(x, y, d);
            self.notes.clear(x, y);
        }
        correct
    }

    /// The empty, non-given cell with the fewest candidates, the first in
    /// linear order among equals; `None` when there is no such cell.
    pub fn get_hint(&self) -> (r: Option<Hint>)
        requires
            self.current.wf(),
        ensures
            is_best_hint(self.start@, self.current@, r),
    {
        let mut best: Option<usize> = None;
        let mut best_count: u8 = 10;
        let mut i: usize = 0;
        while i < 81
            invariant
                i <= 81,
                self.current.wf(),
                best is None ==> best_count == 10 && forall|j: int|
                    0 <= j < i ==> !#[trigger] hint_eligible(self.start@, self.current@, j),
                match best {
                    Some(c) => {
                        &&& c < i
                        &&& hint_eligible(self.start@, self.current@, c as int)
                        &&& best_count == num_candidates(self.current@, c as int)
                        &&& forall|j: int|
                            0 <= j < i && #[trigger] hint_eligible(self.start@, self.current@, j)
                                ==> best_count <= num_candidates(self.current@, j)
                        &&& forall|j: int|
                            0 <= j < c && #[trigger] hint_eligible(self.start@, self.current@, j)
                                ==> best_count < num_candidates(self.current@, j)
                    },
                    None => true,
                },
            decreases 81 - i,
        {
            if self.start.cells[i].is_none() && self.current.cells[i].is_none() {
                let n = count_candidates(&self.current, i);
                if n < best_count {
                    best = Some(i);
                    best_count = n;
                }
            }
            i += 1;
        }
        match best {
            None => None,
            Some(c) => {
                let (x, y) = get_x_and_y_from_pos(c);
                Some(Hint { x, y })
            },
        }
    }

    /// Counts a hint request and returns the cell that a hint reveals now.
    pub fn request_hint(&mut self) -> (r: Option<Hint>)
        requires
            old(self).current.wf(),
        ensures
            final(self).num_hints == if old(self).num_hints < u64::MAX {
                old(self).num_hints + 1
            } else {
                old(self).num_hints as int
            },
            final(self).start == old(self).start,
            final(self).current == old(self).current,
            final(self).solution == old(self).solution,
            final(self).notes == old(self).notes,
            final(self).mistakes == old(self).mistakes,
            is_best_hint(old(self).start@, old(self).current@, r),
    {
        self.num_hints = self.num_hints.saturating_add(1);
        self.get_hint()
    }

    /// Whether the player's board equals the solution.
    pub fn is_solved(&self) -> (r: bool)
        ensures
            r == (self.current@ == self.solution@),
    {
        let mut i: usize = 0;
        while i < 81
            invariant
                i <= 81,
                forall|k: int| 0 <= k < i ==> self.current@[k] == self.solution@[k],
            decreases 81 - i,
        {
            if self.current.cells[i] != self.solution.cells[i] {
                return false;
            }
            i += 1;
        }
        assert(self.current@ =~= self.solution@);
        true
    }

    /// Whether the board would equal the solution once each empty cell took
    /// the one digit noted there.
    pub fn is_solved_through_notes(&self) -> (r: bool)
        ensures
            r == forall|k: int|
                0 <= k < 81 ==> #[trigger] resolved(self.current@[k], self.notes@[k])
                    == self.solution@[k],
    {
        let mut i: usize = 0;
        while i < 81
            invariant
                i <= 81,
                forall|k: int|
                    0 <= k < i ==> #[trigger] resolved(self.current@[k], self.notes@[k])
                        == self.solution@[k],
            decreases 81 - i,
        {
            let c = match self.current.cells[i] {
                Some(v) => Some(v),
                None => self.notes.get_only_number(i),
            };
            if c != self.solution.cells[i] {
                assert(resolved(self.current@[i as int], self.notes@[i as int]) != self.solution@[i as int]);
                return false;
            }
            i += 1;
        }
        true
    }
}

} // verus!

verus! {

/// Placing the solution's digit at a cell a second time leaves the board as
/// the first placement left it; the digit is judged against the same
/// solution, so it is again correct.
pub proof fn lemma_place_idempotent(cur: Seq<Cell>, sol: Seq<Cell>, i: int, d: u8, show: bool)
    requires
        0 <= i < cur.len(),
        sol[i] == Some(d),
    ensures
        placed_current(placed_current(cur, sol, i, d, show), sol, i, d, show) == placed_current(
            cur,
            sol,
            i,
            d,
            show,
        ),
{
    let once = placed_current(cur, sol, i, d, show);
    assert(once.update(i, Some(d)) =~= once);
}

} // verus!
