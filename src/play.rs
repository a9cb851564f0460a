use vstd::prelude::*;

use crate::game::{
    is_best_hint, placed_current, placed_mistakes, placed_notes, resolved, Game, SetNumberOptions,
};
use crate::grid::{get_pos, get_x_and_y_from_pos, is_digit, pos_spec, Cell};
use crate::notes::{mask_has, only_number};

verus! {

/// Whether a drag across cells in notes mode adds or removes notes.
#[derive(Clone, Copy, Debug, PartialEq, Eq)]
pub enum NoteToggleMode {
    SetNote,
    UnsetNote,
}

impl Default for NoteToggleMode {
    fn default() -> (r: NoteToggleMode)
        ensures
            r == NoteToggleMode::SetNote,
    {
        NoteToggleMode::SetNote
    }
}

/// The player's cursor: the selected cell and digit, a pending hint, and
/// the mode of a drag in progress.
#[derive(Clone, Copy, Debug, PartialEq, Eq)]
pub struct Selection {
    pub selected_cell: Option<(u8, u8)>,
    pub selected_note: Option<u8>,
    pub hint: Option<(u8, u8)>,
    pub note_toggle: Option<NoteToggleMode>,
}

impl Default for Selection {
    fn default() -> (r: Selection)
        ensures
            r.selected_cell is None,
            r.selected_note is None,
            r.hint is None,
            r.note_toggle is None,
    {
        Selection { selected_cell: None, selected_note: None, hint: None, note_toggle: None }
    }
}

/// The selected cell, when there is one, lies on the board.
pub open spec fn cell_on_board(c: Option<(u8, u8)>) -> bool {
    match c {
        Some((x, y)) => x < 9 && y < 9,
        None => true,
    }
}

impl Selection {
    /// The selection at the start of `game`: the first given cell in linear
    /// order, or none when nothing is given.
    pub fn new_for_game(game: &Game) -> (r: Selection)
        ensures
            r.selected_note is None,
            r.hint is None,
            r.note_toggle is None,
            match r.selected_cell {
                Some((x, y)) => {
                    &&& x < 9
                    &&& y < 9
                    &&& game.start@[pos_spec(x as int, y as int)] is Some
                    &&& forall|j: int|
                        0 <= j < pos_spec(x as int, y as int) ==> (#[trigger] game.start@[j]) is None
                },
                None => forall|j: int| 0 <= j < 81 ==> (#[trigger] game.start@[j]) is None,
            },
    {
        let mut p: usize = 0;
        while p < 81
            invariant
                p <= 81,
                forall|j: int| 0 <= j < p ==> (#[trigger] game.start@[j]) is None,
            decreases 81 - p,
        {
            if game.start.cells[p].is_some() {
                let (x, y) = get_x_and_y_from_pos(p);
                return Selection {
                    selected_cell: Some((x, y)),
                    selected_note: None,
                    hint: None,
                    note_toggle: None,
                };
            }
            p += 1;
        }
        Selection::default()
    }

    /// Clears the selection, but leaves any visible hint intact.
    pub fn clear(&mut self)
        ensures
            final(self).selected_cell is None,
            final(self).selected_note is None,
            final(self).hint == old(self).hint,
            final(self).note_toggle == old(self).note_toggle,
    {
        self.selected_cell = None;
        self.selected_note = None;
    }

    /// Moves the selection to the cell with the given coordinates.
    pub fn set(&mut self, x: u8, y: u8)
        ensures
            final(self).selected_cell == Some((x, y)),
            final(self).selected_note is None,
            final(self).hint == old(self).hint,
            final(self).note_toggle == old(self).note_toggle,
    {
        self.selected_cell = Some((x, y));
        self.selected_note = None;
    }

    /// Moves the selection to the cell with the given coordinates, unless the
    /// selection is already there, in which case the selection is cleared.
    pub fn toggle(&mut self, x: u8, y: u8)
        ensures
            final(self).selected_cell == if old(self).selected_cell == Some((x, y)) {
                None
            } else {
                Some((x, y))
            },
            final(self).selected_note is None,
            final(self).hint == old(self).hint,
            final(self).note_toggle == old(self).note_toggle,
    {
        let here = match self.selected_cell {
            Some((sx, sy)) => sx == x && sy == y,
            None => false,
        };
        if here {
            self.clear();
        } else {
            self.set(x, y);
        }
    }
}

/// Moves the selection by `dx` columns and `dy` rows, wrapping around the
/// board's edges; from no selection it moves from the cell `(0, 0)`. Moving
/// onto the selected cell clears the selection.
pub fn move_selection_relative(selection: &mut Selection, dx: i8, dy: i8)
    requires
        cell_on_board(old(selection).selected_cell),
        -9 <= dx <= 9,
        -9 <= dy <= 9,
    ensures
        ({
            let (x, y) = match old(selection).selected_cell {
                Some(c) => c,
                None => (0u8, 0u8),
            };
            let target = (((x + 9 + dx) % 9) as u8, ((y + 9 + dy) % 9) as u8);
            final(selection).selected_cell == if old(selection).selected_cell == Some(target) {
                None
            } else {
                Some(target)
            }
        }),
        final(selection).selected_note is None,
        final(selection).hint == old(selection).hint,
        final(selection).note_toggle == old(selection).note_toggle,
{
    let (x, y) = match selection.selected_cell {
        Some(c) => c,
        None => (0u8, 0u8),
    };
    let nx = ((x as i16 + 9 + dx as i16) % 9) as u8;
    let ny = ((y as i16 + 9 + dy as i16) % 9) as u8;
    selection.toggle(nx, ny);
}

/// Empties the selected cell and its notes, unless it holds a clue.
pub fn clear_selection(game: &mut Game, selection: &Selection)
    requires
        old(game).wf(),
        cell_on_board(selection.selected_cell),
    ensures
        final(game).wf(),
        match selection.selected_cell {
            Some((x, y)) => if old(game).start@[pos_spec(x as int, y as int)] is None {
                &&& final(game).current@ == old(game).current@.update(
                    pos_spec(x as int, y as int),
                    None,
                )
                &&& final(game).notes@ == old(game).notes@.update(
                    pos_spec(x as int, y as int),
                    0u16,
                )
                &&& final(game).start == old(game).start
                &&& final(game).solution == old(game).solution
                &&& final(game).mistakes@ == old(game).mistakes@
                &&& final(game).num_hints == old(game).num_hints
            } else {
                *final(game) == *old(game)
            },
            None => *final(game) == *old(game),
        },
{
    if let Some((x, y)) = selection.selected_cell {
        if !game.start.has(x, y) {
            game.current = game.current.unset(x, y);
            game.notes.clear(x, y);
        }
    }
}

/// Places digit `n` at column `x` and row `y` and moves the selection
/// along: an accepted digit selects its cell and resolves a hint pending
/// there, a rejected one clears the selection. Returns whether the digit
/// is correct.
pub fn fill_number(
    game: &mut Game,
    selection: &mut Selection,
    show_mistakes: bool,
    is_hint: bool,
    x: u8,
    y: u8,
    n: u8,
) -> (r: bool)
    requires
        old(game).wf(),
        x < 9,
        y < 9,
        is_digit(n as int),
        old(game).start@[pos_spec(x as int, y as int)] is None,
    ensures
        final(game).wf(),
        r == (old(game).solution@[pos_spec(x as int, y as int)] == Some(n)),
        final(game).current@ == placed_current(
            old(game).current@,
            old(game).solution@,
            pos_spec(x as int, y as int),
            n,
            show_mistakes,
        ),
        final(game).notes@ == placed_notes(
            old(game).notes@,
            old(game).solution@,
            pos_spec(x as int, y as int),
            n,
            show_mistakes,
        ),
        final(game).mistakes@ == placed_mistakes(
            old(game).mistakes@,
            old(game).solution@,
            pos_spec(x as int, y as int),
            n,
            show_mistakes,
        ),
        final(game).start == old(game).start,
        final(game).solution == old(game).solution,
        final(game).num_hints == old(game).num_hints,
        r || !show_mistakes ==> {
            &&& final(selection).selected_cell == Some((x, y))
            &&& final(selection).selected_note == if old(selection).selected_cell == Some((x, y)) {
                old(selection).selected_note
            } else {
                None
            }
            &&& final(selection).hint == if old(selection).hint == Some((x, y)) {
                None
            } else {
                old(selection).hint
            }
        },
        !(r || !show_mistakes) ==> {
            &&& final(selection).selected_cell is None
            &&& final(selection).selected_note is None
            &&& final(selection).hint == old(selection).hint
        },
        final(selection).note_toggle == old(selection).note_toggle,
{
    let options = SetNumberOptions { is_hint, show_mistakes };
    let is_correct = game.place(x, y, n, options);
    if is_correct || !show_mistakes {
        let here = match selection.selected_cell {
            Some((sx, sy)) => sx == x && sy == y,
            None => false,
        };
        if !here {
            selection.set(x, y);
        }
        let hint_here = match selection.hint {
            Some((hx, hy)) => hx == x && hy == y,
            None => false,
        };
        if hint_here {
            selection.hint = None;
        }
    } else {
        selection.clear();
    }
    is_correct
}

/// Flips note `n` in the selected cell. The selected digit becomes `n` when
/// the note is now set, or else the one digit left noted there, if any.
pub fn toggle_note(game: &mut Game, selection: &mut Selection, n: u8)
    requires
        cell_on_board(old(selection).selected_cell),
        is_digit(n as int),
    ensures
        final(game).start == old(game).start,
        final(game).current == old(game).current,
        final(game).solution == old(game).solution,
        final(game).mistakes@ == old(game).mistakes@,
        final(game).num_hints == old(game).num_hints,
        final(selection).selected_cell == old(selection).selected_cell,
        final(selection).hint == old(selection).hint,
        final(selection).note_toggle == old(selection).note_toggle,
        match old(selection).selected_cell {
            Some((x, y)) => {
                let p = pos_spec(x as int, y as int);
                &&& final(game).notes@ == old(game).notes@.update(
                    p,
                    old(game).notes@[p] ^ crate::notes::digit_bit(n),
                )
                &&& final(selection).selected_note == if mask_has(final(game).notes@[p], n) {
                    Some(n)
                } else if only_number(final(game).notes@[p]) is Some {
                    only_number(final(game).notes@[p])
                } else {
                    old(selection).selected_note
                }
            },
            None => final(game).notes == old(game).notes && final(selection).selected_note
                == old(selection).selected_note,
        },
{
    if let Some((x, y)) = selection.selected_cell {
        let now_set = game.notes.toggle(x, y, n);
        if now_set {
            selection.selected_note = Some(n);
        } else if let Some(remaining) = game.notes.get_only_number(get_pos(x, y)) {
            selection.selected_note = Some(remaining);
        }
    }
}

/// Handles a hint request: counts it, then reveals the pending hint's digit
/// when one is pending, or else makes the best hint cell pending.
pub fn give_hint(game: &mut Game, selection: &mut Selection)
    requires
        old(game).wf(),
    ensures
        final(game).wf(),
        final(game).num_hints == if old(game).num_hints < u64::MAX {
            old(game).num_hints + 1
        } else {
            old(game).num_hints as int
        },
        final(game).start == old(game).start,
        final(game).solution == old(game).solution,
        match old(selection).hint {
            Some((x, y)) => if x < 9 && y < 9 && old(game).start@[pos_spec(x as int, y as int)]
                is None {
                &&& final(game).current@ == old(game).current@.update(
                    pos_spec(x as int, y as int),
                    old(game).solution@[pos_spec(x as int, y as int)],
                )
                &&& final(game).notes@ == placed_notes(
                    old(game).notes@,
                    old(game).solution@,
                    pos_spec(x as int, y as int),
                    old(game).solution@[pos_spec(x as int, y as int)]->0,
                    false,
                )
                &&& final(game).mistakes@ == old(game).mistakes@
                &&& final(selection).hint is None
                &&& final(selection).selected_cell == Some((x, y))
            } else {
                &&& final(game).current == old(game).current
                &&& final(game).notes == old(game).notes
                &&& final(game).mistakes@ == old(game).mistakes@
                &&& *final(selection) == *old(selection)
            },
            None => {
                &&& final(game).current == old(game).current
                &&& final(game).notes == old(game).notes
                &&& final(game).mistakes@ == old(game).mistakes@
                &&& is_best_hint(
                    old(game).start@,
                    old(game).current@,
                    match final(selection).hint {
                        Some((hx, hy)) => Some(crate::game::Hint { x: hx, y: hy }),
                        None => None,
                    },
                )
                &&& final(selection).selected_cell == old(selection).selected_cell
                &&& final(selection).selected_note == old(selection).selected_note
            },
        },
{
    let next = game.request_hint();
    match selection.hint {
        Some((x, y)) => {
            if x < 9 && y < 9 && !game.start.has(x, y) {
                if let Some(n) = game.solution.get(x, y) {
                    proof {
                        assert(crate::grid::cell_ok(game.solution@[pos_spec(x as int, y as int)]));
                    }
                    fill_number(game, selection, false, true, x, y, n);
                }
            }
        },
        None => {
            if let Some(h) = next {
                selection.hint = Some((h.x, h.y));
            }
        },
    }
}

/// Every cell of `cur` either holds the solution's digit or is empty with
/// the solution's digit as its one note.
pub open spec fn settled_by_notes(cur: Seq<Cell>, notes: Seq<u16>, sol: Seq<Cell>) -> bool {
    forall|k: int| 0 <= k < 81 ==> #[trigger] resolved(cur[k], notes[k]) == sol[k]
}

/// Cell `p` is empty, not given, and holds exactly one note.
pub open spec fn fillable_from_notes(start: Seq<Cell>, cur: Seq<Cell>, notes: Seq<u16>, p: int) -> bool {
    &&& 0 <= p < 81
    &&& cur[p] is None
    &&& start[p] is None
    &&& only_number(notes[p]) is Some
}

/// When the notes settle the whole board, fills the first empty, non-given
/// cell whose notes hold a single digit with that digit and selects it.
/// Returns the filled cell, or `None` when nothing was filled.
pub fn fill_next_noted_number(game: &mut Game, selection: &mut Selection) -> (r: Option<(u8, u8)>)
    requires
        old(game).wf(),
    ensures
        final(game).wf(),
        final(game).start == old(game).start,
        final(game).solution == old(game).solution,
        final(game).mistakes@ == old(game).mistakes@,
        final(game).num_hints == old(game).num_hints,
        r is Some <==> (settled_by_notes(old(game).current@, old(game).notes@, old(game).solution@)
            && exists|p: int|
            #[trigger] fillable_from_notes(old(game).start@, old(game).current@, old(game).notes@, p)),
        match r {
            Some((x, y)) => {
                let p = pos_spec(x as int, y as int);
                &&& x < 9
                &&& y < 9
                &&& fillable_from_notes(old(game).start@, old(game).current@, old(game).notes@, p)
                &&& forall|q: int|
                    0 <= q < p ==> !#[trigger] fillable_from_notes(
                        old(game).start@,
                        old(game).current@,
                        old(game).notes@,
                        q,
                    )
                &&& final(game).current@ == old(game).current@.update(
                    p,
                    only_number(old(game).notes@[p]),
                )
                &&& final(game).notes@ == placed_notes(
                    old(game).notes@,
                    old(game).solution@,
                    p,
                    only_number(old(game).notes@[p])->0,
                    false,
                )
                &&& final(selection).selected_cell == Some((x, y))
                &&& final(selection).selected_note is None
                &&& final(selection).hint == old(selection).hint
                &&& final(selection).note_toggle is None
            },
            None => *final(game) == *old(game) && *final(selection) == *old(selection),
        },
{
    if !game.is_solved_through_notes() {
        return None;
    }
    let mut p: usize = 0;
    while p < 81
        invariant
            p <= 81,
            game.wf(),
            *game == *old(game),
            *selection == *old(selection),
            settled_by_notes(game.current@, game.notes@, game.solution@),
            forall|q: int|
                0 <= q < p ==> !#[trigger] fillable_from_notes(
                    game.start@,
                    game.current@,
                    game.notes@,
                    q,
                ),
        decreases 81 - p,
    {
        if game.current.cells[p].is_none() && game.start.cells[p].is_none() {
            if let Some(n) = game.notes.get_only_number(p) {
                let (x, y) = get_x_and_y_from_pos(p);
                assert(fillable_from_notes(game.start@, game.current@, game.notes@, p as int));
                let options = SetNumberOptions { is_hint: false, show_mistakes: false };
                game.place(x, y, n, options);
                selection.set(x, y);
                selection.note_toggle = None;
                return Some((x, y));
            }
        }
        p += 1;
    }
    None
}

} // verus!

verus! {

/// The digit that notes mode works with: the digit in the selected cell,
/// or else the selected digit.
pub open spec fn note_digit(cur: Seq<Cell>, sel: Selection) -> Option<u8> {
    match sel.selected_cell {
        Some((x, y)) => match cur[pos_spec(x as int, y as int)] {
            Some(v) => Some(v),
            None => sel.selected_note,
        },
        None => sel.selected_note,
    }
}

fn current_note_digit(game: &Game, selection: &Selection) -> (r: Option<u8>)
    requires
        cell_on_board(selection.selected_cell),
    ensures
        r == note_digit(game.current@, *selection),
{
    match selection.selected_cell {
        Some((x, y)) => match game.current.get(x, y) {
            Some(v) => Some(v),
            None => selection.selected_note,
        },
        None => selection.selected_note,
    }
}

/// A press on the cell at column `x` and row `y` in notes mode. On a filled
/// cell it toggles the selection there. On an empty cell it flips the note
/// of the digit that notes mode works with, and a drag that follows sets or
/// clears that note as this press left it.
pub fn press_in_notes_mode(game: &mut Game, selection: &mut Selection, x: u8, y: u8)
    requires
        x < 9,
        y < 9,
        cell_on_board(old(selection).selected_cell),
    ensures
        final(game).start == old(game).start,
        final(game).current == old(game).current,
        final(game).solution == old(game).solution,
        final(game).mistakes == old(game).mistakes,
        final(game).num_hints == old(game).num_hints,
        final(selection).hint == old(selection).hint,
        ({
            let p = pos_spec(x as int, y as int);
            if old(game).current@[p] is Some {
                &&& final(game).notes == old(game).notes
                &&& final(selection).selected_cell == if old(selection).selected_cell == Some(
                    (x, y),
                ) {
                    None
                } else {
                    Some((x, y))
                }
                &&& final(selection).selected_note is None
                &&& final(selection).note_toggle is None
            } else {
                match note_digit(old(game).current@, *old(selection)) {
                    Some(n) => if is_digit(n as int) {
                        &&& final(game).notes@ == old(game).notes@.update(
                            p,
                            old(game).notes@[p] ^ crate::notes::digit_bit(n),
                        )
                        &&& final(selection).note_toggle == Some(
                            if mask_has(final(game).notes@[p], n) {
                                NoteToggleMode::SetNote
                            } else {
                                NoteToggleMode::UnsetNote
                            },
                        )
                        &&& final(selection).selected_cell == old(selection).selected_cell
                        &&& final(selection).selected_note == old(selection).selected_note
                    } else {
                        final(game).notes == old(game).notes && *final(selection) == *old(
                            selection,
                        )
                    },
                    None => final(game).notes == old(game).notes && *final(selection) == *old(
                        selection,
                    ),
                }
            }
        }),
{
    if game.current.has(x, y) {
        selection.toggle(x, y);
        selection.note_toggle = None;
    } else if let Some(n) = current_note_digit(game, selection) {
        if 1 <= n && n <= 9 {
            let now_set = game.notes.toggle(x, y, n);
            selection.note_toggle = Some(
                if now_set {
                    NoteToggleMode::SetNote
                } else {
                    NoteToggleMode::UnsetNote
                },
            );
        }
    }
}

/// A drag over the cell at column `x` and row `y` in notes mode: when a
/// press started the drag and the cell is empty, sets or clears there the
/// note of the digit that notes mode works with, as the press did.
pub fn drag_in_notes_mode(game: &mut Game, selection: &Selection, x: u8, y: u8)
    requires
        x < 9,
        y < 9,
        cell_on_board(selection.selected_cell),
    ensures
        final(game).start == old(game).start,
        final(game).current == old(game).current,
        final(game).solution == old(game).solution,
        final(game).mistakes == old(game).mistakes,
        final(game).num_hints == old(game).num_hints,
        ({
            let p = pos_spec(x as int, y as int);
            match (selection.note_toggle, note_digit(old(game).current@, *selection)) {
                (Some(mode), Some(n)) => if old(game).current@[p] is None && is_digit(n as int) {
                    final(game).notes@ == old(game).notes@.update(
                        p,
                        if mode == NoteToggleMode::SetNote {
                            old(game).notes@[p] | crate::notes::digit_bit(n)
                        } else {
                            old(game).notes@[p] & !crate::notes::digit_bit(n)
                        },
                    )
                } else {
                    final(game).notes == old(game).notes
                },
                _ => final(game).notes == old(game).notes,
            }
        }),
{
    if let Some(mode) = selection.note_toggle {
        if !game.current.has(x, y) {
            if let Some(n) = current_note_digit(game, selection) {
                if 1 <= n && n <= 9 {
                    match mode {
                        NoteToggleMode::SetNote => game.notes.set(x, y, n),
                        NoteToggleMode::UnsetNote => game.notes.unset(x, y, n),
                    }
                }
            }
        }
    }
}

} // verus!
