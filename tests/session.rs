use sudoku::game::Game;
use sudoku::grid::Sudoku;
use sudoku::notes::Notes;
use sudoku::play::{
    clear_selection, drag_in_notes_mode, fill_next_noted_number, fill_number, give_hint,
    move_selection_relative, press_in_notes_mode, toggle_note, NoteToggleMode, Selection,
};

const SOLUTION: &str =
    "534678912672195348198342567859761423426853791713924856961537284287419635345286179";

fn solved() -> Sudoku {
    let mut s = Sudoku::new();
    for (i, c) in SOLUTION.chars().enumerate() {
        s.cells[i] = Some(c.to_digit(10).unwrap() as u8);
    }
    s
}

#[test]
fn selection_starts_on_first_clue() {
    let game = Game::new(solved().unset(0, 0)).unwrap();
    let sel = Selection::new_for_game(&game);
    assert_eq!(sel.selected_cell, Some((1, 0)));
    assert_eq!(sel.hint, None);
}

#[test]
fn selection_set_toggle_clear() {
    let mut sel = Selection::default();
    sel.set(2, 3);
    sel.selected_note = Some(4);
    sel.hint = Some((1, 1));
    sel.toggle(5, 5);
    assert_eq!(sel.selected_cell, Some((5, 5)));
    assert_eq!(sel.selected_note, None);
    sel.toggle(5, 5);
    assert_eq!(sel.selected_cell, None);
    assert_eq!(sel.hint, Some((1, 1)));
    sel.set(1, 2);
    sel.clear();
    assert_eq!(sel.selected_cell, None);
    assert_eq!(NoteToggleMode::default(), NoteToggleMode::SetNote);
}

#[test]
fn selection_moves_and_wraps() {
    let mut sel = Selection::default();
    move_selection_relative(&mut sel, -1, 0);
    assert_eq!(sel.selected_cell, Some((8, 0)));
    move_selection_relative(&mut sel, 1, -1);
    assert_eq!(sel.selected_cell, Some((0, 8)));
    move_selection_relative(&mut sel, 0, 1);
    assert_eq!(sel.selected_cell, Some((0, 0)));
}

#[test]
fn clearing_a_cell() {
    let mut game = Game::new(solved().unset(3, 3)).unwrap();
    game.place(3, 3, 7, sudoku::game::SetNumberOptions { is_hint: false, show_mistakes: false });
    let mut sel = Selection::default();
    sel.set(3, 3);
    clear_selection(&mut game, &sel);
    assert_eq!(game.current.get(3, 3), None);
    sel.set(0, 0);
    clear_selection(&mut game, &sel);
    assert_eq!(game.current.get(0, 0), Some(5));
}

#[test]
fn filling_moves_selection_and_resolves_hint() {
    let mut game = Game::new(solved().unset(4, 0).unset(0, 0)).unwrap();
    let mut sel = Selection::default();
    sel.hint = Some((4, 0));
    assert!(fill_number(&mut game, &mut sel, true, false, 4, 0, 7));
    assert_eq!(sel.selected_cell, Some((4, 0)));
    assert_eq!(sel.hint, None);
    assert!(!fill_number(&mut game, &mut sel, true, false, 0, 0, 3));
    assert_eq!(sel.selected_cell, None);
    assert!(game.mistakes.has(0, 0, 3));
}

#[test]
fn toggling_notes_picks_digit() {
    let mut game = Game::new(solved().unset(4, 0)).unwrap();
    let mut sel = Selection::default();
    sel.set(4, 0);
    toggle_note(&mut game, &mut sel, 2);
    assert_eq!(sel.selected_note, Some(2));
    toggle_note(&mut game, &mut sel, 6);
    assert_eq!(sel.selected_note, Some(6));
    toggle_note(&mut game, &mut sel, 6);
    assert!(!game.notes.has(4, 0, 6));
    assert_eq!(sel.selected_note, Some(2));
}

#[test]
fn hint_then_reveal() {
    let mut game = Game::new(solved().unset(4, 0)).unwrap();
    let mut sel = Selection::default();
    give_hint(&mut game, &mut sel);
    assert_eq!(sel.hint, Some((4, 0)));
    assert_eq!(game.num_hints, 1);
    assert_eq!(game.current.get(4, 0), None);
    give_hint(&mut game, &mut sel);
    assert_eq!(game.num_hints, 2);
    assert_eq!(game.current.get(4, 0), Some(7));
    assert_eq!(sel.hint, None);
    assert!(game.is_solved());
}

#[test]
fn autofill_from_notes() {
    let mut game = Game::new(solved().unset(4, 0).unset(5, 5)).unwrap();
    let mut sel = Selection::default();
    game.notes.set(4, 0, 7);
    assert_eq!(fill_next_noted_number(&mut game, &mut sel), None);
    game.notes.set(5, 5, game.solution.get(5, 5).unwrap());
    assert_eq!(fill_next_noted_number(&mut game, &mut sel), Some((4, 0)));
    assert_eq!(sel.selected_cell, Some((4, 0)));
    assert_eq!(fill_next_noted_number(&mut game, &mut sel), Some((5, 5)));
    assert!(game.is_solved());
    assert_eq!(fill_next_noted_number(&mut game, &mut sel), None);
}

/// A valid filled board: digit `(x + 3 * (y % 3) + y / 3) % 9 + 1` at `(x, y)`.
fn patterned() -> Sudoku {
    let mut s = Sudoku::new();
    for y in 0..9u8 {
        for x in 0..9u8 {
            s = s.set(x, y, (x + 3 * (y % 3) + y / 3) % 9 + 1);
        }
    }
    s
}

#[test]
fn autofill_single_missing_cell() {
    let full = patterned();
    assert!(full.is_solved());
    let mut game = Game::new(full.unset(0, 0)).unwrap();
    assert_eq!(game.solution, full);
    game.notes.set(0, 0, 1);
    assert!(game.is_solved_through_notes());
    let mut sel = Selection::default();
    assert_eq!(fill_next_noted_number(&mut game, &mut sel), Some((0, 0)));
    assert_eq!(game.current.get(0, 0), Some(1));
    assert_eq!(game.current, game.solution);
    assert_eq!(sel.selected_cell, Some((0, 0)));
    assert_eq!(game.notes, Notes::new());
}

#[test]
fn autofill_waits_for_wrong_notes() {
    let mut game = Game::new(patterned().unset(0, 0)).unwrap();
    game.notes.set(0, 0, 2);
    let before = game;
    let mut sel = Selection::default();
    assert_eq!(fill_next_noted_number(&mut game, &mut sel), None);
    assert_eq!(game, before);
}

#[test]
fn revealed_hint_records_no_mistake() {
    let mut game = Game::new(patterned().unset(3, 4)).unwrap();
    let mut sel = Selection::default();
    give_hint(&mut game, &mut sel);
    assert_eq!(sel.hint, Some((3, 4)));
    assert_eq!(game.mistakes, Notes::new());
    give_hint(&mut game, &mut sel);
    assert_eq!(game.current, game.solution);
    assert_eq!(game.mistakes, Notes::new());
    assert_eq!(sel.selected_cell, Some((3, 4)));
}

#[test]
fn notes_press_and_drag() {
    let mut game = Game::new(solved().unset(4, 0).unset(4, 1).unset(4, 2)).unwrap();
    let mut sel = Selection::default();
    sel.selected_note = Some(3);
    press_in_notes_mode(&mut game, &mut sel, 4, 0);
    assert!(game.notes.has(4, 0, 3));
    assert_eq!(sel.note_toggle, Some(NoteToggleMode::SetNote));
    drag_in_notes_mode(&mut game, &sel, 4, 1);
    assert!(game.notes.has(4, 1, 3));
    drag_in_notes_mode(&mut game, &sel, 0, 0);
    assert!(!game.notes.has(0, 0, 3));
    press_in_notes_mode(&mut game, &mut sel, 4, 0);
    assert_eq!(sel.note_toggle, Some(NoteToggleMode::UnsetNote));
    drag_in_notes_mode(&mut game, &sel, 4, 1);
    assert!(!game.notes.has(4, 1, 3));
    press_in_notes_mode(&mut game, &mut sel, 0, 0);
    assert_eq!(sel.selected_cell, Some((0, 0)));
    assert_eq!(sel.note_toggle, None);
    press_in_notes_mode(&mut game, &mut sel, 4, 2);
    assert!(game.notes.has(4, 2, 5));
}
