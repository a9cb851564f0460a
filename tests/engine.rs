use sudoku::game::{Game, Hint, SetNumberOptions};
use sudoku::grid::{get_pos, get_x_and_y_from_pos, is_peer, peers, Sudoku};
use sudoku::notes::Notes;
use sudoku::persistence::{LoadError, SerializedGame};

const PUZZLE: &str = "530070000600195000098000060800060003400803001700020006060000280000419005000080079";
const SOLUTION: &str =
    "534678912672195348198342567859761423426853791713924856961537284287419635345286179";

fn board(text: &str) -> Sudoku {
    let mut s = Sudoku::new();
    for (i, c) in text.chars().enumerate() {
        let d = c.to_digit(10).unwrap() as u8;
        s.cells[i] = if d == 0 { None } else { Some(d) };
    }
    s
}

/// The solution with the cell at `(x, y)` emptied.
fn all_but(x: u8, y: u8) -> Sudoku {
    board(SOLUTION).unset(x, y)
}

fn show() -> SetNumberOptions {
    SetNumberOptions { is_hint: false, show_mistakes: true }
}

#[test]
fn unique_puzzle_is_solved() {
    assert_eq!(board(PUZZLE).find_unique_solution(), Some(board(SOLUTION)));
}

#[test]
fn full_board_is_its_own_solution() {
    assert_eq!(board(SOLUTION).find_unique_solution(), Some(board(SOLUTION)));
}

#[test]
fn empty_board_has_no_unique_solution() {
    assert_eq!(Sudoku::new().find_unique_solution(), None);
}

#[test]
fn single_row_has_no_unique_solution() {
    let mut s = Sudoku::new();
    for x in 0..9u8 {
        s = s.set(x, 0, x + 1);
    }
    assert_eq!(s.find_unique_solution(), None);
}

#[test]
fn clashing_clues_have_no_solution() {
    let s = board(PUZZLE).set(2, 0, 5);
    assert!(!s.is_consistent());
    assert_eq!(s.find_unique_solution(), None);
}

#[test]
fn consistent_clues_without_completion() {
    let mut s = Sudoku::new();
    for x in 0..8u8 {
        s = s.set(x, 0, x + 1);
    }
    s = s.set(8, 1, 9);
    assert!(s.is_consistent());
    assert_eq!(s.find_unique_solution(), None);
}

#[test]
fn grid_get_set_unset() {
    let s = board(PUZZLE);
    assert_eq!(s.get(0, 0), Some(5));
    assert_eq!(s.get(2, 0), None);
    assert!(s.has(4, 0));
    let t = s.set(2, 0, 4);
    assert_eq!(t.get(2, 0), Some(4));
    assert_eq!(s.get(2, 0), None);
    assert_eq!(t.unset(2, 0), s);
    assert!(board(SOLUTION).is_solved());
    assert!(!s.is_solved());
}

#[test]
fn positions() {
    assert_eq!(get_pos(3, 2), 21);
    assert_eq!(get_x_and_y_from_pos(21), (3, 2));
    assert!(is_peer(0, 80) == false);
    assert!(is_peer(0, 20));
    assert!(is_peer(0, 72));
}

#[test]
fn twenty_distinct_peers() {
    let p = peers(4, 4);
    assert_eq!(p.len(), 20);
    assert!(p.contains(&(3, 3)));
    assert!(p.contains(&(0, 4)));
    assert!(p.contains(&(4, 8)));
    assert!(!p.contains(&(4, 4)));
    assert!(!p.contains(&(0, 0)));
}

#[test]
fn only_number_for_every_mask() {
    for m in 0u16..512 {
        let mut n = Notes::new();
        n.cells[10] = m;
        let expected = if m.count_ones() == 1 { Some(m.trailing_zeros() as u8 + 1) } else { None };
        assert_eq!(n.get_only_number(10), expected, "mask {m}");
    }
}

#[test]
fn note_bits() {
    let mut n = Notes::new();
    n.set(1, 2, 4);
    assert!(n.has(1, 2, 4));
    assert_eq!(n.cells[get_pos(1, 2)], 0b1000);
    assert!(n.toggle(1, 2, 9));
    assert!(!n.toggle(1, 2, 4));
    assert_eq!(n.get_only_number(get_pos(1, 2)), Some(9));
    n.unset(1, 2, 9);
    assert_eq!(n.cells[get_pos(1, 2)], 0);
    n.set(0, 0, 1);
    n.clear(0, 0);
    assert!(!n.has(0, 0, 1));
}

#[test]
fn cleared_notes_since() {
    let mut before = Notes::new();
    before.set(1, 0, 3);
    before.set(2, 5, 7);
    before.set(2, 5, 8);
    let mut after = before;
    after.unset(2, 5, 7);
    after.clear(1, 0);
    after.set(4, 4, 1);
    assert_eq!(after.get_cleared_since(&before), vec![(1, 0, 3), (2, 5, 7)]);
}

#[test]
fn new_game_and_hint_scenario() {
    let mut game = Game::new(all_but(4, 0)).unwrap();
    assert_eq!(game.solution.get(4, 0), Some(7));
    assert_eq!(game.request_hint(), Some(Hint { x: 4, y: 0 }));
    assert_eq!(game.num_hints, 1);
    assert_eq!(game.request_hint(), Some(Hint { x: 4, y: 0 }));
    assert_eq!(game.num_hints, 2);
}

#[test]
fn hint_prefers_fewest_candidates() {
    let game = Game::new(board(PUZZLE)).unwrap();
    let h = game.get_hint().unwrap();
    let counts: Vec<u8> = (0..81)
        .filter(|&p| game.current.cells[p].is_none())
        .map(|p| sudoku::grid::count_candidates(&game.current, p))
        .collect();
    let best = *counts.iter().min().unwrap();
    assert_eq!(sudoku::grid::count_candidates(&game.current, get_pos(h.x, h.y)), best);
}

#[test]
fn no_hint_when_solved() {
    let mut game = Game::new(all_but(4, 0)).unwrap();
    assert!(game.place(4, 0, 7, show()));
    assert_eq!(game.get_hint(), None);
}

#[test]
fn unsolvable_start_gives_no_game() {
    assert!(Game::new(Sudoku::new()).is_none());
}

#[test]
fn wrong_digit_with_mistakes_shown() {
    let mut game = Game::new(all_but(0, 0)).unwrap();
    assert_eq!(game.solution.get(0, 0), Some(5));
    assert!(!game.place(0, 0, 3, show()));
    assert_eq!(game.current.get(0, 0), None);
    assert!(game.mistakes.has(0, 0, 3));
}

#[test]
fn wrong_digit_without_mistakes_shown() {
    let mut game = Game::new(all_but(0, 0)).unwrap();
    game.notes.set(0, 0, 2);
    let lenient = SetNumberOptions { is_hint: false, show_mistakes: false };
    assert!(!game.place(0, 0, 3, lenient));
    assert_eq!(game.current.get(0, 0), Some(3));
    assert!(!game.mistakes.has(0, 0, 3));
    assert!(!game.notes.has(0, 0, 2));
    assert!(!game.is_solved());
}

#[test]
fn placing_correct_digit_twice() {
    let mut game = Game::new(board(PUZZLE)).unwrap();
    assert!(game.place(2, 0, 4, show()));
    let once = game.current;
    assert!(game.place(2, 0, 4, show()));
    assert_eq!(game.current, once);
    assert_eq!(game.current.get(2, 0), Some(4));
}

#[test]
fn correct_digit_clears_peer_notes() {
    let mut game = Game::new(board(PUZZLE)).unwrap();
    game.notes.set(2, 0, 4);
    game.notes.set(2, 0, 1);
    game.notes.set(2, 4, 4);
    game.notes.set(5, 0, 4);
    game.notes.set(1, 1, 4);
    game.notes.set(3, 3, 4);
    game.notes.set(2, 4, 2);
    assert!(game.place(2, 0, 4, show()));
    assert!(!game.notes.has(2, 0, 1));
    assert!(!game.notes.has(2, 4, 4));
    assert!(!game.notes.has(5, 0, 4));
    assert!(!game.notes.has(1, 1, 4));
    assert!(game.notes.has(3, 3, 4));
    assert!(game.notes.has(2, 4, 2));
}

#[test]
fn solved_through_notes() {
    let mut game = Game::new(all_but(4, 0)).unwrap();
    assert!(!game.is_solved_through_notes());
    game.notes.set(4, 0, 7);
    assert!(game.is_solved_through_notes());
    assert!(!game.is_solved());
    game.notes.set(4, 0, 1);
    assert!(!game.is_solved_through_notes());
}

#[test]
fn snapshot_round_trip() {
    let mut game = Game::new(board(PUZZLE)).unwrap();
    game.place(2, 0, 4, show());
    game.notes.set(3, 0, 2);
    game.notes.set(3, 0, 6);
    let snap = SerializedGame::from_game(&game);
    let loaded = Game::from_serialized(snap).unwrap();
    assert_eq!(loaded.start, game.start);
    assert_eq!(loaded.current, game.current);
    assert_eq!(loaded.notes, game.notes);
    assert_eq!(loaded.solution, game.solution);
    assert_eq!(loaded.num_hints, 0);
    assert_eq!(loaded.mistakes, Notes::new());
}

#[test]
fn snapshot_errors() {
    let blank = SerializedGame { start: Sudoku::new(), current: Sudoku::new(), notes: Notes::new() };
    assert_eq!(Game::from_serialized(blank), Err(LoadError::NoUniqueSolution));
    let mut bad = SerializedGame::from_game(&Game::new(board(PUZZLE)).unwrap());
    bad.current.cells[3] = Some(12);
    assert_eq!(Game::from_serialized(bad), Err(LoadError::InvalidDigit));
}

#[test]
fn board_from_values() {
    let mut values: Vec<Option<u8>> = vec![None; 81];
    values[0] = Some(5);
    values[2] = Some(3);
    values[80] = Some(9);
    let s = Sudoku::from_values(&values).unwrap();
    assert_eq!(s.get(0, 0), Some(5));
    assert_eq!(s.get(1, 0), None);
    assert_eq!(s.get(2, 0), Some(3));
    assert_eq!(s.get(8, 8), Some(9));
    assert_eq!(s.cells.to_vec(), values);
    values[4] = Some(10);
    assert_eq!(Sudoku::from_values(&values), Err(LoadError::InvalidDigit));
    values[4] = Some(0);
    assert_eq!(Sudoku::from_values(&values), Err(LoadError::InvalidDigit));
    assert_eq!(Sudoku::from_values(&vec![Some(5), None, Some(3)]), Err(LoadError::WrongLength));
    assert_eq!(Sudoku::from_values(&vec![None; 82]), Err(LoadError::WrongLength));
    assert_eq!(Sudoku::from_values(&vec![]), Err(LoadError::WrongLength));
}

#[test]
fn board_values_round_trip() {
    let s = board(PUZZLE);
    assert_eq!(Sudoku::from_values(&s.cells.to_vec()), Ok(s));
}

#[test]
fn notes_from_values() {
    let mut values: Vec<u16> = vec![0; 81];
    values[0] = 3;
    values[2] = 256;
    let n = Notes::from_values(&values).unwrap();
    assert_eq!(n.cells[0], 3);
    assert_eq!(n.cells[2], 256);
    assert_eq!(n.cells[80], 0);
    assert_eq!(n.cells.to_vec(), values);
    assert_eq!(Notes::from_values(&vec![3, 0, 256]), Err(LoadError::WrongLength));
    assert_eq!(Notes::from_values(&vec![0; 82]), Err(LoadError::WrongLength));
}
