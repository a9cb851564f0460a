use vstd::prelude::*;

verus! {

/// A cell holds a digit from 1 through 9, or nothing.
pub type Cell = Option<u8>;

/// Linear index of the cell at column `x` and row `y`.
pub open spec fn pos_spec(x: int, y: int) -> int {
    y * 9 + x
}

/// Whether `d` is a digit that a cell may hold.
pub open spec fn is_digit(d: int) -> bool {
    1 <= d <= 9
}

/// Whether a cell holds nothing or a digit from 1 through 9.
pub open spec fn cell_ok(c: Cell) -> bool {
    match c {
        Some(d) => is_digit(d as int),
        None => true,
    }
}

/// A board of 81 cells, each of them empty or a digit.
pub open spec fn cells_ok(g: Seq<Cell>) -> bool {
    &&& g.len() == 81
    &&& forall|i: int| 0 <= i < 81 ==> #[trigger] cell_ok(g[i])
}

/// Cells `i` and `j` are distinct and share a row, a column or a 3x3 box.
pub open spec fn are_peers(i: int, j: int) -> bool {
    &&& 0 <= i < 81
    &&& 0 <= j < 81
    &&& i != j
    &&& (i / 9 == j / 9 || i % 9 == j % 9 || (i / 27 == j / 27 && (i % 9) / 3 == (j % 9) / 3))
}

/// No two peers hold the same digit.
pub open spec fn consistent(g: Seq<Cell>) -> bool {
    forall|i: int, j: int|
        #![trigger g[i], g[j]]
        are_peers(i, j) && g[i] is Some && g[j] is Some ==> g[i] != g[j]
}

/// Every cell holds a digit.
pub open spec fn is_full(g: Seq<Cell>) -> bool {
    forall|i: int| 0 <= i < 81 ==> (#[trigger] g[i]) is Some
}

/// `s` is a filled, valid board that keeps every digit given in `g`.
pub open spec fn is_completion(g: Seq<Cell>, s: Seq<Cell>) -> bool {
    &&& cells_ok(s)
    &&& is_full(s)
    &&& consistent(s)
    &&& forall|i: int| 0 <= i < 81 && (#[trigger] g[i]) is Some ==> s[i] == g[i]
}

/// `g` has exactly one completion.
pub open spec fn has_unique_completion(g: Seq<Cell>) -> bool {
    exists|s: Seq<Cell>|
        is_completion(g, s) && forall|t: Seq<Cell>| #[trigger] is_completion(g, t) ==> t == s
}

/// Some peer of cell `c` holds the digit `d`.
pub open spec fn digit_used(g: Seq<Cell>, c: int, d: int) -> bool {
    exists|j: int| are_peers(c, j) && #[trigger] g[j] == Some(d as u8)
}

/// How many of the digits 1 through `d` no peer of cell `c` holds.
pub open spec fn count_free(g: Seq<Cell>, c: int, d: int) -> nat
    decreases d,
{
    if d <= 0 {
        0
    } else {
        count_free(g, c, d - 1) + if digit_used(g, c, d) {
            0nat
        } else {
            1nat
        }
    }
}

/// How many digits cell `c` could still take without a clash with its peers.
pub open spec fn num_candidates(g: Seq<Cell>, c: int) -> nat {
    count_free(g, c, 9)
}

/// Linear index of the cell at column `x` and row `y`.
pub fn get_pos(x: u8, y: u8) -> (r: usize)
    requires
        x < 9,
        y < 9,
    ensures
        r == pos_spec(x as int, y as int),
        r < 81,
{
    (y as usize) * 9 + (x as usize)
}

/// Column and row of the cell at linear index `pos`.
pub fn get_x_and_y_from_pos(pos: usize) -> (r: (u8, u8))
    requires
        pos < 81,
    ensures
        r.0 < 9,
        r.1 < 9,
        pos_spec(r.0 as int, r.1 as int) == pos,
{
    ((pos % 9) as u8, (pos / 9) as u8)
}

/// Whether cells `i` and `j` are peers.
pub fn is_peer(i: usize, j: usize) -> (r: bool)
    requires
        i < 81,
        j < 81,
    ensures
        r == are_peers(i as int, j as int),
{
    i != j && (i / 9 == j / 9 || i % 9 == j % 9 || (i / 27 == j / 27 && (i % 9) / 3 == (j % 9)
        / 3))
}

/// The peers of the cell at column `x` and row `y`, as `(x, y)` pairs in
/// increasing linear order.
pub fn peers(x: u8, y: u8) -> (r: Vec<(u8, u8)>)
    requires
        x < 9,
        y < 9,
    ensures
        forall|k: int|
            0 <= k < r@.len() ==> #[trigger] r@[k].0 < 9 && r@[k].1 < 9 && are_peers(
                pos_spec(x as int, y as int),
                pos_spec(r@[k].0 as int, r@[k].1 as int),
            ),
        forall|j: int|
            are_peers(pos_spec(x as int, y as int), j) ==> exists|k: int|
                0 <= k < r@.len() && pos_spec(r@[k].0 as int, r@[k].1 as int) == j,
        forall|k: int, l: int|
            0 <= k < l < r@.len() ==> pos_spec(r@[k].0 as int, r@[k].1 as int) < pos_spec(
                r@[l].0 as int,
                r@[l].1 as int,
            ),
{
    let c = get_pos(x, y);
    let mut r: Vec<(u8, u8)> = Vec::new();
    let mut j: usize = 0;
    while j < 81
        invariant
            c == pos_spec(x as int, y as int),
            c < 81,
            j <= 81,
            forall|k: int|
                0 <= k < r@.len() ==> #[trigger] r@[k].0 < 9 && r@[k].1 < 9 && are_peers(
                    c as int,
                    pos_spec(r@[k].0 as int, r@[k].1 as int),
                ) && pos_spec(r@[k].0 as int, r@[k].1 as int) < j,
            forall|i: int|
                0 <= i < j && are_peers(c as int, i) ==> exists|k: int|
                    0 <= k < r@.len() && pos_spec(r@[k].0 as int, r@[k].1 as int) == i,
            forall|k: int, l: int|
                0 <= k < l < r@.len() ==> pos_spec(r@[k].0 as int, r@[k].1 as int) < pos_spec(
                    r@[l].0 as int,
                    r@[l].1 as int,
                ),
        decreases 81 - j,
    {
        let ghost old_r = r@;
        if is_peer(c, j) {
            let p = get_x_and_y_from_pos(j);
            r.push(p);
        }
        proof {
            assert forall|i: int|
                0 <= i < j + 1 && are_peers(c as int, i) implies exists|k: int|
                    0 <= k < r@.len() && pos_spec(r@[k].0 as int, r@[k].1 as int) == i by {
                if i < j {
                    let k = choose|k: int|
                        0 <= k < old_r.len() && pos_spec(old_r[k].0 as int, old_r[k].1 as int)
                            == i;
                    assert(r@[k] == old_r[k]);
                } else {
                    let n = r@.len() - 1;
                    assert(pos_spec(r@[n].0 as int, r@[n].1 as int) == i);
                }
            }
        }
        j += 1;
    }
    r
}

/// A 9x9 board: cell `(x, y)` is stored at index `y * 9 + x`.
#[derive(Clone, Copy, Debug, PartialEq, Eq)]
pub struct Sudoku {
    pub cells: [Cell; 81],
}

impl View for Sudoku {
    type V = Seq<Cell>;

    open spec fn view(&self) -> Seq<Cell> {
        self.cells@
    }
}

impl Sudoku {
    /// Every cell is empty or a digit from 1 through 9.
    pub open spec fn wf(&self) -> bool {
        cells_ok(self@)
    }

    /// The board with every cell empty.
    pub fn new() -> (r: Sudoku)
        ensures
            r.wf(),
            forall|i: int| 0 <= i < 81 ==> (#[trigger] r@[i]) is None,
    {
        Sudoku { cells: [None; 81] }
    }

    /// The digit at column `x` and row `y`, if any.
    pub fn get(&self, x: u8, y: u8) -> (r: Cell)
        requires
            x < 9,
            y < 9,
        ensures
            r == self@[pos_spec(x as int, y as int)],
    {
        self.cells[get_pos(x, y)]
    }

    /// Whether the cell at column `x` and row `y` holds a digit.
    pub fn has(&self, x: u8, y: u8) -> (r: bool)
        requires
            x < 9,
            y < 9,
        ensures
            r == self@[pos_spec(x as int, y as int)] is Some,
    {
        self.cells[get_pos(x, y)].is_some()
    }

    /// A copy of the board with digit `d` at column `x` and row `y`.
    pub fn set(&self, x: u8, y: u8, d: u8) -> (r: Sudoku)
        requires
            x < 9,
            y < 9,
            is_digit(d as int),
        ensures
            r@ == self@.update(pos_spec(x as int, y as int), Some(d)),
            self.wf() ==> r.wf(),
    {
        let mut r = *self;
        r.cells[get_pos(x, y)] = Some(d);
        r
    }

    /// A copy of the board with the cell at column `x` and row `y` emptied.
    pub fn unset(&self, x: u8, y: u8) -> (r: Sudoku)
        requires
            x < 9,
            y < 9,
        ensures
            r@ == self@.update(pos_spec(x as int, y as int), None),
            self.wf() ==> r.wf(),
    {
        let mut r = *self;
        r.cells[get_pos(x, y)] = None;
        r
    }

    /// Whether every cell holds a digit.
    pub fn is_full(&self) -> (r: bool)
        ensures
            r == is_full(self@),
    {
        let mut i: usize = 0;
        while i < 81
            invariant
                i <= 81,
                forall|k: int| 0 <= k < i ==> (#[trigger] self@[k]) is Some,
            decreases 81 - i,
        {
            if self.cells[i].is_none() {
                return false;
            }
            i += 1;
        }
        true
    }

    /// Whether no two peers hold the same digit.
    pub fn is_consistent(&self) -> (r: bool)
        ensures
            r == consistent(self@),
    {
        let mut i: usize = 0;
        while i < 81
            invariant
                i <= 81,
                forall|a: int, b: int|
                    #![trigger self@[a], self@[b]]
                    0 <= a < i && are_peers(a, b) && self@[a] is Some && self@[b] is Some
                        ==> self@[a] != self@[b],
            decreases 81 - i,
        {
            let mut j: usize = 0;
            while j < 81
                invariant
                    i < 81,
                    j <= 81,
                    forall|a: int, b: int|
                        #![trigger self@[a], self@[b]]
                        0 <= a < i && are_peers(a, b) && self@[a] is Some && self@[b] is Some
                            ==> self@[a] != self@[b],
                    forall|b: int|
                        #![trigger self@[b]]
                        0 <= b < j && are_peers(i as int, b) && self@[i as int] is Some
                            && self@[b] is Some ==> self@[i as int] != self@[b],
                decreases 81 - j,
            {
                if is_peer(i, j) && self.cells[i].is_some() && self.cells[i] == self.cells[j] {
                    return false;
                }
                j += 1;
            }
            i += 1;
        }
        true
    }

    /// Whether the board is filled and no two peers hold the same digit.
    pub fn is_solved(&self) -> (r: bool)
        ensures
            r == (is_full(self@) && consistent(self@)),
    {
        self.is_full() && self.is_consistent()
    }
}

/// Which digits the peers of cell `c` hold: entry `d` is set iff some peer
/// holds `d`.
pub fn used_digits(g: &Sudoku, c: usize) -> (r: [bool; 10])
    requires
        c < 81,
        g.wf(),
    ensures
        forall|d: int| 1 <= d <= 9 ==> r@[d] == digit_used(g@, c as int, d),
{
    let mut used = [false; 10];
    let mut j: usize = 0;
    while j < 81
        invariant
            j <= 81,
            c < 81,
            g.wf(),
            forall|d: int|
                1 <= d <= 9 ==> #[trigger] used@[d] == exists|k: int|
                    0 <= k < j && are_peers(c as int, k) && #[trigger] g@[k] == Some(d as u8),
        decreases 81 - j,
    {
        let ghost old_used = used@;
        if is_peer(c, j) {
            if let Some(v) = g.cells[j] {
                assert(cell_ok(g@[j as int]));
                used[v as usize] = true;
            }
        }
        proof {
            assert forall|d: int| 1 <= d <= 9 implies #[trigger] used@[d] == exists|k: int|
                0 <= k < j + 1 && are_peers(c as int, k) && #[trigger] g@[k] == Some(d as u8) by {
                if exists|k: int|
                    0 <= k < j + 1 && are_peers(c as int, k) && #[trigger] g@[k] == Some(d as u8) {
                    let k = choose|k: int|
                        0 <= k < j + 1 && are_peers(c as int, k) && #[trigger] g@[k] == Some(
                            d as u8,
                        );
                    if k < j {
                        assert(old_used[d]);
                    }
                }
            }
        }
        j += 1;
    }
    used
}

/// How many digits cell `c` could take without a clash with its peers.
pub fn count_candidates(g: &Sudoku, c: usize) -> (r: u8)
    requires
        c < 81,
        g.wf(),
    ensures
        r == num_candidates(g@, c as int),
        r <= 9,
{
    let used = used_digits(g, c);
    let mut n: u8 = 0;
    let mut d: usize = 1;
    while d <= 9
        invariant
            1 <= d <= 10,
            n == count_free(g@, c as int, d - 1),
            n < d,
            forall|e: int| 1 <= e <= 9 ==> used@[e] == digit_used(g@, c as int, e),
        decreases 10 - d,
    {
        if !used[d] {
            n += 1;
        }
        d += 1;
    }
    n
}

} // verus!
