use vstd::prelude::*;

use crate::grid::{
    cells_ok, consistent, count_candidates, digit_used, has_unique_completion, is_completion,
    is_full, used_digits, Cell, Sudoku,
};

verus! {

/// Number of empty cells.
pub open spec fn num_empty(g: Seq<Cell>) -> nat
    decreases g.len(),
{
    if g.len() == 0 {
        0
    } else {
        num_empty(g.drop_last()) + if g.last() is None {
            1nat
        } else {
            0nat
        }
    }
}

proof fn lemma_num_empty_fill(g: Seq<Cell>, i: int, v: Cell)
    requires
        0 <= i < g.len(),
        g[i] is None,
        v is Some,
    ensures
        num_empty(g.update(i, v)) + 1 == num_empty(g),
    decreases g.len(),
{
    let h = g.update(i, v);
    if i == g.len() - 1 {
        assert(h.drop_last() =~= g.drop_last());
    } else {
        assert(h.drop_last() =~= g.drop_last().update(i, v));
        lemma_num_empty_fill(g.drop_last(), i, v);
    }
}

/// Filling an empty cell with a digit that no peer holds keeps the board
/// consistent.
proof fn lemma_fill_consistent(g: Seq<Cell>, c: int, d: u8)
    requires
        cells_ok(g),
        consistent(g),
        0 <= c < 81,
        g[c] is None,
        !digit_used(g, c, d as int),
    ensures
        consistent(g.update(c, Some(d))),
{
    let h = g.update(c, Some(d));
    assert forall|i: int, j: int|
        #![trigger h[i], h[j]]
        crate::grid::are_peers(i, j) && h[i] is Some && h[j] is Some implies h[i] != h[j] by {
        if i == c {
            if h[j] == Some(d) {
                assert(crate::grid::are_peers(c, j) && g[j] == Some(d as u8));
            }
        } else if j == c {
            if h[i] == Some(d) {
                assert(crate::grid::are_peers(c, i) && g[i] == Some(d as u8));
            }
        } else {
            assert(g[i] == h[i] && g[j] == h[j]);
        }
    }
}

/// The completions of `g` that put `d` in the empty cell `c` are exactly
/// the completions of `g` with `d` written there.
proof fn lemma_fill_completions(g: Seq<Cell>, c: int, d: u8, t: Seq<Cell>)
    requires
        g.len() == 81,
        0 <= c < 81,
        g[c] is None,
    ensures
        is_completion(g.update(c, Some(d)), t) <==> (is_completion(g, t) && t[c] == Some(d)),
{
    let h = g.update(c, Some(d));
    if is_completion(h, t) {
        assert(h[c] is Some);
        assert forall|i: int| 0 <= i < 81 && (#[trigger] g[i]) is Some implies t[i] == g[i] by {
            assert(h[i] == g[i]);
        }
    }
    if is_completion(g, t) && t[c] == Some(d) {
        assert forall|i: int| 0 <= i < 81 && (#[trigger] h[i]) is Some implies t[i] == h[i] by {
            if i != c {
                assert(h[i] == g[i]);
            }
        }
    }
}

/// No completion puts a digit in cell `c` that a given peer already holds.
proof fn lemma_used_blocks(g: Seq<Cell>, c: int, d: u8, t: Seq<Cell>)
    requires
        digit_used(g, c, d as int),
        is_completion(g, t),
    ensures
        t[c] != Some(d),
{
    let j = choose|j: int| crate::grid::are_peers(c, j) && #[trigger] g[j] == Some(d as u8);
    assert(t[j] == g[j]);
}

/// What a search found: no completion, exactly one, or two distinct ones.
enum Search {
    NoSolution,
    One(Sudoku),
    Several(Sudoku, Sudoku),
}

spec fn search_post(g: Seq<Cell>, r: Search) -> bool {
    match r {
        Search::NoSolution => forall|t: Seq<Cell>| !is_completion(g, t),
        Search::One(s) => is_completion(g, s@) && forall|t: Seq<Cell>|
            #[trigger] is_completion(g, t) ==> t == s@,
        Search::Several(a, b) => is_completion(g, a@) && is_completion(g, b@) && a@ != b@,
    }
}

/// The empty cell with the fewest candidates (the first such in linear
/// order), or `None` when the board is full. A cell with one candidate is
/// thus filled without branching, and one with none ends the branch at once.
fn pick_cell(g: &Sudoku) -> (r: Option<usize>)
    requires
        g.wf(),
    ensures
        match r {
            Some(c) => c < 81 && g@[c as int] is None,
            None => is_full(g@),
        },
{
    let mut best: Option<usize> = None;
    let mut best_count: u8 = 10;
    let mut i: usize = 0;
    while i < 81
        invariant
            i <= 81,
            g.wf(),
            best is None ==> best_count == 10,
            match best {
                Some(c) => c < 81 && g@[c as int] is None,
                None => forall|k: int| 0 <= k < i ==> (#[trigger] g@[k]) is Some,
            },
        decreases 81 - i,
    {
        if g.cells[i].is_none() {
            let n = count_candidates(g, i);
            if n < best_count {
                best = Some(i);
                best_count = n;
                if n <= 1 {
                    return best;
                }
            }
        }
        i += 1;
    }
    best
}

/// Depth-first search for completions of a consistent board, stopping at
/// the second one found.
fn search(g: Sudoku) -> (r: Search)
    requires
        g.wf(),
        consistent(g@),
    ensures
        search_post(g@, r),
    decreases num_empty(g@),
{
    match pick_cell(&g) {
        None => {
            proof {
                assert(is_completion(g@, g@));
                assert forall|t: Seq<Cell>| #[trigger] is_completion(g@, t) implies t == g@ by {
                    assert(t =~= g@);
                }
            }
            Search::One(g)
        },
        Some(c) => {
            let used = used_digits(&g, c);
            let mut found: Option<Sudoku> = None;
            let mut d: u8 = 1;
            proof {
                assert forall|t: Seq<Cell>| #[trigger] is_completion(g@, t) implies t[c
                    as int]->0 >= 1 by {
                    assert(crate::grid::cell_ok(t[c as int]));
                }
            }
            while d <= 9
                invariant
                    1 <= d <= 10,
                    c < 81,
                    g.wf(),
                    consistent(g@),
                    g@[c as int] is None,
                    forall|e: int| 1 <= e <= 9 ==> used@[e] == digit_used(g@, c as int, e),
                    match found {
                        None => forall|t: Seq<Cell>|
                            #[trigger] is_completion(g@, t) ==> t[c as int]->0 >= d,
                        Some(s) => is_completion(g@, s@) && s@[c as int]->0 < d && forall|
                            t: Seq<Cell>,
                        |
                            #[trigger] is_completion(g@, t) ==> t[c as int]->0 >= d || t == s@,
                    },
                decreases 10 - d,
            {
                let ghost gg = g@;
                if !used[d as usize] {
                    let mut h = g;
                    h.cells[c] = Some(d);
                    proof {
                        assert(h@ == gg.update(c as int, Some(d)));
                        lemma_num_empty_fill(gg, c as int, Some(d));
                        lemma_fill_consistent(gg, c as int, d);
                        assert forall|t: Seq<Cell>| #[trigger]
                            is_completion(h@, t) <==> (is_completion(gg, t) && t[c as int]
                                == Some(d)) by {
                            lemma_fill_completions(gg, c as int, d, t);
                        }
                    }
                    let r = search(h);
                    match r {
                        Search::NoSolution => {
                            proof {
                                assert forall|t: Seq<Cell>| #[trigger]
                                    is_completion(gg, t) implies t[c as int] != Some(d) by {
                                    if t[c as int] == Some(d) {
                                        assert(is_completion(h@, t));
                                    }
                                }
                            }
                        },
                        Search::One(s) => {
                            match found {
                                None => {
                                    proof {
                                        assert(s@[c as int] == Some(d));
                                        assert forall|t: Seq<Cell>| #[trigger]
                                            is_completion(gg, t) implies t[c as int] != Some(d)
                                            || t == s@ by {
                                            if t[c as int] == Some(d) {
                                                assert(is_completion(h@, t));
                                            }
                                        }
                                    }
                                    found = Some(s);
                                },
                                Some(s0) => {
                                    assert(s0@[c as int] != s@[c as int]);
                                    return Search::Several(s0, s);
                                },
                            }
                        },
                        Search::Several(a, b) => {
                            return Search::Several(a, b);
                        },
                    }
                } else {
                    proof {
                        assert forall|t: Seq<Cell>| #[trigger]
                            is_completion(gg, t) implies t[c as int] != Some(d) by {
                            lemma_used_blocks(gg, c as int, d, t);
                        }
                    }
                }
                proof {
                    assert forall|t: Seq<Cell>| #[trigger] is_completion(gg, t) implies t[c
                        as int]->0 != d || t[c as int] == Some(d) by {
                        assert(crate::grid::cell_ok(t[c as int]));
                    }
                }
                d += 1;
            }
            proof {
                assert forall|t: Seq<Cell>| #[trigger] is_completion(g@, t) implies t[c
                    as int]->0 <= 9 by {
                    assert(crate::grid::cell_ok(t[c as int]));
                }
            }
            match found {
                None => Search::NoSolution,
                Some(s) => Search::One(s),
            }
        },
    }
}

impl Sudoku {
    /// The one completion of this board, or `None` when it has none or
    /// several.
    pub fn find_unique_solution(&self) -> (r: Option<Sudoku>)
        requires
            self.wf(),
        ensures
            r is Some <==> has_unique_completion(self@),
            match r {
                Some(s) => is_completion(self@, s@) && forall|t: Seq<Cell>|
                    #[trigger] is_completion(self@, t) ==> t == s@,
                None => true,
            },
    {
        if !self.is_consistent() {
            proof {
                let g = self@;
                assert forall|t: Seq<Cell>| !is_completion(g, t) by {
                    let (i, j) = choose|i: int, j: int|
                        #![trigger g[i], g[j]]
                        crate::grid::are_peers(i, j) && g[i] is Some && g[j] is Some && g[i]
                            == g[j];
                    if is_completion(g, t) {
                        assert(t[i] == g[i] && t[j] == g[j]);
                    }
                }
            }
            return None;
        }
        match search(*self) {
            Search::One(s) => Some(s),
            Search::NoSolution => None,
            Search::Several(a, b) => {
                proof {
                    if has_unique_completion(self@) {
                        let s = choose|s: Seq<Cell>|
                            is_completion(self@, s) && forall|t: Seq<Cell>|
                                #[trigger] is_completion(self@, t) ==> t == s;
                        assert(a@ == s && b@ == s);
                    }
                }
                None
            },
        }
    }
}

} // verus!
