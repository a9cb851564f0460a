use vstd::prelude::*;

use crate::grid::{get_pos, get_x_and_y_from_pos, is_digit, pos_spec};

verus! {

/// The bit that stands for digit `d` in a cell's mask.
pub open spec fn digit_bit(d: u8) -> u16 {
    1u16 << ((d - 1) as u16)
}

/// Whether mask `m` holds digit `d`.
pub open spec fn mask_has(m: u16, d: u8) -> bool {
    m & digit_bit(d) != 0
}

/// `d` is the one digit of 1 through 9 that mask `m` holds.
pub open spec fn single_digit(m: u16, d: u8) -> bool {
    &&& is_digit(d as int)
    &&& mask_has(m, d)
    &&& forall|e: u8| is_digit(e as int) && e != d ==> !#[trigger] mask_has(m, e)
}

/// The one digit that mask `m` holds, if it holds exactly one.
pub open spec fn only_number(m: u16) -> Option<u8> {
    if exists|d: u8| single_digit(m, d) {
        Some(choose|d: u8| single_digit(m, d))
    } else {
        None
    }
}

/// Digit `d` is noted at cell `p` in `prev` and no longer in `cur`.
pub open spec fn cleared(prev: Seq<u16>, cur: Seq<u16>, p: int, d: u8) -> bool {
    mask_has(prev[p], d) && !mask_has(cur[p], d)
}

proof fn lemma_bit_ops(m: u16, a: u16, b: u16)
    by (bit_vector)
    requires
        a < 9,
        b < 9,
    ensures
        ((m | (1u16 << a)) & (1u16 << b) != 0) == (a == b || m & (1u16 << b) != 0),
        ((m & !(1u16 << a)) & (1u16 << b) != 0) == (a != b && m & (1u16 << b) != 0),
        ((m ^ (1u16 << a)) & (1u16 << b) != 0) == (if a == b {
            m & (1u16 << b) == 0
        } else {
            m & (1u16 << b) != 0
        }),
        (0u16 & (1u16 << b)) == 0,
{
}

/// Setting, clearing or flipping the bit of `d` leaves the other digits of
/// the mask as they were.
proof fn lemma_masks(m: u16, d: u8)
    requires
        is_digit(d as int),
    ensures
        forall|e: u8|
            is_digit(e as int) ==> (#[trigger] mask_has(m | digit_bit(d), e)) == (e == d
                || mask_has(m, e)),
        forall|e: u8|
            is_digit(e as int) ==> (#[trigger] mask_has(m & !digit_bit(d), e)) == (e != d
                && mask_has(m, e)),
        forall|e: u8|
            is_digit(e as int) ==> (#[trigger] mask_has(m ^ digit_bit(d), e)) == (if e == d {
                !mask_has(m, e)
            } else {
                mask_has(m, e)
            }),
        forall|e: u8| is_digit(e as int) ==> !#[trigger] mask_has(0u16, e),
{
    assert forall|e: u8| is_digit(e as int) implies {
        &&& mask_has(m | digit_bit(d), e) == (e == d || mask_has(m, e))
        &&& mask_has(m & !digit_bit(d), e) == (e != d && mask_has(m, e))
        &&& mask_has(m ^ digit_bit(d), e) == (if e == d {
            !mask_has(m, e)
        } else {
            mask_has(m, e)
        })
        &&& !mask_has(0u16, e)
    } by {
        lemma_bit_ops(m, (d - 1) as u16, (e - 1) as u16);
    }
}

/// The bit of digit `d`.
fn bit(d: u8) -> (r: u16)
    requires
        is_digit(d as int),
    ensures
        r == digit_bit(d),
{
    1u16 << ((d - 1) as u16)
}

/// Per cell, the set of digits 1 through 9 written as candidates, one bit
/// per digit (bit `d - 1` for digit `d`).
#[derive(Clone, Copy, Debug, PartialEq, Eq)]
pub struct Notes {
    pub cells: [u16; 81],
}

impl View for Notes {
    type V = Seq<u16>;

    open spec fn view(&self) -> Seq<u16> {
        self.cells@
    }
}

impl Notes {
    /// Notes with no digit in any cell.
    pub fn new() -> (r: Notes)
        ensures
            forall|i: int| 0 <= i < 81 ==> (#[trigger] r@[i]) == 0,
    {
        Notes { cells: [0; 81] }
    }

    /// Whether digit `d` is noted at column `x` and row `y`.
    pub fn has(&self, x: u8, y: u8, d: u8) -> (r: bool)
        requires
            x < 9,
            y < 9,
            is_digit(d as int),
        ensures
            r == mask_has(self@[pos_spec(x as int, y as int)], d),
    {
        self.cells[get_pos(x, y)] & bit(d) != 0
    }

    /// Notes digit `d` at column `x` and row `y`.
    pub fn set(&mut self, x: u8, y: u8, d: u8)
        requires
            x < 9,
            y < 9,
            is_digit(d as int),
        ensures
            final(self)@ == old(self)@.update(
                pos_spec(x as int, y as int),
                old(self)@[pos_spec(x as int, y as int)] | digit_bit(d),
            ),
            forall|e: u8|
                is_digit(e as int) ==> #[trigger] mask_has(
                    final(self)@[pos_spec(x as int, y as int)],
                    e,
                ) == (e == d || mask_has(old(self)@[pos_spec(x as int, y as int)], e)),
    {
        let i = get_pos(x, y);
        proof {
            lemma_masks(self@[i as int], d);
        }
        self.cells[i] = self.cells[i] | bit(d);
    }

    /// Removes digit `d` from the notes at column `x` and row `y`.
    pub fn unset(&mut self, x: u8, y: u8, d: u8)
        requires
            x < 9,
            y < 9,
            is_digit(d as int),
        ensures
            final(self)@ == old(self)@.update(
                pos_spec(x as int, y as int),
                old(self)@[pos_spec(x as int, y as int)] & !digit_bit(d),
            ),
            forall|e: u8|
                is_digit(e as int) ==> #[trigger] mask_has(
                    final(self)@[pos_spec(x as int, y as int)],
                    e,
                ) == (e != d && mask_has(old(self)@[pos_spec(x as int, y as int)], e)),
    {
        let i = get_pos(x, y);
        proof {
            lemma_masks(self@[i as int], d);
        }
        self.cells[i] = self.cells[i] & !bit(d);
    }

    /// Flips digit `d` in the notes at column `x` and row `y`, and returns
    /// whether it is noted afterwards.
    pub fn toggle(&mut self, x: u8, y: u8, d: u8) -> (r: bool)
        requires
            x < 9,
            y < 9,
            is_digit(d as int),
        ensures
            final(self)@ == old(self)@.update(
                pos_spec(x as int, y as int),
                old(self)@[pos_spec(x as int, y as int)] ^ digit_bit(d),
            ),
            forall|e: u8|
                is_digit(e as int) ==> #[trigger] mask_has(
                    final(self)@[pos_spec(x as int, y as int)],
                    e,
                ) == if e == d {
                    !mask_has(old(self)@[pos_spec(x as int, y as int)], e)
                } else {
                    mask_has(old(self)@[pos_spec(x as int, y as int)], e)
                },
            r == mask_has(final(self)@[pos_spec(x as int, y as int)], d),
            r == !mask_has(old(self)@[pos_spec(x as int, y as int)], d),
    {
        let i = get_pos(x, y);
        proof {
            lemma_masks(self@[i as int], d);
        }
        self.cells[i] = self.cells[i] ^ bit(d);
        assert(mask_has(self@[i as int], d) == !mask_has(old(self)@[i as int], d));
        self.cells[i] & bit(d) != 0
    }

    /// Removes every note at column `x` and row `y`.
    pub fn clear(&mut self, x: u8, y: u8)
        requires
            x < 9,
            y < 9,
        ensures
            final(self)@ == old(self)@.update(pos_spec(x as int, y as int), 0u16),
            forall|e: u8|
                is_digit(e as int) ==> !#[trigger] mask_has(
                    final(self)@[pos_spec(x as int, y as int)],
                    e,
                ),
    {
        proof {
            lemma_masks(0u16, 1);
        }
        let i = get_pos(x, y);
        self.cells[i] = 0;
        assert(self@[i as int] == 0u16);
    }

    /// The digit noted at cell `index`, when it is the only one noted there.
    pub fn get_only_number(&self, index: usize) -> (r: Option<u8>)
        requires
            index < 81,
        ensures
            r == only_number(self@[index as int]),
            match r {
                Some(d) => single_digit(self@[index as int], d),
                None => forall|d: u8| !#[trigger] single_digit(self@[index as int], d),
            },
    {
        let m = self.cells[index];
        assert(m == self@[index as int]);
        let mut found: Option<u8> = None;
        let mut d: u8 = 1;
        while d <= 9
            invariant
                1 <= d <= 10,
                index < 81,
                m == self@[index as int],
                match found {
                    None => forall|e: u8| 1 <= e < d ==> !#[trigger] mask_has(m, e),
                    Some(f) => 1 <= f < d && mask_has(m, f) && forall|e: u8|
                        1 <= e < d && e != f ==> !#[trigger] mask_has(m, e),
                },
            decreases 10 - d,
        {
            if m & bit(d) != 0 {
                if let Some(f) = found {
                    assert forall|e: u8| !#[trigger] single_digit(m, e) by {
                        if single_digit(m, e) {
                            assert(mask_has(m, f) && mask_has(m, d));
                            assert(is_digit(f as int) && is_digit(d as int) && f != d);
                        }
                    }
                    assert(!exists|e: u8| single_digit(m, e));
                    assert(only_number(m) is None);
                    return None;
                }
                found = Some(d);
            }
            d += 1;
        }
        proof {
            match found {
                Some(f) => {
                    assert(single_digit(m, f));
                    let c = choose|c: u8| single_digit(m, c);
                    assert(c == f);
                },
                None => {
                    assert forall|e: u8| !#[trigger] single_digit(m, e) by {
                        if single_digit(m, e) {
                            assert(mask_has(m, e));
                        }
                    }
                },
            }
        }
        found
    }

    /// The `(x, y, d)` triples whose digit `d` is noted in `previous` and no
    /// longer here, in increasing order of cell and digit.
    pub fn get_cleared_since(&self, previous: &Notes) -> (r: Vec<(u8, u8, u8)>)
        ensures
            forall|t: (u8, u8, u8)|
                #![trigger r@.contains(t)]
                r@.contains(t) <==> (t.0 < 9 && t.1 < 9 && is_digit(t.2 as int) && cleared(
                    previous@,
                    self@,
                    pos_spec(t.0 as int, t.1 as int),
                    t.2,
                )),
    {
        let mut r: Vec<(u8, u8, u8)> = Vec::new();
        let mut p: usize = 0;
        while p < 81
            invariant
                p <= 81,
                forall|t: (u8, u8, u8)|
                    #![trigger r@.contains(t)]
                    r@.contains(t) <==> (t.0 < 9 && t.1 < 9 && is_digit(t.2 as int) && cleared(
                        previous@,
                        self@,
                        pos_spec(t.0 as int, t.1 as int),
                        t.2,
                    ) && pos_spec(t.0 as int, t.1 as int) < p),
            decreases 81 - p,
        {
            let (x, y) = get_x_and_y_from_pos(p);
            let mut d: u8 = 1;
            while d <= 9
                invariant
                    p < 81,
                    1 <= d <= 10,
                    x < 9,
                    y < 9,
                    pos_spec(x as int, y as int) == p,
                    forall|t: (u8, u8, u8)|
                        #![trigger r@.contains(t)]
                        r@.contains(t) <==> (t.0 < 9 && t.1 < 9 && is_digit(t.2 as int)
                            && cleared(previous@, self@, pos_spec(t.0 as int, t.1 as int), t.2)
                            && (pos_spec(t.0 as int, t.1 as int) < p || (pos_spec(
                            t.0 as int,
                            t.1 as int,
                        ) == p && t.2 < d))),
                decreases 10 - d,
            {
                let b = bit(d);
                if previous.cells[p] & b != 0 && self.cells[p] & b == 0 {
                    let ghost old_r = r@;
                    r.push((x, y, d));
                    proof {
                        assert forall|t: (u8, u8, u8)| #[trigger]
                            r@.contains(t) <==> (old_r.contains(t) || t == (x, y, d)) by {
                            if r@.contains(t) {
                                let k = choose|k: int| 0 <= k < r@.len() && r@[k] == t;
                                if k < old_r.len() {
                                    assert(old_r[k] == t);
                                }
                            }
                            if old_r.contains(t) {
                                let k = choose|k: int| 0 <= k < old_r.len() && old_r[k] == t;
                                assert(r@[k] == t);
                            }
                            if t == (x, y, d) {
                                assert(r@[old_r.len() as int] == t);
                            }
                        }
                    }
                }
                d += 1;
            }
            p += 1;
        }
        r
    }
}

} // verus!

verus! {

/// Removing the bit of `d` from a mask leaves `d` out of it.
pub proof fn lemma_unset_removes(m: u16, d: u8)
    requires
        is_digit(d as int),
    ensures
        !mask_has(m & !digit_bit(d), d),
{
    lemma_masks(m, d);
}

} // verus!

verus! {

proof fn lemma_one_of_nine_bits(m: u16, a: u16)
    by (bit_vector)
    requires
        a < 9,
    ensures
        (m & 511u16 == 1u16 << a) <==> (m & (1u16 << a) != 0 && (a == 0u16 || m & (1u16 << 0u16)
            == 0) && (a == 1u16 || m & (1u16 << 1u16) == 0) && (a == 2u16 || m & (1u16 << 2u16)
            == 0) && (a == 3u16 || m & (1u16 << 3u16) == 0) && (a == 4u16 || m & (1u16 << 4u16)
            == 0) && (a == 5u16 || m & (1u16 << 5u16) == 0) && (a == 6u16 || m & (1u16 << 6u16)
            == 0) && (a == 7u16 || m & (1u16 << 7u16) == 0) && (a == 8u16 || m & (1u16 << 8u16)
            == 0)),
{
}

/// A mask holds the single digit `d`, as `get_only_number` reports it,
/// exactly when its low nine bits are the bit of `d` alone.
pub proof fn lemma_only_number_bits(m: u16, d: u8)
    requires
        is_digit(d as int),
    ensures
        single_digit(m, d) <==> (m & 511u16 == digit_bit(d)),
        (only_number(m) == Some(d)) <==> (m & 511u16 == digit_bit(d)),
{
    lemma_one_of_nine_bits(m, (d - 1) as u16);
    assert(mask_has(m, 1u8) == (m & (1u16 << 0u16) != 0));
    assert(mask_has(m, 2u8) == (m & (1u16 << 1u16) != 0));
    assert(mask_has(m, 3u8) == (m & (1u16 << 2u16) != 0));
    assert(mask_has(m, 4u8) == (m & (1u16 << 3u16) != 0));
    assert(mask_has(m, 5u8) == (m & (1u16 << 4u16) != 0));
    assert(mask_has(m, 6u8) == (m & (1u16 << 5u16) != 0));
    assert(mask_has(m, 7u8) == (m & (1u16 << 6u16) != 0));
    assert(mask_has(m, 8u8) == (m & (1u16 << 7u16) != 0));
    assert(mask_has(m, 9u8) == (m & (1u16 << 8u16) != 0));
    if m & 511u16 == digit_bit(d) {
        assert forall|e: u8| is_digit(e as int) && e != d implies !#[trigger] mask_has(m, e) by {
            if e == 1 {
            } else if e == 2 {
            } else if e == 3 {
            } else if e == 4 {
            } else if e == 5 {
            } else if e == 6 {
            } else if e == 7 {
            } else if e == 8 {
            } else {
            }
        }
        assert(single_digit(m, d));
    }
    if single_digit(m, d) {
        let c = choose|c: u8| single_digit(m, c);
        if c != d {
            assert(mask_has(m, c));
        }
        assert(only_number(m) == Some(d));
    }
    if only_number(m) == Some(d) {
        assert(exists|c: u8| single_digit(m, c));
    }
}

} // verus!
