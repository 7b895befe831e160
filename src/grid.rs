//! The result grid: every (draws, have, need) cell, estimated where valid.
use vstd::prelude::*;

use crate::estimate::{count_wins, possible_wins};
use crate::validity::{is_valid_case, valid_case};
use crate::{MAX_DRAWS, OUTCOMES};

verus! {

/// Number of cells: draws from zero to the maximum, have and need each over
/// the outcome space.
pub const GRID_CELLS: usize = (MAX_DRAWS + 1) * OUTCOMES * OUTCOMES;

/// The draw count of cell `i`; cells are laid out draws-major, then have,
/// then need.
pub open spec fn draws_at(i: int) -> int {
    i / (OUTCOMES * OUTCOMES) as int
}

/// The owned count of cell `i`.
pub open spec fn have_at(i: int) -> int {
    (i / OUTCOMES as int) % OUTCOMES as int
}

/// The needed count of cell `i`.
pub open spec fn need_at(i: int) -> int {
    i % OUTCOMES as int
}

/// What a cell holds: nothing for an invalid triple, and for a valid one the
/// win count of `count` trials of that triple.
pub open spec fn cell_result(r: Option<usize>, draws: nat, have: nat, need: nat, count: nat) -> bool {
    &&& r.is_none() <==> !valid_case(draws, have, need)
    &&& r matches Some(w) ==> w <= count && possible_wins(w as nat, draws, have, need, count)
}

/// The (draws, have, need) coordinates of cell `i`.
pub fn cell_coordinates(i: usize) -> (c: (usize, usize, usize))
    ensures
        c.0 == draws_at(i as int),
        c.1 == have_at(i as int),
        c.2 == need_at(i as int),
{
    (i / (OUTCOMES * OUTCOMES), (i / OUTCOMES) % OUTCOMES, i % OUTCOMES)
}

/// Estimates one cell: skips an invalid triple, and otherwise runs `count`
/// trials of it.
pub fn cell_wins(draws: usize, have: usize, need: usize, count: usize) -> (r: Option<usize>)
    ensures
        cell_result(r, draws as nat, have as nat, need as nat, count as nat),
{
    if !is_valid_case(draws, have, need) {
        None
    } else {
        Some(count_wins(draws, have, need, count))
    }
}

/// Fills the whole grid, one cell after another, with `count` trials for
/// each valid triple.
pub fn grid_wins(count: usize) -> (grid: Vec<Option<usize>>)
    ensures
        grid@.len() == GRID_CELLS,
        forall|i: int|
            0 <= i < GRID_CELLS ==> cell_result(
                #[trigger] grid@[i],
                draws_at(i) as nat,
                have_at(i) as nat,
                need_at(i) as nat,
                count as nat,
            ),
{
    let mut grid: Vec<Option<usize>> = Vec::with_capacity(GRID_CELLS);
    for i in 0..GRID_CELLS
        invariant
            grid@.len() == i,
            forall|j: int|
                0 <= j < i ==> cell_result(
                    #[trigger] grid@[j],
                    draws_at(j) as nat,
                    have_at(j) as nat,
                    need_at(j) as nat,
                    count as nat,
                ),
    {
        let (draws, have, need) = cell_coordinates(i);
        let cell = cell_wins(draws, have, need, count);
        grid.push(cell);
    }
    grid
}

} // verus!
