//! Placing a pattern on the board.
//!
//! A stamp writes the cells of a pattern onto the board one by one, row
//! after row and left to right within a row. Every target position is
//! wrapped, so a pattern that reaches over an edge comes back in on the
//! other side, and one that is larger than the board writes over itself:
//! the cell written last stays.

use vstd::prelude::*;
use crate::cell::Cell;
use crate::grid::{lemma_index_wrapped_in_range, Grid};

verus! {

/// The width by which a pattern is centred: the length of its first row.
pub open spec fn pattern_width(pattern: Seq<Seq<Cell>>) -> nat {
    if pattern.len() == 0 {
        0
    } else {
        pattern[0].len()
    }
}

/// Every row of the pattern is as long as the first one.
pub open spec fn is_rectangular(pattern: Seq<Seq<Cell>>) -> bool {
    forall|r: int| 0 <= r < pattern.len() ==> (#[trigger] pattern[r]).len() == pattern_width(pattern)
}

/// The coordinate at which a stamp starts along one axis. An anchor that
/// is the pattern's corner is the start itself; an anchor that is the
/// pattern's centre lies half the pattern's extent, rounded up, further
/// on.
pub open spec fn stamp_origin(anchor: int, extent: nat, centered: bool) -> int {
    if centered {
        anchor - (extent + 1) / 2
    } else {
        anchor
    }
}

impl Grid {
    /// The board after the first `n` cells of `row` are written from
    /// `(x, y)` rightwards.
    pub open spec fn stamp_row(self, row: Seq<Cell>, x: int, y: int, n: nat) -> Grid
        decreases n,
    {
        if n == 0 {
            self
        } else {
            self.stamp_row(row, x, y, (n - 1) as nat).write(x + n - 1, y, row[n - 1])
        }
    }

    /// The board after the first `m` rows of `pattern` are written, the
    /// first of them from `(x, y)` rightwards and each further one a row
    /// below the last.
    pub open spec fn stamp_rows(self, pattern: Seq<Seq<Cell>>, x: int, y: int, m: nat) -> Grid
        decreases m,
    {
        if m == 0 {
            self
        } else {
            self.stamp_rows(pattern, x, y, (m - 1) as nat).stamp_row(
                pattern[m - 1],
                x,
                y + m - 1,
                pattern[m - 1].len(),
            )
        }
    }

    /// The board with `pattern` stamped at the anchor, which is the
    /// pattern's top left corner or, if `centered`, its centre.
    pub open spec fn stamped(
        self,
        pattern: Seq<Seq<Cell>>,
        anchor_x: int,
        anchor_y: int,
        centered: bool,
    ) -> Grid {
        self.stamp_rows(
            pattern,
            stamp_origin(anchor_x, pattern_width(pattern), centered),
            stamp_origin(anchor_y, pattern.len(), centered),
            pattern.len(),
        )
    }
}

/// Writing a cell keeps the board's size.
pub proof fn lemma_write_preserves_shape(g: Grid, x: int, y: int, cell: Cell)
    requires
        g.wf(),
    ensures
        g.write(x, y, cell).wf(),
        g.write(x, y, cell).width == g.width,
        g.write(x, y, cell).height == g.height,
{
    lemma_index_wrapped_in_range(g, x, y);
}

/// Stamping part of a row keeps the board's size.
pub proof fn lemma_stamp_row_preserves_shape(g: Grid, row: Seq<Cell>, x: int, y: int, n: nat)
    requires
        g.wf(),
    ensures
        g.stamp_row(row, x, y, n).wf(),
        g.stamp_row(row, x, y, n).width == g.width,
        g.stamp_row(row, x, y, n).height == g.height,
    decreases n,
{
    if n > 0 {
        lemma_stamp_row_preserves_shape(g, row, x, y, (n - 1) as nat);
        lemma_write_preserves_shape(g.stamp_row(row, x, y, (n - 1) as nat), x + n - 1, y, row[n - 1]);
    }
}

/// Stamping rows keeps the board's size.
pub proof fn lemma_stamp_rows_preserves_shape(
    g: Grid,
    pattern: Seq<Seq<Cell>>,
    x: int,
    y: int,
    m: nat,
)
    requires
        g.wf(),
    ensures
        g.stamp_rows(pattern, x, y, m).wf(),
        g.stamp_rows(pattern, x, y, m).width == g.width,
        g.stamp_rows(pattern, x, y, m).height == g.height,
    decreases m,
{
    if m > 0 {
        lemma_stamp_rows_preserves_shape(g, pattern, x, y, (m - 1) as nat);
        lemma_stamp_row_preserves_shape(
            g.stamp_rows(pattern, x, y, (m - 1) as nat),
            pattern[m - 1],
            x,
            y + m - 1,
            pattern[m - 1].len(),
        );
    }
}

/// The coordinate `anchor + forward - back` wrapped into `0..size`.
pub fn wrap_coordinate(anchor: u32, forward: usize, back: usize, size: u32) -> (wrapped: u32)
    requires
        size >= 1,
    ensures
        wrapped == (anchor + forward - back) % (size as int),
        wrapped < size,
{
    let m = size as u64;
    let a = anchor as u64 % m;
    let f = (forward % (size as usize)) as u64;
    let b = (back % (size as usize)) as u64;
    proof {
        let mi = size as int;
        let total = anchor + forward - back;
        vstd::arithmetic::div_mod::lemma_add_mod_noop(anchor as int, forward as int, mi);
        vstd::arithmetic::div_mod::lemma_sub_mod_noop(anchor + forward, back as int, mi);
        vstd::arithmetic::div_mod::lemma_sub_mod_noop(a + f, b as int, mi);
        vstd::arithmetic::div_mod::lemma_small_mod(b as nat, mi as nat);
        vstd::arithmetic::div_mod::lemma_mod_twice(a + f, mi);
        vstd::arithmetic::div_mod::lemma_mod_add_multiples_vanish(a + f - b, mi);
        vstd::arithmetic::div_mod::lemma_mod_bound(a + f + (m - b), mi);
        assert((a + f) % (m as int) == (anchor + forward) % mi);
        assert((a + f - b) % mi == total % mi);
        assert(a + f + (m - b) == mi + (a + f - b));
    }
    ((a + f + (m - b)) % m) as u32
}

/// Half of `extent`, rounded up.
pub fn half_up(extent: usize) -> (half: usize)
    ensures
        half == (extent + 1) / 2,
{
    extent / 2 + extent % 2
}

} // verus!
