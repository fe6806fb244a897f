//! The two-state cell and the transition rule for a single cell.

use vstd::prelude::*;
use vstd::string::StringExecFns;

verus! {

/// One square of the board.
#[derive(Clone, Copy, Debug, PartialEq, Eq, Structural)]
pub enum Cell {
    Dead,
    Alive,
}

impl Cell {
    /// The other state.
    pub open spec fn flipped(self) -> Cell {
        match self {
            Cell::Dead => Cell::Alive,
            Cell::Alive => Cell::Dead,
        }
    }

    /// What this cell adds to a neighbour count: 1 if alive, 0 if dead.
    pub open spec fn population(self) -> nat {
        match self {
            Cell::Dead => 0,
            Cell::Alive => 1,
        }
    }

    /// The state of this cell in the next generation, given how many of
    /// its neighbours are alive now.
    ///
    /// A live cell survives with two or three live neighbours and dies
    /// otherwise; a dead cell comes alive with exactly three.
    pub open spec fn next(self, live_neighbors: nat) -> Cell {
        match self {
            Cell::Alive => if live_neighbors == 2 || live_neighbors == 3 {
                Cell::Alive
            } else {
                Cell::Dead
            },
            Cell::Dead => if live_neighbors == 3 {
                Cell::Alive
            } else {
                Cell::Dead
            },
        }
    }

    /// The cell drawn for a uniform 64-bit sample: alive exactly when the
    /// sample falls below the threshold.
    pub open spec fn of_sample(sample: u64, threshold: u64) -> Cell {
        if sample < threshold {
            Cell::Alive
        } else {
            Cell::Dead
        }
    }

    /// The character that stands for this cell in a rendered board.
    pub open spec fn glyph(self) -> char {
        match self {
            Cell::Dead => '◻',
            Cell::Alive => '◼',
        }
    }

    /// The text that names this cell's state.
    pub open spec fn description(self) -> Seq<char> {
        match self {
            Cell::Dead => "Cell: Dead"@,
            Cell::Alive => "Cell: Alive"@,
        }
    }

    /// The cell that a pattern byte stands for: `.` is dead, `O` is alive,
    /// and no other byte is a cell.
    pub open spec fn of_byte(byte: u8) -> Option<Cell> {
        if byte == 0x2e {
            Some(Cell::Dead)
        } else if byte == 0x4f {
            Some(Cell::Alive)
        } else {
            None
        }
    }

    /// The byte that stands for this cell in a pattern.
    pub open spec fn byte(self) -> u8 {
        match self {
            Cell::Dead => 0x2e,
            Cell::Alive => 0x4f,
        }
    }

    /// Flips the cell in place.
    pub fn toggle(&mut self)
        ensures
            *final(self) == old(self).flipped(),
    {
        *self = match *self {
            Cell::Dead => Cell::Alive,
            Cell::Alive => Cell::Dead,
        }
    }

    pub fn is_alive(self) -> (alive: bool)
        ensures
            alive == (self == Cell::Alive),
            self.population() == if alive { 1nat } else { 0nat },
    {
        match self {
            Cell::Dead => false,
            Cell::Alive => true,
        }
    }

    /// Applies the transition rule to one cell.
    pub fn evolve(self, live_neighbors: u8) -> (next: Cell)
        ensures
            next == self.next(live_neighbors as nat),
    {
        match self {
            Cell::Alive => if live_neighbors == 2 || live_neighbors == 3 {
                Cell::Alive
            } else {
                Cell::Dead
            },
            Cell::Dead => if live_neighbors == 3 {
                Cell::Alive
            } else {
                Cell::Dead
            },
        }
    }

    /// Turns one uniform 64-bit sample into a cell.
    pub fn from_sample(sample: u64, threshold: u64) -> (cell: Cell)
        ensures
            cell == Cell::of_sample(sample, threshold),
    {
        if sample < threshold {
            Cell::Alive
        } else {
            Cell::Dead
        }
    }

    /// Reads one pattern byte.
    pub fn from_byte(byte: u8) -> (cell: Option<Cell>)
        ensures
            cell == Cell::of_byte(byte),
    {
        if byte == 0x2e {
            Some(Cell::Dead)
        } else if byte == 0x4f {
            Some(Cell::Alive)
        } else {
            None
        }
    }

    /// The character drawn for this cell.
    pub fn to_glyph(self) -> (glyph: char)
        ensures
            glyph == self.glyph(),
    {
        match self {
            Cell::Dead => '◻',
            Cell::Alive => '◼',
        }
    }

    /// The cell's state as text, `Cell: Dead` or `Cell: Alive`.
    pub fn describe(&self) -> (text: String)
        ensures
            text@ == self.description(),
    {
        match self {
            Cell::Dead => String::from_str("Cell: Dead"),
            Cell::Alive => String::from_str("Cell: Alive"),
        }
    }
}

/// The transition rule, case by case.
pub proof fn lemma_transition_table(live_neighbors: nat)
    ensures
        live_neighbors < 2 ==> Cell::Alive.next(live_neighbors) == Cell::Dead,
        live_neighbors == 2 || live_neighbors == 3 ==> Cell::Alive.next(live_neighbors)
            == Cell::Alive,
        live_neighbors > 3 ==> Cell::Alive.next(live_neighbors) == Cell::Dead,
        live_neighbors == 3 ==> Cell::Dead.next(live_neighbors) == Cell::Alive,
        live_neighbors != 3 ==> Cell::Dead.next(live_neighbors) == Cell::Dead,
{
}

} // verus!
