//! The mathematical model of a minefield: a map from cells to spot states,
//! and what each move of the game makes of it.

use crate::spot::{FlagToggleResult, SpotState, StepResult};
use vstd::prelude::*;

verus! {

/// A minefield as a mathematical value. A cell is a pair `(x, y)` of a column
/// and a row; `(0, 0)` is the top-left cell.
pub struct Grid {
    /// Number of columns.
    pub width: int,
    /// Number of rows.
    pub height: int,
    /// The number of mines the field was asked to hold.
    pub mines: int,
    /// The state of every cell of the field.
    pub spots: Map<(int, int), SpotState>,
}

/// Two distinct cells touch: they are at most one column and one row apart.
pub open spec fn adjacent(a: (int, int), b: (int, int)) -> bool {
    a != b && -1 <= a.0 - b.0 <= 1 && -1 <= a.1 - b.1 <= 1
}

/// The nine cells of the 3×3 block centered on `c`, column by column, each
/// column from top to bottom.
pub open spec fn block(c: (int, int)) -> Seq<(int, int)> {
    Seq::new(9, |k: int| (c.0 - 1 + k / 3, c.1 - 1 + k % 3))
}

impl Grid {
    /// The cell lies on the grid.
    pub open spec fn in_bounds(self, c: (int, int)) -> bool {
        0 <= c.0 < self.width && 0 <= c.1 < self.height
    }

    /// The field of the given size with every spot hidden, empty and far from
    /// any mine.
    pub open spec fn empty(width: int, height: int) -> Grid {
        Grid {
            width,
            height,
            mines: 0,
            spots: Map::new(
                |c: (int, int)| 0 <= c.0 < width && 0 <= c.1 < height,
                |c: (int, int)| SpotState::HiddenEmpty { neighboring_mines: 0 },
            ),
        }
    }

    /// The cell that holds the `i`-th spot when the spots are counted row
    /// after row from the top, each row from the left.
    pub open spec fn cell_at(self, i: int) -> (int, int) {
        (i % self.width, i / self.width)
    }

    /// The same field asked to hold another number of mines.
    pub open spec fn asked_for(self, mines: int) -> Grid {
        Grid { mines, ..self }
    }

    /// The same field with the state of one cell replaced.
    pub open spec fn with_spot(self, c: (int, int), state: SpotState) -> Grid {
        Grid { spots: self.spots.insert(c, state), ..self }
    }

    /// The test that picks the cells of the grid other than `c`.
    pub open spec fn other_than(self, c: (int, int)) -> spec_fn((int, int)) -> bool {
        |n: (int, int)| self.in_bounds(n) && n != c
    }

    /// The test that picks the cells of the grid that hold a mine.
    pub open spec fn holds_mine(self) -> spec_fn((int, int)) -> bool {
        |n: (int, int)| self.in_bounds(n) && self.spots[n].is_mine()
    }

    /// The test that picks the cells of the grid that carry a flag.
    pub open spec fn holds_flag(self) -> spec_fn((int, int)) -> bool {
        |n: (int, int)| self.in_bounds(n) && self.spots[n].is_flagged()
    }

    /// The neighbors of `c`: the cells of its 3×3 block that lie on the grid,
    /// without `c` itself, in the order of the block.
    pub open spec fn neighbors(self, c: (int, int)) -> Seq<(int, int)> {
        block(c).filter(self.other_than(c))
    }

    /// How many neighbors of `c` hold a mine.
    pub open spec fn mines_around(self, c: (int, int)) -> nat {
        self.neighbors(c).filter(self.holds_mine()).len()
    }

    /// How many neighbors of `c` carry a flag.
    pub open spec fn flags_around(self, c: (int, int)) -> nat {
        self.neighbors(c).filter(self.holds_flag()).len()
    }

    /// A field is valid when it has at least one cell, holds a state for
    /// exactly the cells on the grid, was asked for no more mines than it has
    /// cells, and every empty spot carries the number of mines around it.
    pub open spec fn valid(self) -> bool {
        &&& self.width >= 1
        &&& self.height >= 1
        &&& 0 <= self.mines <= self.width * self.height
        &&& self.spots.dom() == Set::new(|c: (int, int)| self.in_bounds(c))
        &&& forall|c: (int, int)| #[trigger]
            self.in_bounds(c) && !self.spots[c].is_mine() ==> self.spots[c].count()
                == self.mines_around(c)
    }

    /// The cells of the sequence lie on the grid, and none occurs twice.
    pub open spec fn distinct_cells(self, cells: Seq<(int, int)>) -> bool {
        &&& cells.no_duplicates()
        &&& forall|i: int| 0 <= i < cells.len() ==> self.in_bounds(#[trigger] cells[i])
    }

    /// The field after a mine is put on `c`: the spot becomes a hidden mine
    /// and every empty neighbor counts one mine more. A cell that already
    /// holds a mine, or lies off the grid, changes nothing.
    pub open spec fn with_mine(self, c: (int, int)) -> Grid {
        if self.in_bounds(c) && !self.spots[c].is_mine() {
            Grid {
                spots: Map::new(
                    |n: (int, int)| self.in_bounds(n),
                    |n: (int, int)|
                        if n == c {
                            SpotState::HiddenMine
                        } else if adjacent(c, n) {
                            self.spots[n].with_one_more()
                        } else {
                            self.spots[n]
                        },
                ),
                ..self
            }
        } else {
            self
        }
    }

    /// The field after mines are put on the given cells, one after another.
    pub open spec fn with_mines_at(self, cells: Seq<(int, int)>) -> Grid
        decreases cells.len(),
    {
        if cells.len() == 0 {
            self
        } else {
            self.with_mines_at(cells.drop_last()).with_mine(cells.last())
        }
    }

    /// The cells of the grid that hold a mine.
    pub open spec fn mine_cells(self) -> Set<(int, int)> {
        Set::new(|c: (int, int)| self.in_bounds(c) && self.spots[c].is_mine())
    }

    /// The field after the flag on `c` is toggled; a cell off the grid
    /// changes nothing.
    pub open spec fn flag_toggled(self, c: (int, int)) -> Grid {
        if self.in_bounds(c) {
            self.with_spot(c, self.spots[c].flag_toggled())
        } else {
            self
        }
    }

    /// What toggling the flag on `c` reports.
    pub open spec fn flag_result(self, c: (int, int)) -> FlagToggleResult {
        if self.in_bounds(c) {
            self.spots[c].flag_result()
        } else {
            FlagToggleResult::Unchanged
        }
    }

    /// A path along which a reveal spreads: a non-empty walk over hidden
    /// empty spots in which every spot but the last has no mine around it and
    /// touches the next one.
    pub open spec fn is_flood_path(self, path: Seq<(int, int)>) -> bool {
        &&& path.len() > 0
        &&& forall|i: int|
            0 <= i < path.len() ==> self.in_bounds(#[trigger] path[i])
                && self.spots[path[i]] is HiddenEmpty
        &&& forall|i: int|
            0 <= i < path.len() - 1 ==> self.spots[#[trigger] path[i]].count() == 0 && adjacent(
                path[i],
                path[i + 1],
            )
    }

    /// A step on `from` reveals `to`: some flood path leads from one to the
    /// other.
    pub open spec fn floods(self, from: (int, int), to: (int, int)) -> bool {
        exists|path: Seq<(int, int)>|
            #[trigger] self.is_flood_path(path) && path.first() == from && path.last() == to
    }

    /// The field after a step on `c`: the spot itself takes its step, and
    /// every hidden empty spot that the step floods is revealed. Nothing else
    /// changes.
    pub open spec fn stepped(self, c: (int, int)) -> Grid {
        Grid {
            spots: Map::new(
                |n: (int, int)| self.in_bounds(n),
                |n: (int, int)|
                    if n == c || self.floods(c, n) {
                        self.spots[n].stepped()
                    } else {
                        self.spots[n]
                    },
            ),
            ..self
        }
    }

    /// What a step on `c` reports.
    pub open spec fn step_result(self, c: (int, int)) -> StepResult {
        if self.in_bounds(c) {
            self.spots[c].step_result()
        } else {
            StepResult::Invalid
        }
    }

    /// The field and the report after stepping on the given cells in turn,
    /// stopping behind the first step that hits a mine.
    pub open spec fn stepped_in_turn(self, cells: Seq<(int, int)>) -> (Grid, StepResult)
        decreases cells.len(),
    {
        if cells.len() == 0 {
            (self, StepResult::Phew)
        } else if self.step_result(cells.first()) == StepResult::Boom {
            (self.stepped(cells.first()), StepResult::Boom)
        } else {
            self.stepped(cells.first()).stepped_in_turn(cells.drop_first())
        }
    }

    /// An automatic step on `c` is allowed: the spot is revealed and as many
    /// flags stand around it as it counts mines.
    pub open spec fn can_auto_step(self, c: (int, int)) -> bool {
        &&& self.in_bounds(c)
        &&& self.spots[c] is RevealedEmpty
        &&& self.flags_around(c) == self.spots[c].count()
    }

    /// The field after an automatic step on `c`: where it is allowed, a step
    /// on each neighbor in turn up to the first mine.
    pub open spec fn auto_stepped(self, c: (int, int)) -> Grid {
        if self.can_auto_step(c) {
            self.stepped_in_turn(self.neighbors(c)).0
        } else {
            self
        }
    }

    /// What an automatic step on `c` reports.
    pub open spec fn auto_step_result(self, c: (int, int)) -> StepResult {
        if self.can_auto_step(c) {
            self.stepped_in_turn(self.neighbors(c)).1
        } else {
            StepResult::Invalid
        }
    }

    /// Every spot is a revealed empty spot or a flagged mine.
    pub open spec fn cleared(self) -> bool {
        forall|c: (int, int)| #[trigger] self.in_bounds(c) ==> self.spots[c].is_resolved()
    }
}

} // verus!
