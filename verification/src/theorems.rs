//! What holds of the game as a whole, proved of the mathematical model in
//! which the contracts of the minefield's operations are stated.

use crate::grid::{adjacent, Grid};
use crate::spot::{SpotState, StepResult};
use vstd::prelude::*;

verus! {

impl Grid {
    /// On a valid field every empty spot counts between zero and eight
    /// mines, and the count is the number of mines around it.
    pub proof fn lemma_count_is_mines_around(self, c: (int, int))
        requires
            self.valid(),
            self.in_bounds(c),
            !self.spots[c].is_mine(),
        ensures
            self.spots[c].count() == self.mines_around(c),
            0 <= self.spots[c].count() <= 8,
    {
        self.lemma_counts_few(c);
    }

    /// A mine put on an empty spot of the grid makes that spot a hidden
    /// mine, raises the count of every empty spot around it by exactly one,
    /// and leaves every other spot as it was.
    pub proof fn lemma_mine_placed(self, c: (int, int))
        requires
            self.valid(),
            self.in_bounds(c),
            !self.spots[c].is_mine(),
        ensures
            self.with_mine(c).spots[c] == SpotState::HiddenMine,
            forall|n: (int, int)| #[trigger]
                self.in_bounds(n) && adjacent(c, n) && !self.spots[n].is_mine() ==> self.with_mine(
                    c,
                ).spots[n].count() == self.spots[n].count() + 1,
            forall|n: (int, int)| #[trigger]
                self.in_bounds(n) && adjacent(c, n) && self.spots[n].is_mine() ==> self.with_mine(
                    c,
                ).spots[n] == self.spots[n],
            forall|n: (int, int)| #[trigger]
                self.in_bounds(n) && n != c && !adjacent(c, n) ==> self.with_mine(c).spots[n]
                    == self.spots[n],
    {
        self.lemma_with_mine_valid(c);
    }

    /// A mine put on a spot that already holds one changes nothing, so
    /// putting the same mine twice is the same as putting it once.
    pub proof fn lemma_mine_placed_twice(self, c: (int, int))
        ensures
            self.in_bounds(c) && self.spots[c].is_mine() ==> self.with_mine(c) == self,
            self.with_mine(c).with_mine(c) == self.with_mine(c),
    {
    }

    /// The cells that hold a mine after one more mine is put on the grid
    /// are those that held one before, and the cell of the new mine.
    pub proof fn lemma_mine_cells_grow(self, c: (int, int))
        requires
            self.in_bounds(c),
        ensures
            self.with_mine(c).mine_cells() == self.mine_cells().insert(c),
    {
        assert(self.with_mine(c).mine_cells() =~= self.mine_cells().insert(c));
    }

    /// Mines scattered over different cells of a field that held none lie
    /// exactly on those cells, as hidden mines, and there are as many mines
    /// as cells were given.
    pub proof fn lemma_mines_scattered(self, cells: Seq<(int, int)>)
        requires
            self.valid(),
            self.distinct_cells(cells),
            forall|c: (int, int)| #[trigger] self.in_bounds(c) ==> !self.spots[c].is_mine(),
        ensures
            self.with_mines_at(cells).valid(),
            self.with_mines_at(cells).mine_cells() == cells.to_set(),
            self.with_mines_at(cells).mine_cells().len() == cells.len(),
            forall|c: (int, int)| #[trigger]
                self.in_bounds(c) ==> self.with_mines_at(cells).spots[c].is_mine()
                    == cells.contains(c),
            forall|i: int|
                0 <= i < cells.len() ==> self.with_mines_at(cells).spots[#[trigger] cells[i]]
                    == SpotState::HiddenMine,
        decreases cells.len(),
    {
        let after = self.with_mines_at(cells);
        if cells.len() == 0 {
            assert(after.mine_cells() =~= cells.to_set());
        } else {
            let front = cells.drop_last();
            let last = cells.last();
            let mid = self.with_mines_at(front);
            assert(self.distinct_cells(front)) by {
                assert forall|i: int, j: int|
                    0 <= i < front.len() && 0 <= j < front.len() && i != j implies front[i]
                    != front[j] by {
                    assert(front[i] == cells[i] && front[j] == cells[j]);
                }
                assert forall|i: int| 0 <= i < front.len() implies self.in_bounds(
                    #[trigger] front[i],
                ) by {
                    assert(front[i] == cells[i]);
                }
            }
            self.lemma_mines_scattered(front);
            self.lemma_with_mines_at_size(front);
            assert(mid.in_bounds(last)) by {
                assert(self.in_bounds(cells[cells.len() - 1]));
            }
            assert(!front.contains(last)) by {
                if front.contains(last) {
                    let i = choose|i: int| 0 <= i < front.len() && front[i] == last;
                    assert(cells[i] == cells[cells.len() - 1]);
                }
            }
            assert(!mid.spots[last].is_mine());
            mid.lemma_with_mine_valid(last);
            mid.lemma_mine_cells_grow(last);
            assert(cells =~= front + seq![last]);
            Seq::lemma_to_set_insert_commutes(front, last);
            assert forall|c: (int, int)| #[trigger] self.in_bounds(c) implies after.spots[c].is_mine()
                == cells.contains(c) by {
                assert(mid.in_bounds(c));
                if front.contains(c) {
                    let i = choose|i: int| 0 <= i < front.len() && front[i] == c;
                    assert(cells[i] == c);
                }
                if cells.contains(c) && c != last {
                    let i = choose|i: int| 0 <= i < cells.len() && cells[i] == c;
                    assert(front[i] == c);
                }
                if c == last {
                    assert(cells[cells.len() - 1] == c);
                }
            }
            assert forall|i: int| 0 <= i < cells.len() implies after.spots[#[trigger] cells[i]]
                == SpotState::HiddenMine by {
                if i < front.len() {
                    assert(front[i] == cells[i]);
                    assert(mid.spots[front[i]] == SpotState::HiddenMine);
                    assert(mid.in_bounds(cells[i]));
                }
            }
        }
        cells.unique_seq_to_set();
    }

    /// A step off the grid is invalid and changes nothing.
    pub proof fn lemma_step_off_grid(self, c: (int, int))
        requires
            self.valid(),
            !self.in_bounds(c),
        ensures
            self.step_result(c) == StepResult::Invalid,
            self.stepped(c) == self,
    {
        assert forall|n: (int, int)| self.in_bounds(n) implies !self.floods(c, n) by {
            if self.floods(c, n) {
                self.lemma_floods_ends(c, n);
            }
        }
        assert(self.stepped(c).spots =~= self.spots);
    }

    /// A step on a hidden mine sets it off: the report is `Boom`, the spot
    /// is an exploded mine, and no other spot changes.
    pub proof fn lemma_step_on_mine(self, c: (int, int))
        requires
            self.valid(),
            self.in_bounds(c),
            self.spots[c] is HiddenMine,
        ensures
            self.step_result(c) == StepResult::Boom,
            self.stepped(c) == self.with_spot(c, SpotState::ExplodedMine),
    {
        assert forall|n: (int, int)| self.in_bounds(n) implies !self.floods(c, n) by {
            if self.floods(c, n) {
                self.lemma_floods_ends(c, n);
            }
        }
        assert(self.stepped(c).spots =~= self.with_spot(c, SpotState::ExplodedMine).spots);
    }

    /// A step on a flagged, revealed or exploded spot is invalid and changes
    /// nothing.
    pub proof fn lemma_step_refused(self, c: (int, int))
        requires
            self.valid(),
            self.in_bounds(c),
            !(self.spots[c] is HiddenEmpty),
            !(self.spots[c] is HiddenMine),
        ensures
            self.step_result(c) == StepResult::Invalid,
            self.stepped(c) == self,
    {
        assert forall|n: (int, int)| self.in_bounds(n) implies !self.floods(c, n) by {
            if self.floods(c, n) {
                self.lemma_floods_ends(c, n);
            }
        }
        assert(self.stepped(c).spots =~= self.spots);
    }

    /// A step on a hidden empty spot that counts a mine reveals that spot
    /// alone.
    pub proof fn lemma_step_on_numbered(self, c: (int, int))
        requires
            self.valid(),
            self.in_bounds(c),
            self.spots[c] is HiddenEmpty,
            self.spots[c].count() > 0,
        ensures
            self.step_result(c) == StepResult::Phew,
            self.stepped(c) == self.with_spot(c, self.spots[c].stepped()),
    {
        assert forall|n: (int, int)| self.in_bounds(n) && n != c implies !self.floods(c, n) by {
            if self.floods(c, n) {
                self.lemma_floods_ends(c, n);
            }
        }
        assert(self.stepped(c).spots =~= self.with_spot(c, self.spots[c].stepped()).spots);
    }

    /// A step on a hidden empty spot reveals, with their counts, exactly
    /// the spots that it floods, and leaves all others as they were.
    pub proof fn lemma_step_reveals_flood(self, c: (int, int), n: (int, int))
        requires
            self.valid(),
            self.in_bounds(c),
            self.spots[c] is HiddenEmpty,
            self.in_bounds(n),
        ensures
            self.step_result(c) == StepResult::Phew,
            self.floods(c, c),
            self.floods(c, n) ==> self.spots[n] is HiddenEmpty && self.stepped(c).spots[n] == (
            SpotState::RevealedEmpty { neighboring_mines: self.spots[n].count() as u8 }),
            !self.floods(c, n) ==> self.stepped(c).spots[n] == self.spots[n],
    {
        self.lemma_floods_itself(c);
        if self.floods(c, n) {
            self.lemma_floods_ends(c, n);
        }
    }

    /// A reveal spreads from a flooded spot that counts no mine to every
    /// hidden empty spot around it, and it reaches no spot but its start in
    /// another way: it stops at the spots that count a mine.
    pub proof fn lemma_flood_spreads(self, c: (int, int), m: (int, int))
        requires
            self.in_bounds(m),
            self.spots[m] is HiddenEmpty,
            m != c,
        ensures
            self.floods(c, m) <==> exists|n: (int, int)|
                self.floods(c, n) && self.spots[n].count() == 0 && #[trigger] adjacent(n, m),
    {
        if self.floods(c, m) {
            let path = choose|path: Seq<(int, int)>|
                #[trigger] self.is_flood_path(path) && path.first() == c && path.last() == m;
            let len = path.len() - 1;
            let n = path[len - 1];
            self.lemma_flood_path_start(path, len);
            assert(path.take(len).first() == c && path.take(len).last() == n);
            assert(self.spots[path[len - 1]].count() == 0 && adjacent(path[len - 1], path[len]));
            assert(self.floods(c, n) && self.spots[n].count() == 0 && adjacent(n, m));
        }
        if exists|n: (int, int)|
            self.floods(c, n) && self.spots[n].count() == 0 && #[trigger] adjacent(n, m) {
            let n = choose|n: (int, int)|
                self.floods(c, n) && self.spots[n].count() == 0 && #[trigger] adjacent(n, m);
            self.lemma_floods_on(c, n, m);
        }
    }

    /// A step never touches a spot other than the one stepped on that is
    /// flagged, revealed, exploded or a mine.
    pub proof fn lemma_step_spares(self, c: (int, int), n: (int, int))
        requires
            self.in_bounds(n),
            n != c,
            !(self.spots[n] is HiddenEmpty),
        ensures
            self.stepped(c).spots[n] == self.spots[n],
    {
        if self.floods(c, n) {
            self.lemma_floods_ends(c, n);
        }
    }

    /// Stepping on cells in turn reports `Boom` exactly when one of them is
    /// a hidden mine of the grid, and `Phew` otherwise.
    pub proof fn lemma_stepped_in_turn_report(self, cells: Seq<(int, int)>)
        ensures
            self.stepped_in_turn(cells).1 == StepResult::Boom <==> exists|i: int|
                0 <= i < cells.len() && self.in_bounds(#[trigger] cells[i])
                    && self.spots[cells[i]] is HiddenMine,
            self.stepped_in_turn(cells).1 == StepResult::Boom || self.stepped_in_turn(cells).1
                == StepResult::Phew,
        decreases cells.len(),
    {
        if cells.len() > 0 {
            let first = cells.first();
            let rest = cells.drop_first();
            if self.step_result(first) == StepResult::Boom {
                assert(self.in_bounds(cells[0]) && self.spots[cells[0]] is HiddenMine);
            } else {
                let after = self.stepped(first);
                after.lemma_stepped_in_turn_report(rest);
                assert forall|n: (int, int)| self.in_bounds(n) implies (
                #[trigger] after.spots[n] is HiddenMine) == (self.spots[n] is HiddenMine) by {
                    if self.floods(first, n) {
                        self.lemma_floods_ends(first, n);
                    }
                }
                if exists|i: int|
                    0 <= i < rest.len() && after.in_bounds(#[trigger] rest[i])
                        && after.spots[rest[i]] is HiddenMine {
                    let i = choose|i: int|
                        0 <= i < rest.len() && after.in_bounds(#[trigger] rest[i])
                            && after.spots[rest[i]] is HiddenMine;
                    assert(cells[i + 1] == rest[i]);
                }
                if exists|i: int|
                    0 <= i < cells.len() && self.in_bounds(#[trigger] cells[i])
                        && self.spots[cells[i]] is HiddenMine {
                    let i = choose|i: int|
                        0 <= i < cells.len() && self.in_bounds(#[trigger] cells[i])
                            && self.spots[cells[i]] is HiddenMine;
                    assert(i > 0);
                    assert(rest[i - 1] == cells[i]);
                    assert(after.in_bounds(rest[i - 1]));
                }
            }
        }
    }

    /// An automatic step is invalid, and changes nothing, unless the spot is
    /// a revealed spot of the grid with as many flags around it as it counts
    /// mines. Where it is taken, it reports `Boom` exactly when a hidden
    /// mine touches the spot, and `Phew` otherwise.
    pub proof fn lemma_auto_step_report(self, c: (int, int))
        ensures
            !self.can_auto_step(c) ==> self.auto_step_result(c) == StepResult::Invalid
                && self.auto_stepped(c) == self,
            self.can_auto_step(c) ==> (self.auto_step_result(c) == StepResult::Boom
                <==> exists|n: (int, int)|
                self.in_bounds(n) && #[trigger] adjacent(c, n) && self.spots[n] is HiddenMine),
            self.can_auto_step(c) ==> self.auto_step_result(c) == StepResult::Boom
                || self.auto_step_result(c) == StepResult::Phew,
    {
        if self.can_auto_step(c) {
            let around = self.neighbors(c);
            self.lemma_stepped_in_turn_report(around);
            self.lemma_neighbors_touch(c);
            if exists|i: int|
                0 <= i < around.len() && self.in_bounds(#[trigger] around[i])
                    && self.spots[around[i]] is HiddenMine {
                let i = choose|i: int|
                    0 <= i < around.len() && self.in_bounds(#[trigger] around[i])
                        && self.spots[around[i]] is HiddenMine;
                assert(adjacent(c, around[i]));
            }
            if exists|n: (int, int)|
                self.in_bounds(n) && #[trigger] adjacent(c, n) && self.spots[n] is HiddenMine {
                let n = choose|n: (int, int)|
                    self.in_bounds(n) && #[trigger] adjacent(c, n) && self.spots[n] is HiddenMine;
                self.lemma_neighbors_hold(c, n);
                let i = choose|i: int| 0 <= i < around.len() && around[i] == n;
                assert(self.in_bounds(around[i]) && self.spots[around[i]] is HiddenMine);
            }
        }
    }

    /// Stepping on cells in turn leaves a valid field valid and changes no
    /// spot but by a step on it: hidden empty spots may be revealed and
    /// hidden mines may explode, and every other spot stays as it was.
    pub proof fn lemma_stepped_in_turn_keeps(self, cells: Seq<(int, int)>)
        requires
            self.valid(),
        ensures
            self.stepped_in_turn(cells).0.valid(),
            self.stepped_in_turn(cells).0.width == self.width,
            self.stepped_in_turn(cells).0.height == self.height,
            self.stepped_in_turn(cells).0.mines == self.mines,
            forall|n: (int, int)| #[trigger]
                self.in_bounds(n) ==> self.stepped_in_turn(cells).0.spots[n] == self.spots[n]
                    || self.stepped_in_turn(cells).0.spots[n] == self.spots[n].stepped(),
        decreases cells.len(),
    {
        if cells.len() > 0 {
            let after = self.stepped(cells.first());
            self.lemma_stepped_valid(cells.first());
            if self.step_result(cells.first()) != StepResult::Boom {
                after.lemma_stepped_in_turn_keeps(cells.drop_first());
                assert forall|n: (int, int)| #[trigger] self.in_bounds(n) implies self.stepped_in_turn(
                    cells,
                ).0.spots[n] == self.spots[n] || self.stepped_in_turn(cells).0.spots[n]
                    == self.spots[n].stepped() by {
                    assert(after.in_bounds(n));
                }
            }
        }
    }

    /// Stepping on cells in turn steps on every cell up to the first hidden
    /// mine, that mine included, and what such a step made of the spot
    /// stays: a spot revealed before a mine goes off is still revealed
    /// afterwards.
    pub proof fn lemma_stepped_in_turn_reaches(self, cells: Seq<(int, int)>, j: int)
        requires
            self.valid(),
            0 <= j < cells.len(),
            self.in_bounds(cells[j]),
            forall|i: int|
                0 <= i < j ==> !(self.in_bounds(#[trigger] cells[i])
                    && self.spots[cells[i]] is HiddenMine),
        ensures
            self.stepped_in_turn(cells).0.spots[cells[j]] == self.spots[cells[j]].stepped(),
        decreases cells.len(),
    {
        let first = cells.first();
        let rest = cells.drop_first();
        let after = self.stepped(first);
        self.lemma_stepped_valid(first);
        if j == 0 {
            if self.step_result(first) != StepResult::Boom {
                after.lemma_stepped_in_turn_keeps(rest);
                assert(after.in_bounds(first));
            }
        } else {
            assert(!(self.in_bounds(cells[0]) && self.spots[cells[0]] is HiddenMine));
            assert(rest[j - 1] == cells[j]);
            assert forall|i: int| 0 <= i < j - 1 implies !(after.in_bounds(#[trigger] rest[i])
                && after.spots[rest[i]] is HiddenMine) by {
                assert(rest[i] == cells[i + 1]);
                if self.floods(first, rest[i]) {
                    self.lemma_floods_ends(first, rest[i]);
                }
            }
            after.lemma_stepped_in_turn_reaches(rest, j - 1);
            if self.floods(first, cells[j]) {
                self.lemma_floods_ends(first, cells[j]);
            }
        }
    }

    /// An automatic step leaves a valid field valid, and changes no spot
    /// but by a step on it.
    pub proof fn lemma_auto_step_keeps(self, c: (int, int))
        requires
            self.valid(),
        ensures
            self.auto_stepped(c).valid(),
            forall|n: (int, int)| #[trigger]
                self.in_bounds(n) ==> self.auto_stepped(c).spots[n] == self.spots[n]
                    || self.auto_stepped(c).spots[n] == self.spots[n].stepped(),
    {
        self.lemma_stepped_in_turn_keeps(self.neighbors(c));
    }

    /// An automatic step that is taken steps on the neighbors of the spot
    /// in their order up to the first hidden mine, that mine included, and
    /// each of them is found afterwards as that step left it.
    pub proof fn lemma_auto_step_reaches(self, c: (int, int), j: int)
        requires
            self.valid(),
            self.can_auto_step(c),
            0 <= j < self.neighbors(c).len(),
            forall|i: int| 0 <= i < j ==> !(self.spots[#[trigger] self.neighbors(c)[i]] is HiddenMine),
        ensures
            self.auto_stepped(c).spots[self.neighbors(c)[j]]
                == self.spots[self.neighbors(c)[j]].stepped(),
    {
        self.lemma_neighbors_touch(c);
        self.lemma_stepped_in_turn_reaches(self.neighbors(c), j);
    }

    /// A field is cleared exactly when every spot is a revealed empty spot
    /// or a flagged mine; one hidden spot or one flag on an empty spot keeps
    /// it from being cleared.
    pub proof fn lemma_cleared(self, c: (int, int))
        requires
            self.in_bounds(c),
        ensures
            self.cleared() <==> forall|n: (int, int)| #[trigger]
                self.in_bounds(n) ==> self.spots[n] is RevealedEmpty || self.spots[n] is FlaggedMine,
            self.spots[c] is HiddenEmpty || self.spots[c] is HiddenMine
                || self.spots[c] is FlaggedEmpty ==> !self.cleared(),
    {
        if self.cleared() {
            assert forall|n: (int, int)| #[trigger] self.in_bounds(n) implies self.spots[n] is RevealedEmpty
                || self.spots[n] is FlaggedMine by {
                assert(self.spots[n].is_resolved());
            }
        }
    }

    /// Toggling a flag twice gives back the field as it was.
    pub proof fn lemma_flag_toggled_twice(self, c: (int, int))
        requires
            self.valid(),
        ensures
            self.flag_toggled(c).flag_toggled(c) == self,
    {
        assert(self.flag_toggled(c).flag_toggled(c).spots =~= self.spots);
    }
}

} // verus!
