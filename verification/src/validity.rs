//! Every move of the game leaves a valid field valid.

use crate::grid::{adjacent, Grid};
use crate::neighbors::lemma_filter_none;
use vstd::prelude::*;

verus! {

impl Grid {
    /// The field without mines is valid.
    pub proof fn lemma_empty_valid(width: int, height: int)
        requires
            width >= 1,
            height >= 1,
        ensures
            Grid::empty(width, height).valid(),
    {
        let g = Grid::empty(width, height);
        assert(0 <= width * height) by (nonlinear_arith)
            requires
                width >= 1,
                height >= 1,
        ;
        assert(g.spots.dom() =~= Set::new(|c: (int, int)| g.in_bounds(c)));
        assert forall|c: (int, int)| #[trigger]
            g.in_bounds(c) && !g.spots[c].is_mine() implies g.spots[c].count() == g.mines_around(
            c,
        ) by {
            g.lemma_neighbors_touch(c);
            lemma_filter_none(g.neighbors(c), g.holds_mine());
        }
    }

    /// Putting a mine on a cell of a valid field leaves a valid field, and
    /// no count of an empty spot outgrows eight on the way.
    pub proof fn lemma_with_mine_valid(self, m: (int, int))
        requires
            self.valid(),
        ensures
            self.with_mine(m).valid(),
            forall|c: (int, int)| #[trigger]
                self.in_bounds(c) && !self.spots[c].is_mine() ==> self.spots[c].count() <= 8,
            self.in_bounds(m) && !self.spots[m].is_mine() ==> forall|c: (int, int)| #[trigger]
                self.in_bounds(c) && adjacent(m, c) && !self.spots[c].is_mine()
                    ==> self.spots[c].count() < 8,
    {
        let after = self.with_mine(m);
        assert forall|c: (int, int)| #[trigger]
            self.in_bounds(c) && !self.spots[c].is_mine() implies self.spots[c].count() <= 8 by {
            self.lemma_counts_few(c);
        }
        if self.in_bounds(m) && !self.spots[m].is_mine() {
            assert(after.spots.dom() =~= Set::new(|c: (int, int)| after.in_bounds(c)));
            assert forall|c: (int, int)| #[trigger]
                after.in_bounds(c) && !after.spots[c].is_mine() implies after.spots[c].count()
                == after.mines_around(c) by {
                assert(self.in_bounds(c));
                self.lemma_mines_around_grow(m, c);
                after.lemma_counts_few(c);
            }
            assert forall|c: (int, int)| #[trigger]
                self.in_bounds(c) && adjacent(m, c) && !self.spots[c].is_mine()
                implies self.spots[c].count() < 8 by {
                self.lemma_mines_around_grow(m, c);
                after.lemma_counts_few(c);
            }
        }
    }

    /// A step on a valid field leaves a valid field.
    pub proof fn lemma_stepped_valid(self, c: (int, int))
        requires
            self.valid(),
        ensures
            self.stepped(c).valid(),
    {
        let after = self.stepped(c);
        assert(after.spots.dom() =~= Set::new(|n: (int, int)| after.in_bounds(n)));
        assert forall|n: (int, int)| #[trigger]
            after.in_bounds(n) && !after.spots[n].is_mine() implies after.spots[n].count()
            == after.mines_around(n) by {
            assert(self.in_bounds(n));
            assert forall|m: (int, int)| #[trigger] after.in_bounds(m) implies after.spots[m].is_mine()
                == self.spots[m].is_mine() by {}
            after.lemma_mines_around_same(self, n);
        }
    }

    /// Putting mines on a field changes neither its size nor the number of
    /// mines it was asked for.
    pub proof fn lemma_with_mines_at_size(self, cells: Seq<(int, int)>)
        ensures
            self.with_mines_at(cells).width == self.width,
            self.with_mines_at(cells).height == self.height,
            self.with_mines_at(cells).mines == self.mines,
        decreases cells.len(),
    {
        if cells.len() > 0 {
            self.lemma_with_mines_at_size(cells.drop_last());
        }
    }

    /// Toggling a flag on a valid field leaves a valid field.
    pub proof fn lemma_flag_toggled_valid(self, c: (int, int))
        requires
            self.valid(),
        ensures
            self.flag_toggled(c).valid(),
    {
        let after = self.flag_toggled(c);
        assert(after.spots.dom() =~= Set::new(|n: (int, int)| after.in_bounds(n)));
        assert forall|n: (int, int)| #[trigger]
            after.in_bounds(n) && !after.spots[n].is_mine() implies after.spots[n].count()
            == after.mines_around(n) by {
            assert(self.in_bounds(n));
            assert forall|m: (int, int)| #[trigger] after.in_bounds(m) implies after.spots[m].is_mine()
                == self.spots[m].is_mine() by {}
            after.lemma_mines_around_same(self, n);
        }
    }
}

} // verus!
