//! Facts about the neighbors of a cell and about counting among them.

use crate::grid::{adjacent, block, Grid};
use vstd::prelude::*;

verus! {

/// Filtering a sequence without repeats leaves a sequence without repeats.
pub proof fn lemma_filter_keeps_distinct<A>(s: Seq<A>, keep: spec_fn(A) -> bool)
    requires
        s.no_duplicates(),
    ensures
        s.filter(keep).no_duplicates(),
    decreases s.len(),
{
    reveal(Seq::filter);
    if s.len() > 0 {
        let front = s.drop_last();
        lemma_filter_keeps_distinct(front, keep);
        if keep(s.last()) {
            let kept = front.filter(keep);
            if kept.contains(s.last()) {
                front.lemma_filter_contains_rev(keep, s.last());
                let i = choose|i: int| 0 <= i < front.len() && front[i] == s.last();
                assert(s[i] == s[s.len() - 1]);
            }
            assert forall|i: int, j: int|
                0 <= i < kept.len() + 1 && 0 <= j < kept.len() + 1 && i != j implies kept.push(
                s.last(),
            )[i] != kept.push(s.last())[j] by {
                if i < kept.len() && j < kept.len() {
                } else if i < kept.len() {
                    assert(kept.contains(kept[i]));
                } else {
                    assert(kept.contains(kept[j]));
                }
            }
        }
    }
}

/// Nothing is kept by a test that no element passes.
pub proof fn lemma_filter_none<A>(s: Seq<A>, keep: spec_fn(A) -> bool)
    requires
        forall|i: int| 0 <= i < s.len() ==> !keep(#[trigger] s[i]),
    ensures
        s.filter(keep).len() == 0,
{
    let kept = s.filter(keep);
    if kept.len() > 0 {
        s.lemma_filter_pred(keep, 0);
        assert(kept.contains(kept[0]));
        s.lemma_filter_contains_rev(keep, kept[0]);
    }
}

/// Over a sequence without repeats, a test that accepts one element more
/// than another keeps one element more exactly when the sequence holds that
/// element.
pub proof fn lemma_filter_one_more<A>(
    s: Seq<A>,
    narrow: spec_fn(A) -> bool,
    wide: spec_fn(A) -> bool,
    extra: A,
)
    requires
        s.no_duplicates(),
        !narrow(extra),
        forall|a: A| #[trigger] wide(a) == (narrow(a) || a == extra),
    ensures
        s.filter(wide).len() == s.filter(narrow).len() + (if s.contains(extra) {
            1int
        } else {
            0int
        }),
    decreases s.len(),
{
    reveal(Seq::filter);
    if s.len() > 0 {
        let front = s.drop_last();
        lemma_filter_one_more(front, narrow, wide, extra);
        assert(wide(s.last()) == (narrow(s.last()) || s.last() == extra));
        if s.last() == extra {
            if front.contains(extra) {
                let i = choose|i: int| 0 <= i < front.len() && front[i] == extra;
                assert(s[i] == s[s.len() - 1]);
            }
            assert(s.contains(extra));
        } else {
            if s.contains(extra) {
                let i = choose|i: int| 0 <= i < s.len() && s[i] == extra;
                assert(front[i] == extra);
            }
            if front.contains(extra) {
                let i = choose|i: int| 0 <= i < front.len() && front[i] == extra;
                assert(s[i] == extra);
            }
        }
    } else {
        assert(!s.contains(extra));
    }
}

/// The cells of a block are all different.
pub proof fn lemma_block_distinct(c: (int, int))
    ensures
        block(c).no_duplicates(),
{
    assert forall|i: int, j: int| 0 <= i < 9 && 0 <= j < 9 && i != j implies block(c)[i] != block(
        c,
    )[j] by {
        if i / 3 == j / 3 {
            assert(i % 3 != j % 3);
        }
    }
}

impl Grid {
    /// Every neighbor of a cell lies on the grid and touches the cell.
    pub proof fn lemma_neighbors_touch(self, c: (int, int))
        ensures
            forall|i: int|
                0 <= i < self.neighbors(c).len() ==> self.in_bounds(#[trigger] self.neighbors(c)[i])
                    && adjacent(c, self.neighbors(c)[i]),
    {
        let around = self.neighbors(c);
        assert forall|i: int| 0 <= i < around.len() implies self.in_bounds(#[trigger] around[i])
            && adjacent(c, around[i]) by {
            block(c).lemma_filter_pred(self.other_than(c), i);
            assert(around.contains(around[i]));
            block(c).lemma_filter_contains_rev(self.other_than(c), around[i]);
            let k = choose|k: int| 0 <= k < 9 && block(c)[k] == around[i];
            assert(0 <= k / 3 <= 2 && 0 <= k % 3 <= 2);
        }
    }

    /// Every cell of the grid that touches a cell is among its neighbors.
    pub proof fn lemma_neighbors_hold(self, c: (int, int), n: (int, int))
        requires
            self.in_bounds(n),
            adjacent(c, n),
        ensures
            self.neighbors(c).contains(n),
    {
        let k = (n.0 - c.0 + 1) * 3 + (n.1 - c.1 + 1);
        assert(0 <= k < 9);
        assert(k / 3 == n.0 - c.0 + 1 && k % 3 == n.1 - c.1 + 1);
        assert(block(c)[k] == n);
        block(c).lemma_filter_contains(self.other_than(c), k);
    }

    /// No cell occurs twice among the neighbors of a cell.
    pub proof fn lemma_neighbors_distinct(self, c: (int, int))
        ensures
            self.neighbors(c).no_duplicates(),
    {
        lemma_block_distinct(c);
        lemma_filter_keeps_distinct(block(c), self.other_than(c));
    }

    /// A cell has at most eight neighbors.
    pub proof fn lemma_neighbors_few(self, c: (int, int))
        ensures
            self.neighbors(c).len() <= 8,
    {
        let keep = self.other_than(c);
        let front = block(c).take(4);
        let back = block(c).skip(5);
        let center = seq![c];
        assert(block(c)[4] == c);
        assert(block(c) =~= front + center + back);
        Seq::filter_distributes_over_add(front + center, back, keep);
        Seq::filter_distributes_over_add(front, center, keep);
        lemma_filter_none(center, keep);
        front.lemma_filter_len(keep);
        back.lemma_filter_len(keep);
    }

    /// No more than eight mines, and no more than eight flags, stand around
    /// a cell.
    pub proof fn lemma_counts_few(self, c: (int, int))
        ensures
            self.mines_around(c) <= 8,
            self.flags_around(c) <= 8,
    {
        self.lemma_neighbors_few(c);
        self.neighbors(c).lemma_filter_len(self.holds_mine());
        self.neighbors(c).lemma_filter_len(self.holds_flag());
    }

    /// The number of mines around a cell depends only on the size of the
    /// grid and on which cells hold a mine.
    pub proof fn lemma_mines_around_same(self, other: Grid, c: (int, int))
        requires
            self.width == other.width,
            self.height == other.height,
            forall|n: (int, int)| #[trigger]
                self.in_bounds(n) ==> self.spots[n].is_mine() == other.spots[n].is_mine(),
        ensures
            self.mines_around(c) == other.mines_around(c),
    {
        assert forall|n: (int, int)| #[trigger] self.holds_mine()(n) == other.holds_mine()(n) by {
            assert(self.in_bounds(n) == other.in_bounds(n));
        }
        assert(self.holds_mine() =~= other.holds_mine());
        assert(self.other_than(c) =~= other.other_than(c));
    }

    /// A new mine on `m` raises the number of mines around a cell by one if
    /// the cell touches `m`, and leaves it alone otherwise.
    pub proof fn lemma_mines_around_grow(self, m: (int, int), c: (int, int))
        requires
            self.in_bounds(m),
            !self.spots[m].is_mine(),
        ensures
            self.with_mine(m).mines_around(c) == self.mines_around(c) + (if adjacent(c, m) {
                1int
            } else {
                0int
            }),
    {
        let after = self.with_mine(m);
        let around = self.neighbors(c);
        assert(self.other_than(c) =~= after.other_than(c));
        assert(after.neighbors(c) == around);
        self.lemma_neighbors_distinct(c);
        assert forall|n: (int, int)| #[trigger]
            after.holds_mine()(n) == (self.holds_mine()(n) || n == m) by {
            assert(self.in_bounds(n) == after.in_bounds(n));
        }
        lemma_filter_one_more(around, self.holds_mine(), after.holds_mine(), m);
        if adjacent(c, m) {
            self.lemma_neighbors_hold(c, m);
        }
        if around.contains(m) {
            self.lemma_neighbors_touch(c);
        }
    }
}

} // verus!
