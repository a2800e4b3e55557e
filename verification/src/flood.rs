//! Facts about the spreading of a reveal, and the state of a reveal that is
//! under way.

use crate::grid::{adjacent, Grid};
use vstd::prelude::*;

verus! {

/// `now` is `before` with some of the spots revealed that a step on `c`
/// floods, and nothing else changed.
pub open spec fn partly_flooded(before: Grid, now: Grid, c: (int, int)) -> bool {
    &&& now.width == before.width
    &&& now.height == before.height
    &&& now.mines == before.mines
    &&& now.spots.dom() == before.spots.dom()
    &&& forall|n: (int, int)| #[trigger]
        before.in_bounds(n) ==> now.spots[n] == before.spots[n] || (before.floods(c, n)
            && now.spots[n] == before.spots[n].stepped())
}

/// Around every spot that the flood from `c` has revealed and that sees no
/// mine, no hidden empty spot is left, unless the spot is still waiting to
/// be visited.
pub open spec fn settled(before: Grid, now: Grid, c: (int, int), waiting: Seq<(int, int)>) -> bool {
    forall|n: (int, int), m: (int, int)|
        before.in_bounds(n) && before.floods(c, n) && before.spots[n].count() == 0
            && now.spots[n] is RevealedEmpty && !waiting.contains(n) && before.in_bounds(m)
            && #[trigger] adjacent(n, m) ==> !(now.spots[m] is HiddenEmpty)
}

impl Grid {
    /// A hidden empty spot floods itself.
    pub proof fn lemma_floods_itself(self, c: (int, int))
        requires
            self.in_bounds(c),
            self.spots[c] is HiddenEmpty,
        ensures
            self.floods(c, c),
    {
        let path = seq![c];
        assert(self.is_flood_path(path));
        assert(path.first() == c && path.last() == c);
    }

    /// Both ends of a flood are hidden empty spots of the grid, and a flood
    /// that leaves its start begins on a spot that sees no mine.
    pub proof fn lemma_floods_ends(self, from: (int, int), to: (int, int))
        requires
            self.floods(from, to),
        ensures
            self.in_bounds(from),
            self.in_bounds(to),
            self.spots[from] is HiddenEmpty,
            self.spots[to] is HiddenEmpty,
            from != to ==> self.spots[from].count() == 0,
    {
        let path = choose|path: Seq<(int, int)>|
            #[trigger] self.is_flood_path(path) && path.first() == from && path.last() == to;
        assert(self.in_bounds(path[0]));
        assert(self.in_bounds(path[path.len() - 1]));
        if from != to {
            assert(self.spots[path[0]].count() == 0);
        }
    }

    /// A flood goes on from a spot that sees no mine to every hidden empty
    /// spot that touches it.
    pub proof fn lemma_floods_on(self, from: (int, int), via: (int, int), to: (int, int))
        requires
            self.floods(from, via),
            self.spots[via].count() == 0,
            self.in_bounds(to),
            self.spots[to] is HiddenEmpty,
            adjacent(via, to),
        ensures
            self.floods(from, to),
    {
        let path = choose|path: Seq<(int, int)>|
            #[trigger] self.is_flood_path(path) && path.first() == from && path.last() == via;
        let longer = path.push(to);
        assert forall|i: int| 0 <= i < longer.len() implies self.in_bounds(#[trigger] longer[i])
            && self.spots[longer[i]] is HiddenEmpty by {
            if i < path.len() {
                assert(self.in_bounds(path[i]));
            }
        }
        assert forall|i: int| 0 <= i < longer.len() - 1 implies self.spots[#[trigger] longer[i]].count()
            == 0 && adjacent(longer[i], longer[i + 1]) by {
            if i < path.len() - 1 {
                assert(self.spots[path[i]].count() == 0);
                assert(longer[i + 1] == path[i + 1]);
            }
        }
        assert(self.is_flood_path(longer));
        assert(longer.first() == from && longer.last() == to);
    }

    /// Every start of a flood path is a flood path.
    pub proof fn lemma_flood_path_start(self, path: Seq<(int, int)>, len: int)
        requires
            self.is_flood_path(path),
            0 < len <= path.len(),
        ensures
            self.is_flood_path(path.take(len)),
    {
        let start = path.take(len);
        assert forall|i: int| 0 <= i < start.len() implies self.in_bounds(#[trigger] start[i])
            && self.spots[start[i]] is HiddenEmpty by {
            assert(self.in_bounds(path[i]));
        }
        assert forall|i: int| 0 <= i < start.len() - 1 implies self.spots[#[trigger] start[i]].count()
            == 0 && adjacent(start[i], start[i + 1]) by {
            assert(self.spots[path[i]].count() == 0);
            assert(start[i + 1] == path[i + 1]);
        }
    }

    /// Once a reveal from `c` has settled with no spot left waiting, every
    /// spot on a flood path from `c` is revealed.
    pub proof fn lemma_flood_reaches(
        self,
        now: Grid,
        c: (int, int),
        path: Seq<(int, int)>,
        i: int,
    )
        requires
            partly_flooded(self, now, c),
            settled(self, now, c, Seq::empty()),
            now.spots[c] is RevealedEmpty,
            self.is_flood_path(path),
            path.first() == c,
            0 <= i < path.len(),
        ensures
            now.spots[path[i]] is RevealedEmpty,
        decreases i,
    {
        if i > 0 {
            self.lemma_flood_reaches(now, c, path, i - 1);
            let n = path[i - 1];
            let m = path[i];
            self.lemma_flood_path_start(path, i);
            assert(path.take(i).first() == c && path.take(i).last() == n);
            assert(self.floods(c, n));
            assert(self.in_bounds(n) && self.in_bounds(m));
            assert(self.spots[n].count() == 0 && adjacent(n, m));
            assert(!Seq::<(int, int)>::empty().contains(n));
            assert(!(now.spots[m] is HiddenEmpty));
        }
    }
}

} // verus!
