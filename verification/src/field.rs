//! The minefield itself: the spots of the grid in one row-major vector, and
//! the moves of the game on it.

use crate::draw::draw_below;
use crate::flood::{partly_flooded, settled};
use crate::grid::{adjacent, block, Grid};
use crate::spot::{FlagToggleResult, Spot, SpotState, StepResult};
use vstd::prelude::*;

verus! {

/// The cell that a pair of coordinates names.
pub open spec fn cell(x: u16, y: u16) -> (int, int) {
    (x as int, y as int)
}

/// The cells that a sequence of coordinate pairs names, in the same order.
pub open spec fn cells(coords: Seq<(u16, u16)>) -> Seq<(int, int)> {
    coords.map_values(|c: (u16, u16)| cell(c.0, c.1))
}

/// A cell of a grid of the given width has its place inside the row-major
/// vector, and no other cell shares it.
proof fn lemma_place(width: int, height: int, c: (int, int))
    requires
        0 <= c.0 < width,
        0 <= c.1 < height,
    ensures
        0 <= c.1 * width + c.0 < width * height,
        (c.1 * width + c.0) % width == c.0,
        (c.1 * width + c.0) / width == c.1,
{
    assert(c.1 * width + width <= height * width) by (nonlinear_arith)
        requires
            c.1 + 1 <= height,
            width > 0,
    ;
    assert(0 <= c.1 * width) by (nonlinear_arith)
        requires
            0 <= c.1,
            width > 0,
    ;
    assert(height * width == width * height) by (nonlinear_arith);
    vstd::arithmetic::div_mod::lemma_fundamental_div_mod_converse(
        c.1 * width + c.0,
        width,
        c.1,
        c.0,
    );
}

/// Every place of the row-major vector belongs to a cell of the grid.
proof fn lemma_cell_of_place(width: int, height: int, i: int)
    requires
        width >= 1,
        0 <= i < width * height,
    ensures
        0 <= i % width < width,
        0 <= i / width < height,
        (i / width) * width + i % width == i,
{
    vstd::arithmetic::div_mod::lemma_fundamental_div_mod(i, width);
    vstd::arithmetic::div_mod::lemma_mod_bound(i, width);
    assert(width * (i / width) == (i / width) * width) by (nonlinear_arith);
    assert(0 <= i / width < height) by (nonlinear_arith)
        requires
            width >= 1,
            0 <= i < width * height,
            0 <= i % width < width,
            (i / width) * width + i % width == i,
    ;
}

/// The number of hidden empty spots in a sequence of spots.
spec fn hidden_in(spots: Seq<Spot>) -> nat
    decreases spots.len(),
{
    if spots.len() == 0 {
        0
    } else {
        hidden_in(spots.drop_last()) + if spots.last().state is HiddenEmpty {
            1nat
        } else {
            0nat
        }
    }
}

/// Replacing one spot changes the number of hidden empty spots by what the
/// old and the new spot contribute.
proof fn lemma_hidden_update(spots: Seq<Spot>, i: int, spot: Spot)
    requires
        0 <= i < spots.len(),
    ensures
        hidden_in(spots.update(i, spot)) + (if spots[i].state is HiddenEmpty {
            1int
        } else {
            0int
        }) == hidden_in(spots) + (if spot.state is HiddenEmpty {
            1int
        } else {
            0int
        }),
    decreases spots.len(),
{
    let updated = spots.update(i, spot);
    if i == spots.len() - 1 {
        assert(updated.drop_last() =~= spots.drop_last());
    } else {
        lemma_hidden_update(spots.drop_last(), i, spot);
        assert(updated.drop_last() =~= spots.drop_last().update(i, spot));
    }
}

/// The places `0..count` of a vector, in rising order.
fn all_places(count: usize) -> (places: Vec<usize>)
    ensures
        places@.len() == count,
        forall|i: int| 0 <= i < count ==> #[trigger] places@[i] == i,
{
    let mut places: Vec<usize> = Vec::new();
    for i in 0..count
        invariant
            places@.len() == i,
            forall|j: int| 0 <= j < i ==> #[trigger] places@[j] == j,
    {
        places.push(i);
    }
    places
}

/// Taking one place out of a pool of different places, the last place
/// moving to where it stood, leaves a pool of different places, each of which
/// stood in the pool before and is not the one taken out.
proof fn lemma_pool_left(pool: Seq<usize>, index_rm: int)
    requires
        0 <= index_rm < pool.len(),
        pool.no_duplicates(),
    ensures
        ({
            let left = pool.update(index_rm, pool.last()).drop_last();
            &&& left.no_duplicates()
            &&& forall|j: int|
                0 <= j < left.len() ==> pool.contains(#[trigger] left[j]) && left[j]
                    != pool[index_rm]
        }),
{
    let left = pool.update(index_rm, pool.last()).drop_last();
    assert forall|j: int| 0 <= j < left.len() implies pool.contains(#[trigger] left[j]) && left[j]
        != pool[index_rm] by {
        let from = if j == index_rm {
            pool.len() - 1
        } else {
            j
        };
        assert(left[j] == pool[from]);
    }
    assert forall|j: int, k: int| 0 <= j < left.len() && 0 <= k < left.len() && j != k implies left[j]
        != left[k] by {
        let from_j = if j == index_rm {
            pool.len() - 1
        } else {
            j
        };
        let from_k = if k == index_rm {
            pool.len() - 1
        } else {
            k
        };
        assert(left[j] == pool[from_j] && left[k] == pool[from_k]);
    }
}

/// The characteristics of the minefield.
#[derive(Clone, Debug)]
pub struct Minefield {
    /// The spots of the field, row after row.
    field: Vec<Spot>,
    /// Number of mines in the field.
    mines: u32,
    /// Width of the field grid.
    width: u16,
    /// Height of the field grid.
    height: u16,
}

impl View for Minefield {
    type V = Grid;

    /// The field as a mathematical value.
    closed spec fn view(&self) -> Grid {
        Grid {
            width: self.width as int,
            height: self.height as int,
            mines: self.mines as int,
            spots: Map::new(
                |c: (int, int)| 0 <= c.0 < self.width && 0 <= c.1 < self.height,
                |c: (int, int)| self.field@[c.1 * self.width + c.0].state,
            ),
        }
    }
}

impl Minefield {
    /// The vector holds one spot for each cell of a grid of at least one
    /// cell.
    pub closed spec fn laid_out(&self) -> bool {
        &&& self.width >= 1
        &&& self.height >= 1
        &&& self.field@.len() == self.width * self.height
    }

    /// The minefield is well formed: it is laid out as its size demands, and
    /// the field it stands for is valid.
    pub open spec fn wf(&self) -> bool {
        self.laid_out() && self@.valid()
    }

    /// The number of hidden empty spots left in the field.
    closed spec fn hidden_left(&self) -> nat {
        hidden_in(self.field@)
    }

    /// Create an empty minefield grid (with all spots hidden), with the
    /// given width and height. A width or height of zero counts as one.
    pub fn new(width: u16, height: u16) -> (minefield: Minefield)
        ensures
            minefield.wf(),
            minefield@ == Grid::empty(
                if width == 0 {
                    1
                } else {
                    width as int
                },
                if height == 0 {
                    1
                } else {
                    height as int
                },
            ),
            forall|c: (int, int)| #[trigger]
                minefield@.in_bounds(c) ==> minefield@.spots[c] == (SpotState::HiddenEmpty {
                    neighboring_mines: 0,
                }),
    {
        let width: u16 = if width == 0 {
            1
        } else {
            width
        };
        let height: u16 = if height == 0 {
            1
        } else {
            height
        };
        assert(width * height <= 65535 * 65535) by (nonlinear_arith)
            requires
                width <= 65535,
                height <= 65535,
        ;
        let spot_count: usize = width as usize * height as usize;
        let mut field: Vec<Spot> = Vec::new();
        for i in 0..spot_count
            invariant
                field@.len() == i,
                forall|j: int|
                    0 <= j < i ==> (#[trigger] field@[j]).state == (SpotState::HiddenEmpty {
                        neighboring_mines: 0,
                    }),
        {
            field.push(Spot::default());
        }
        let minefield = Minefield { field, mines: 0, width, height };
        proof {
            assert forall|c: (int, int)| 0 <= c.0 < width && 0 <= c.1 < height implies (
            #[trigger] minefield.field@[c.1 * width + c.0]).state == (SpotState::HiddenEmpty {
                neighboring_mines: 0,
            }) by {
                lemma_place(width as int, height as int, c);
            }
            assert(minefield@.spots =~= Grid::empty(width as int, height as int).spots);
            Grid::lemma_empty_valid(width as int, height as int);
        }
        minefield
    }

    /// The width of the minefield.
    pub fn width(&self) -> (width: u16)
        ensures
            width == self@.width,
    {
        self.width
    }

    /// The height of the minefield.
    pub fn height(&self) -> (height: u16)
        ensures
            height == self@.height,
    {
        self.height
    }

    /// The number of mines in the minefield.
    pub fn mines(&self) -> (mines: u32)
        ensures
            mines == self@.mines,
    {
        self.mines
    }

    /// The place of a cell in the vector of spots.
    fn place(&self, x: u16, y: u16) -> (i: usize)
        requires
            self.laid_out(),
            x < self.width,
            y < self.height,
        ensures
            i == y * self.width + x,
            i < self.field@.len(),
    {
        proof {
            lemma_place(self.width as int, self.height as int, cell(x, y));
            assert(self.width * self.height <= 65535 * 65535) by (nonlinear_arith)
                requires
                    self.width <= 65535,
                    self.height <= 65535,
            ;
        }
        y as usize * self.width as usize + x as usize
    }

    /// The state of the spot on a cell of the grid.
    fn state_at(&self, x: u16, y: u16) -> (state: SpotState)
        requires
            self.laid_out(),
            self@.in_bounds(cell(x, y)),
        ensures
            state == self@.spots[cell(x, y)],
    {
        let i = self.place(x, y);
        self.field[i].state
    }

    /// Replace the state of the spot on a cell of the grid.
    fn set_state(&mut self, x: u16, y: u16, state: SpotState)
        requires
            old(self).laid_out(),
            old(self)@.in_bounds(cell(x, y)),
        ensures
            final(self).laid_out(),
            final(self)@ == old(self)@.with_spot(cell(x, y), state),
            final(self).hidden_left() + (if old(self)@.spots[cell(x, y)] is HiddenEmpty {
                1int
            } else {
                0int
            }) == old(self).hidden_left() + (if state is HiddenEmpty {
                1int
            } else {
                0int
            }),
    {
        let i = self.place(x, y);
        let ghost before = *self;
        self.field[i] = Spot { state };
        proof {
            lemma_hidden_update(before.field@, i as int, Spot { state });
            assert forall|c: (int, int)| before@.in_bounds(c) implies #[trigger] self@.spots[c]
                == before@.with_spot(cell(x, y), state).spots[c] by {
                lemma_place(self.width as int, self.height as int, c);
                lemma_place(self.width as int, self.height as int, cell(x, y));
            }
            assert(self@.spots =~= before@.with_spot(cell(x, y), state).spots);
        }
    }

    /// Place a mine at the given coordinates, and update the neighboring
    /// spots: the spot becomes a hidden mine, and every empty spot around it
    /// counts one mine more. A spot that already holds a mine stays as it
    /// is, and so does the whole field.
    pub fn place_mine(&mut self, x: u16, y: u16)
        requires
            old(self).wf(),
            x < old(self)@.width,
            y < old(self)@.height,
        ensures
            final(self).wf(),
            final(self)@ == old(self)@.with_mine(cell(x, y)),
            old(self)@.spots[cell(x, y)].is_mine() ==> final(self)@ == old(self)@,
            !old(self)@.spots[cell(x, y)].is_mine() ==> final(self)@.spots[cell(x, y)]
                == SpotState::HiddenMine,
            !old(self)@.spots[cell(x, y)].is_mine() ==> forall|n: (int, int)| #[trigger]
                old(self)@.in_bounds(n) && adjacent(cell(x, y), n) && !old(self)@.spots[n].is_mine()
                    ==> final(self)@.spots[n].count() == old(self)@.spots[n].count() + 1,
    {
        let ghost before = self@;
        let ghost c = cell(x, y);
        proof {
            before.lemma_with_mine_valid(c);
        }
        match self.state_at(x, y) {
            SpotState::HiddenEmpty { .. }
            | SpotState::FlaggedEmpty { .. }
            | SpotState::RevealedEmpty { .. } => {
                self.set_state(x, y, SpotState::HiddenMine);
                let around = self.neighbors_coords(x, y);
                proof {
                    assert(self@.other_than(c) =~= before.other_than(c));
                    before.lemma_neighbors_touch(c);
                    before.lemma_neighbors_distinct(c);
                }
                for k in 0..around.len()
                    invariant
                        self.laid_out(),
                        before.valid(),
                        before.in_bounds(c),
                        !before.spots[c].is_mine(),
                        self@.width == before.width,
                        self@.height == before.height,
                        self@.mines == before.mines,
                        cells(around@) == before.neighbors(c),
                        cells(around@).no_duplicates(),
                        forall|i: int|
                            0 <= i < around@.len() ==> before.in_bounds(
                                #[trigger] cells(around@)[i],
                            ) && adjacent(c, cells(around@)[i]),
                        forall|n: (int, int)| #[trigger]
                            before.in_bounds(n) && !before.spots[n].is_mine() ==> before.spots[n].count()
                                <= 8,
                        self@.spots.dom() == before.spots.dom(),
                        forall|n: (int, int)| #[trigger]
                            before.in_bounds(n) ==> self@.spots[n] == if n == c {
                                SpotState::HiddenMine
                            } else if cells(around@).take(k as int).contains(n) {
                                before.spots[n].with_one_more()
                            } else {
                                before.spots[n]
                            },
                {
                    let (nx, ny) = around[k];
                    let ghost n = cell(nx, ny);
                    let ghost earlier = self@;
                    proof {
                        assert(cells(around@)[k as int] == n);
                        assert(before.in_bounds(n));
                        assert(!cells(around@).take(k as int).contains(n));
                        assert(self@.spots[n] == before.spots[n]);
                    }
                    match self.state_at(nx, ny) {
                        SpotState::HiddenEmpty { neighboring_mines } => {
                            self.set_state(
                                nx,
                                ny,
                                SpotState::HiddenEmpty { neighboring_mines: neighboring_mines + 1 },
                            );
                        },
                        SpotState::FlaggedEmpty { neighboring_mines } => {
                            self.set_state(
                                nx,
                                ny,
                                SpotState::FlaggedEmpty { neighboring_mines: neighboring_mines + 1 },
                            );
                        },
                        SpotState::RevealedEmpty { neighboring_mines } => {
                            self.set_state(
                                nx,
                                ny,
                                SpotState::RevealedEmpty {
                                    neighboring_mines: neighboring_mines + 1,
                                },
                            );
                        },
                        _ => {},
                    }
                    proof {
                        let done = cells(around@).take(k as int);
                        let next = cells(around@).take(k + 1);
                        assert(next =~= done.push(n));
                        assert forall|m: (int, int)| #[trigger]
                            before.in_bounds(m) implies self@.spots[m] == if m == c {
                            SpotState::HiddenMine
                        } else if next.contains(m) {
                            before.spots[m].with_one_more()
                        } else {
                            before.spots[m]
                        } by {
                            assert(earlier.in_bounds(m));
                            if m == n {
                                assert(next[k as int] == m);
                            } else if done.contains(m) {
                                let i = choose|i: int| 0 <= i < done.len() && done[i] == m;
                                assert(next[i] == m);
                            } else if next.contains(m) {
                                let i = choose|i: int| 0 <= i < next.len() && next[i] == m;
                                assert(done[i] == m);
                            }
                        }
                    }
                }
                proof {
                    let after = before.with_mine(c);
                    assert(cells(around@).take(around@.len() as int) =~= cells(around@));
                    assert forall|n: (int, int)| before.in_bounds(n) implies #[trigger] self@.spots[n]
                        == after.spots[n] by {
                        if adjacent(c, n) {
                            before.lemma_neighbors_hold(c, n);
                        }
                    }
                    assert(self@.spots =~= after.spots);
                }
            },
            _ => {},
        }
    }

    /// Build an existing minefield with the given number of mines randomly
    /// placed in it. The number is cut down to the number of spots. Each
    /// mine goes to a spot drawn by chance from those not drawn before, so
    /// the mines fall on as many different spots.
    pub fn with_mines(self, mines: u32) -> (minefield: Minefield)
        requires
            self.wf(),
        ensures
            minefield.wf(),
            minefield@.width == self@.width,
            minefield@.height == self@.height,
            minefield@.mines == if mines <= self@.width * self@.height {
                mines as int
            } else {
                self@.width * self@.height
            },
            exists|placed: Seq<(int, int)>|
                #[trigger] self@.distinct_cells(placed) && placed.len() == minefield@.mines
                    && minefield@ == self@.asked_for(minefield@.mines).with_mines_at(placed),
    {
        let ghost start = self@;
        let mut minefield = self;
        assert(minefield.width * minefield.height <= 65535 * 65535) by (nonlinear_arith)
            requires
                minefield.width <= 65535,
                minefield.height <= 65535,
        ;
        // Total number of spots in our field
        let spot_count: usize = minefield.width as usize * minefield.height as usize;
        // Limit the max number of mines to the number of available spots
        let mine_count: u32 = if mines as usize <= spot_count {
            mines
        } else {
            spot_count as u32
        };
        minefield.mines = mine_count;
        let ghost asked = start.asked_for(mine_count as int);
        proof {
            assert(minefield@.spots =~= asked.spots);
            assert forall|c: (int, int)| #[trigger]
                asked.in_bounds(c) && !asked.spots[c].is_mine() implies asked.spots[c].count()
                == asked.mines_around(c) by {
                assert(start.in_bounds(c));
                asked.lemma_mines_around_same(start, c);
            }
            assert(asked.spots.dom() =~= Set::new(|c: (int, int)| asked.in_bounds(c)));
            assert(minefield@ == asked);
        }
        // Drawing among the spots that are still free places every mine at
        // the first try, however full the field is.
        let mut spots_remaining = all_places(spot_count);
        let mut rng = rand::thread_rng();
        let ghost mut placed: Seq<(int, int)> = Seq::empty();
        for i in 0..mine_count
            invariant
                minefield.wf(),
                spot_count == start.width * start.height,
                mine_count <= spot_count,
                start.width >= 1,
                asked == start.asked_for(mine_count as int),
                minefield@ == asked.with_mines_at(placed),
                spots_remaining@.len() == spot_count - i,
                spots_remaining@.no_duplicates(),
                forall|j: int|
                    0 <= j < spots_remaining@.len() ==> (#[trigger] spots_remaining@[j]) < spot_count,
                placed.len() == i,
                start.distinct_cells(placed),
                forall|j: int, k: int|
                    0 <= j < spots_remaining@.len() && 0 <= k < placed.len() ==> start.cell_at(
                        #[trigger] spots_remaining@[j] as int,
                    ) != #[trigger] placed[k],
        {
            let ghost pool = spots_remaining@;
            let ghost earlier = placed;
            proof {
                asked.lemma_with_mines_at_size(placed);
            }
            let index_rm = draw_below(&mut rng, spots_remaining.len());
            minefield.place_drawn_mine(&mut spots_remaining, index_rm);
            proof {
                let taken = pool[index_rm as int];
                let c = start.cell_at(taken as int);
                placed = placed.push(c);
                assert(placed.drop_last() =~= earlier);
                lemma_pool_left(pool, index_rm as int);
                lemma_cell_of_place(start.width, start.height, taken as int);
                assert forall|j: int| 0 <= j < spots_remaining@.len() implies (
                #[trigger] spots_remaining@[j]) < spot_count && start.cell_at(
                    spots_remaining@[j] as int,
                ) != c by {
                    let left = spots_remaining@[j];
                    assert(pool.contains(left));
                    lemma_cell_of_place(start.width, start.height, left as int);
                }
                assert forall|j: int, k: int|
                    0 <= j < spots_remaining@.len() && 0 <= k < placed.len() implies start.cell_at(
                    #[trigger] spots_remaining@[j] as int,
                ) != #[trigger] placed[k] by {
                    assert(pool.contains(spots_remaining@[j]));
                    if k < earlier.len() {
                        assert(placed[k] == earlier[k]);
                    }
                }
                assert forall|j: int, k: int|
                    0 <= j < placed.len() && 0 <= k < placed.len() && j != k implies placed[j]
                    != placed[k] by {
                    if j < earlier.len() && k < earlier.len() {
                        assert(earlier[j] != earlier[k]);
                    } else if j < earlier.len() {
                        assert(placed[j] == earlier[j]);
                    } else {
                        assert(placed[k] == earlier[k]);
                    }
                }
                assert forall|j: int| 0 <= j < placed.len() implies start.in_bounds(
                    #[trigger] placed[j],
                ) by {
                    if j < earlier.len() {
                        assert(start.in_bounds(earlier[j]));
                    }
                }
            }
        }
        proof {
            asked.lemma_with_mines_at_size(placed);
        }
        minefield
    }

    /// Take one of the remaining places out of the pool and put a mine on
    /// its cell. The place at `index_rm` leaves the pool and the last place
    /// of the pool moves to where it stood.
    pub fn place_drawn_mine(&mut self, spots_remaining: &mut Vec<usize>, index_rm: usize)
        requires
            old(self).wf(),
            index_rm < old(spots_remaining)@.len(),
            forall|j: int|
                0 <= j < old(spots_remaining)@.len() ==> (#[trigger] old(spots_remaining)@[j])
                    < old(self)@.width * old(self)@.height,
        ensures
            final(self).wf(),
            final(self)@ == old(self)@.with_mine(
                old(self)@.cell_at(old(spots_remaining)@[index_rm as int] as int),
            ),
            final(spots_remaining)@ == old(spots_remaining)@.update(
                index_rm as int,
                old(spots_remaining)@.last(),
            ).drop_last(),
    {
        let index = spots_remaining.swap_remove(index_rm);
        proof {
            lemma_cell_of_place(self.width as int, self.height as int, index as int);
        }
        let x = (index % self.width as usize) as u16;
        let y = (index / self.width as usize) as u16;
        self.place_mine(x, y);
    }

    /// Step on a given spot of the field. Coordinates `(0, 0)` name the
    /// top-left spot of the grid. Outside the grid the step is invalid and
    /// changes nothing. On the grid the spot takes its step; where that
    /// reveals a spot with no mine around it, the reveal spreads to every
    /// hidden empty spot that a flood path reaches.
    pub fn step(&mut self, x: u16, y: u16) -> (result: StepResult)
        requires
            old(self).wf(),
        ensures
            final(self).wf(),
            final(self)@ == old(self)@.stepped(cell(x, y)),
            result == old(self)@.step_result(cell(x, y)),
            !old(self)@.in_bounds(cell(x, y)) ==> result == StepResult::Invalid && final(self)@
                == old(self)@,
            old(self)@.in_bounds(cell(x, y)) && old(self)@.spots[cell(x, y)] is HiddenMine
                ==> result == StepResult::Boom && final(self)@ == old(self)@.with_spot(
                cell(x, y),
                SpotState::ExplodedMine,
            ),
            old(self)@.in_bounds(cell(x, y)) && old(self)@.spots[cell(x, y)] is HiddenEmpty
                ==> result == StepResult::Phew && forall|n: (int, int)| #[trigger]
                old(self)@.in_bounds(n) ==> final(self)@.spots[n] == if old(self)@.floods(
                    cell(x, y),
                    n,
                ) {
                    SpotState::RevealedEmpty {
                        neighboring_mines: old(self)@.spots[n].count() as u8,
                    }
                } else {
                    old(self)@.spots[n]
                },
            forall|n: (int, int)| #[trigger]
                old(self)@.in_bounds(n) && n != cell(x, y) && !(old(self)@.spots[n] is HiddenEmpty)
                    ==> final(self)@.spots[n] == old(self)@.spots[n],
    {
        let ghost before = self@;
        let ghost c = cell(x, y);
        proof {
            before.lemma_stepped_valid(c);
            if before.in_bounds(c) && before.spots[c] is HiddenEmpty {
                before.lemma_floods_itself(c);
            }
            assert forall|n: (int, int)| #[trigger]
                before.in_bounds(n) && before.floods(c, n) implies before.spots[n] is HiddenEmpty
                && before.spots[c] is HiddenEmpty by {
                before.lemma_floods_ends(c, n);
            }
        }
        if x >= self.width || y >= self.height {
            proof {
                assert forall|n: (int, int)| before.in_bounds(n) implies !before.floods(c, n) by {
                    if before.floods(c, n) {
                        before.lemma_floods_ends(c, n);
                    }
                }
                assert(before.stepped(c).spots =~= before.spots);
            }
            return StepResult::Invalid;
        }
        let mut spot = Spot { state: self.state_at(x, y) };
        let result = spot.step();
        self.set_state(x, y, spot.state);
        match (result, spot.state) {
            (StepResult::Phew, SpotState::RevealedEmpty { neighboring_mines: 0 }) => {
                self.flood_reveal(x, y, Ghost(before));
            },
            _ => {
                proof {
                    assert forall|n: (int, int)| before.in_bounds(n) && n != c implies !before.floods(
                        c,
                        n,
                    ) by {
                        if before.floods(c, n) {
                            before.lemma_floods_ends(c, n);
                        }
                    }
                    assert(self@.spots =~= before.stepped(c).spots);
                }
            },
        }
        result
    }

    /// Reveal every hidden empty spot that a step on the given spot floods.
    /// The spot itself has just been revealed and sees no mine; `before` is
    /// the field as it was before that.
    fn flood_reveal(&mut self, x: u16, y: u16, Ghost(before): Ghost<Grid>)
        requires
            old(self).laid_out(),
            before.valid(),
            before.in_bounds(cell(x, y)),
            before.spots[cell(x, y)] == (SpotState::HiddenEmpty { neighboring_mines: 0 }),
            old(self)@ == before.with_spot(
                cell(x, y),
                SpotState::RevealedEmpty { neighboring_mines: 0 },
            ),
        ensures
            final(self).laid_out(),
            final(self)@ == before.stepped(cell(x, y)),
    {
        let ghost c = cell(x, y);
        let mut spots_to_visit: Vec<(u16, u16)> = Vec::new();
        spots_to_visit.push((x, y));
        proof {
            before.lemma_floods_itself(c);
            assert(self@.spots.dom() =~= before.spots.dom());
            assert(cells(spots_to_visit@)[0] == c);
            assert(cells(spots_to_visit@).contains(c));
            assert forall|n: (int, int), m: (int, int)|
                before.in_bounds(n) && before.floods(c, n) && before.spots[n].count() == 0
                    && self@.spots[n] is RevealedEmpty && !cells(spots_to_visit@).contains(n)
                    && before.in_bounds(m) && #[trigger] adjacent(n, m) implies !(
            self@.spots[m] is HiddenEmpty) by {
                before.lemma_floods_ends(c, n);
            }
        }
        while spots_to_visit.len() > 0
            invariant
                self.laid_out(),
                before.valid(),
                before.in_bounds(c),
                before.spots[c] == (SpotState::HiddenEmpty { neighboring_mines: 0 }),
                self@.spots[c] is RevealedEmpty,
                partly_flooded(before, self@, c),
                settled(before, self@, c, cells(spots_to_visit@)),
                forall|i: int|
                    0 <= i < spots_to_visit@.len() ==> before.floods(
                        c,
                        #[trigger] cells(spots_to_visit@)[i],
                    ) && before.spots[cells(spots_to_visit@)[i]].count() == 0,
            decreases self.hidden_left(), spots_to_visit@.len(),
        {
            let ghost hidden_then = self.hidden_left();
            let ghost waiting_then = cells(spots_to_visit@);
            let (xx, yy) = spots_to_visit.pop().unwrap();
            let ghost p = cell(xx, yy);
            proof {
                let waiting = cells(spots_to_visit@);
                assert(waiting_then[waiting_then.len() - 1] == p);
                assert(waiting =~= waiting_then.drop_last());
                assert(waiting_then =~= waiting.push(p));
                before.lemma_floods_ends(c, p);
            }
            let around = self.neighbors_coords(xx, yy);
            proof {
                assert(self@.other_than(p) =~= before.other_than(p));
                before.lemma_neighbors_touch(p);
            }
            for k in 0..around.len()
                invariant
                    self.laid_out(),
                    before.valid(),
                    before.in_bounds(c),
                    before.in_bounds(p),
                    before.floods(c, p),
                    before.spots[p].count() == 0,
                    self@.spots[c] is RevealedEmpty,
                    partly_flooded(before, self@, c),
                    settled(before, self@, c, cells(spots_to_visit@).push(p)),
                    forall|i: int|
                        0 <= i < spots_to_visit@.len() ==> before.floods(
                            c,
                            #[trigger] cells(spots_to_visit@)[i],
                        ) && before.spots[cells(spots_to_visit@)[i]].count() == 0,
                    cells(around@) == before.neighbors(p),
                    forall|i: int|
                        0 <= i < around@.len() ==> before.in_bounds(#[trigger] cells(around@)[i])
                            && adjacent(p, cells(around@)[i]),
                    forall|i: int|
                        0 <= i < k ==> !(self@.spots[#[trigger] cells(around@)[i]] is HiddenEmpty),
                    self.hidden_left() <= hidden_then,
                    self.hidden_left() == hidden_then ==> spots_to_visit@.len() + 1
                        == waiting_then.len(),
            {
                let (nx, ny) = around[k];
                let ghost n = cell(nx, ny);
                let ghost earlier = self@;
                let ghost waiting_earlier = cells(spots_to_visit@);
                proof {
                    assert(cells(around@)[k as int] == n);
                    assert(before.in_bounds(n));
                }
                if let SpotState::HiddenEmpty { neighboring_mines } = self.state_at(nx, ny) {
                    // Reveal the hidden empty spot by stepping on it
                    let mut spot = Spot { state: SpotState::HiddenEmpty { neighboring_mines } };
                    spot.step();
                    self.set_state(nx, ny, spot.state);
                    if neighboring_mines == 0 {
                        // continue flood revealing neighbors from this spot
                        spots_to_visit.push((nx, ny));
                    }
                    proof {
                        let waiting_now = cells(spots_to_visit@);
                        assert(earlier.spots[n] == before.spots[n]);
                        before.lemma_floods_on(c, p, n);
                        if neighboring_mines == 0 {
                            assert(waiting_now =~= waiting_earlier.push(n));
                            assert(waiting_now[waiting_now.len() - 1] == n);
                        }
                        assert forall|i: int| 0 <= i < spots_to_visit@.len() implies before.floods(
                            c,
                            #[trigger] waiting_now[i],
                        ) && before.spots[waiting_now[i]].count() == 0 by {
                            if i < waiting_earlier.len() {
                                assert(waiting_now[i] == waiting_earlier[i]);
                            }
                        }
                        assert forall|a: (int, int), b: (int, int)|
                            before.in_bounds(a) && before.floods(c, a) && before.spots[a].count()
                                == 0 && self@.spots[a] is RevealedEmpty && !waiting_now.push(
                                p,
                            ).contains(a) && before.in_bounds(b) && #[trigger] adjacent(a, b) implies !(
                        self@.spots[b] is HiddenEmpty) by {
                            assert(earlier.in_bounds(a) && earlier.in_bounds(b));
                            if a == n {
                                assert(neighboring_mines == 0);
                                assert(waiting_now.push(p)[waiting_now.len() - 1] == n);
                            } else {
                                if waiting_earlier.push(p).contains(a) {
                                    let i = choose|i: int|
                                        0 <= i < waiting_earlier.push(p).len()
                                            && waiting_earlier.push(p)[i] == a;
                                    if i < waiting_earlier.len() {
                                        assert(waiting_now.push(p)[i] == a);
                                    } else {
                                        assert(waiting_now.push(p)[waiting_now.len() as int] == a);
                                    }
                                }
                                assert(earlier.spots[a] is RevealedEmpty);
                                assert(!(earlier.spots[b] is HiddenEmpty));
                            }
                        }
                        assert forall|i: int| 0 <= i < k implies !(self@.spots[#[trigger] cells(
                            around@,
                        )[i]] is HiddenEmpty) by {
                            assert(!(earlier.spots[cells(around@)[i]] is HiddenEmpty));
                        }
                        assert forall|m: (int, int)| #[trigger]
                            before.in_bounds(m) implies self@.spots[m] == before.spots[m] || (
                        before.floods(c, m) && self@.spots[m] == before.spots[m].stepped()) by {
                            assert(earlier.in_bounds(m));
                        }
                    }
                }
            }
            proof {
                let now = self@;
                let waiting = cells(spots_to_visit@);
                assert forall|a: (int, int), b: (int, int)|
                    before.in_bounds(a) && before.floods(c, a) && before.spots[a].count() == 0
                        && now.spots[a] is RevealedEmpty && !waiting.contains(a) && before.in_bounds(
                        b,
                    ) && #[trigger] adjacent(a, b) implies !(now.spots[b] is HiddenEmpty) by {
                    if a == p {
                        before.lemma_neighbors_hold(p, b);
                        let i = choose|i: int|
                            0 <= i < cells(around@).len() && cells(around@)[i] == b;
                        assert(!(now.spots[cells(around@)[i]] is HiddenEmpty));
                    } else {
                        if waiting.push(p).contains(a) {
                            let i = choose|i: int|
                                0 <= i < waiting.push(p).len() && waiting.push(p)[i] == a;
                            assert(waiting[i] == a);
                        }
                    }
                }
            }
        }
        proof {
            let now = self@;
            let after = before.stepped(c);
            assert(cells(spots_to_visit@) =~= Seq::<(int, int)>::empty());
            assert forall|n: (int, int)| before.in_bounds(n) implies #[trigger] now.spots[n]
                == after.spots[n] by {
                if n != c && before.floods(c, n) {
                    let path = choose|path: Seq<(int, int)>|
                        #[trigger] before.is_flood_path(path) && path.first() == c && path.last()
                            == n;
                    before.lemma_flood_reaches(now, c, path, path.len() - 1);
                    before.lemma_floods_ends(c, n);
                }
            }
            assert(now.spots =~= after.spots);
        }
    }

    /// Automatically step on all neighbors of a revealed spot at the given
    /// coordinates. The move is taken only if as many flags stand around the
    /// spot as it counts mines; otherwise, and off the grid, and on a spot
    /// that is not revealed, it is invalid and changes nothing. The
    /// neighbors are stepped on in turn; the first mine that goes off ends
    /// the move, and what was revealed before it stays revealed.
    pub fn auto_step(&mut self, x: u16, y: u16) -> (result: StepResult)
        requires
            old(self).wf(),
        ensures
            final(self).wf(),
            final(self)@ == old(self)@.auto_stepped(cell(x, y)),
            result == old(self)@.auto_step_result(cell(x, y)),
            !old(self)@.can_auto_step(cell(x, y)) ==> result == StepResult::Invalid && final(self)@
                == old(self)@,
            old(self)@.can_auto_step(cell(x, y)) ==> (result == StepResult::Boom
                <==> exists|n: (int, int)|
                old(self)@.in_bounds(n) && #[trigger] adjacent(cell(x, y), n)
                    && old(self)@.spots[n] is HiddenMine),
            old(self)@.can_auto_step(cell(x, y)) ==> result == StepResult::Boom || result
                == StepResult::Phew,
    {
        let ghost before = self@;
        let ghost c = cell(x, y);
        proof {
            before.lemma_auto_step_report(c);
        }
        if x >= self.width || y >= self.height {
            return StepResult::Invalid;
        }
        if let SpotState::RevealedEmpty { neighboring_mines } = self.state_at(x, y) {
            let around = self.neighbors_coords(x, y);
            proof {
                before.lemma_neighbors_touch(c);
                before.lemma_neighbors_few(c);
            }
            // count the flags around the given coords
            let mut placed_flags: u8 = 0;
            proof {
                reveal(Seq::filter);
                assert(cells(around@).take(0).filter(before.holds_flag()).len() == 0);
            }
            for k in 0..around.len()
                invariant
                    self.laid_out(),
                    self@ == before,
                    around@.len() <= 8,
                    cells(around@) == before.neighbors(c),
                    forall|i: int|
                        0 <= i < around@.len() ==> before.in_bounds(#[trigger] cells(around@)[i]),
                    placed_flags <= k,
                    placed_flags == cells(around@).take(k as int).filter(before.holds_flag()).len(),
            {
                let (nx, ny) = around[k];
                proof {
                    let n = cell(nx, ny);
                    assert(cells(around@)[k as int] == n);
                    assert(before.in_bounds(n));
                    assert(cells(around@).take(k + 1) =~= cells(around@).take(k as int).push(n));
                    cells(around@).take(k as int).lemma_filter_push(n, before.holds_flag());
                }
                if matches!(
                    self.state_at(nx, ny),
                    SpotState::FlaggedEmpty { .. } | SpotState::FlaggedMine
                ) {
                    placed_flags += 1;
                }
            }
            assert(cells(around@).take(around@.len() as int) =~= cells(around@));
            // Only try to autostep if the user has placed enough flags around
            // the spot whose neighbors will be revealed
            if placed_flags == neighboring_mines {
                assert(cells(around@).skip(0) =~= cells(around@));
                for k in 0..around.len()
                    invariant
                        self.wf(),
                        before == old(self)@,
                        c == cell(x, y),
                        before.can_auto_step(c),
                        self@.stepped_in_turn(cells(around@).skip(k as int))
                            == before.stepped_in_turn(before.neighbors(c)),
                {
                    let (nx, ny) = around[k];
                    proof {
                        let rest = cells(around@).skip(k as int);
                        assert(rest.first() == cell(nx, ny));
                        assert(rest.drop_first() =~= cells(around@).skip(k + 1));
                    }
                    if StepResult::Boom == self.step(nx, ny) {
                        // Eager Boom return
                        proof {
                            before.lemma_auto_step_report(c);
                        }
                        return StepResult::Boom;
                    }
                }
                StepResult::Phew
            } else {
                // Not enough flags placed by user in order to autostep
                StepResult::Invalid
            }
        } else {
            // Spot is not revealed yet
            StepResult::Invalid
        }
    }

    /// Check if the minefield has been cleared: every spot is a revealed
    /// empty spot or a flagged mine.
    pub fn is_cleared(&self) -> (cleared: bool)
        requires
            self.wf(),
        ensures
            cleared == self@.cleared(),
            cleared <==> forall|c: (int, int)| #[trigger]
                self@.in_bounds(c) ==> self@.spots[c] is RevealedEmpty
                    || self@.spots[c] is FlaggedMine,
    {
        for i in 0..self.field.len()
            invariant
                self.laid_out(),
                forall|j: int| 0 <= j < i ==> (#[trigger] self.field@[j]).state.is_resolved(),
        {
            if !self.field[i].is_resolved() {
                proof {
                    lemma_cell_of_place(self.width as int, self.height as int, i as int);
                    let c = (i as int % self.width as int, i as int / self.width as int);
                    assert(self@.in_bounds(c));
                    assert(self@.spots[c] == self.field@[i as int].state);
                }
                return false;
            }
        }
        proof {
            assert forall|c: (int, int)| #[trigger] self@.in_bounds(c) implies self@.spots[c].is_resolved() by {
                lemma_place(self.width as int, self.height as int, c);
            }
        }
        true
    }

    /// Set a flag on a hidden spot, or clear the flag if the spot had one,
    /// or do nothing if the spot cannot be flagged or lies off the grid.
    pub fn toggle_flag(&mut self, x: u16, y: u16) -> (result: FlagToggleResult)
        requires
            old(self).wf(),
        ensures
            final(self).wf(),
            final(self)@ == old(self)@.flag_toggled(cell(x, y)),
            result == old(self)@.flag_result(cell(x, y)),
    {
        proof {
            self@.lemma_flag_toggled_valid(cell(x, y));
        }
        if x >= self.width || y >= self.height {
            // invalid coordinates, no flag was added or removed
            return FlagToggleResult::Unchanged;
        }
        let mut spot = Spot { state: self.state_at(x, y) };
        let result = spot.flag();
        self.set_state(x, y, spot.state);
        result
    }

    /// The spot at the given coordinates, or nothing off the grid.
    pub fn spot(&self, x: u16, y: u16) -> (spot: Option<&Spot>)
        requires
            self.wf(),
        ensures
            self@.in_bounds(cell(x, y)) ==> spot.is_some() && spot.unwrap().state
                == self@.spots[cell(x, y)],
            !self@.in_bounds(cell(x, y)) ==> spot.is_none(),
    {
        if x < self.width && y < self.height {
            let i = self.place(x, y);
            Some(&self.field[i])
        } else {
            None
        }
    }

    /// All spots of the field together with their coordinates `(x, y)`, row
    /// after row from the top, each row from the left.
    pub fn spots(&self) -> (listing: Vec<((u16, u16), Spot)>)
        requires
            self.wf(),
        ensures
            listing@.len() == self@.width * self@.height,
            forall|i: int|
                0 <= i < listing@.len() ==> {
                    let c = self@.cell_at(i);
                    &&& self@.in_bounds(c)
                    &&& cell((#[trigger] listing@[i]).0.0, listing@[i].0.1) == c
                    &&& listing@[i].1.state == self@.spots[c]
                },
    {
        let mut listing: Vec<((u16, u16), Spot)> = Vec::new();
        for i in 0..self.field.len()
            invariant
                self.laid_out(),
                listing@.len() == i,
                forall|j: int|
                    0 <= j < i ==> {
                        let c = self@.cell_at(j);
                        &&& self@.in_bounds(c)
                        &&& cell((#[trigger] listing@[j]).0.0, listing@[j].0.1) == c
                        &&& listing@[j].1.state == self@.spots[c]
                    },
        {
            proof {
                lemma_cell_of_place(self.width as int, self.height as int, i as int);
            }
            let x = (i % self.width as usize) as u16;
            let y = (i / self.width as usize) as u16;
            listing.push(((x, y), self.field[i]));
        }
        listing
    }

    /// The coordinates of all neighbors of the given coordinates: the cells
    /// of the grid at most one column and one row away.
    pub fn neighbors_coords(&self, x: u16, y: u16) -> (around: Vec<(u16, u16)>)
        ensures
            cells(around@) == self@.neighbors(cell(x, y)),
    {
        let mut around: Vec<(u16, u16)> = Vec::new();
        let ghost keep = self@.other_than(cell(x, y));
        let ghost all = block(cell(x, y));
        proof {
            reveal(Seq::filter);
            assert(all.take(0).filter(keep) =~= cells(around@));
        }
        for k in 0..9u32
            invariant
                keep == self@.other_than(cell(x, y)),
                all == block(cell(x, y)),
                cells(around@) == all.take(k as int).filter(keep),
        {
            let column: u32 = x as u32 + k / 3;
            let row: u32 = y as u32 + k % 3;
            proof {
                assert(all.take(k + 1) =~= all.take(k as int).push(all[k as int]));
                all.take(k as int).lemma_filter_push(all[k as int], keep);
                assert(all[k as int] == (column - 1, row - 1));
            }
            if 1 <= column && column <= self.width as u32 && 1 <= row && row <= self.height as u32
                && !(column - 1 == x as u32 && row - 1 == y as u32) {
                let ghost found = around@;
                around.push(((column - 1) as u16, (row - 1) as u16));
                assert(cells(around@) =~= cells(found).push(all[k as int]));
            }
        }
        assert(all.take(9) =~= all);
        around
    }
}

} // verus!
