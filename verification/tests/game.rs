use minefield::{FlagToggleResult, Minefield, Spot, SpotState, StepResult};

/// One line per row: `#` hidden, `F` flagged, `*` exploded, `.` revealed with
/// no mine around, a digit for a revealed count.
fn picture(minefield: &Minefield) -> Vec<String> {
    let mut rows = Vec::new();
    for y in 0..minefield.height() {
        let mut row = String::new();
        for x in 0..minefield.width() {
            let sign = match minefield.spot(x, y).unwrap().state {
                SpotState::HiddenEmpty { .. } | SpotState::HiddenMine => "#".to_string(),
                SpotState::FlaggedEmpty { .. } | SpotState::FlaggedMine => "F".to_string(),
                SpotState::ExplodedMine => "*".to_string(),
                SpotState::RevealedEmpty { neighboring_mines: 0 } => ".".to_string(),
                SpotState::RevealedEmpty { neighboring_mines } => format!("{}", neighboring_mines),
            };
            row.push_str(&sign);
        }
        rows.push(row);
    }
    rows
}

fn states(minefield: &Minefield) -> Vec<SpotState> {
    minefield.spots().into_iter().map(|(_, spot)| spot.state).collect()
}

fn holds_mine(state: SpotState) -> bool {
    matches!(state, SpotState::HiddenMine | SpotState::FlaggedMine | SpotState::ExplodedMine)
}

fn maze() -> Minefield {
    let mut minefield = Minefield::new(10, 10);
    for (x, y) in [(2, 4), (5, 7), (7, 7), (9, 4), (6, 3), (3, 0)] {
        minefield.place_mine(x, y);
    }
    minefield
}

#[test]
fn new_field_is_hidden_and_empty() {
    let minefield = Minefield::new(7, 5);
    assert_eq!(minefield.width(), 7);
    assert_eq!(minefield.height(), 5);
    assert_eq!(minefield.mines(), 0);
    let listing = minefield.spots();
    assert_eq!(listing.len(), 35);
    for (_, spot) in listing {
        assert_eq!(spot.state, SpotState::HiddenEmpty { neighboring_mines: 0 });
    }
    assert!(!minefield.is_cleared());
}

#[test]
fn zero_width_or_height_counts_as_one() {
    let minefield = Minefield::new(0, 0);
    assert_eq!(minefield.width(), 1);
    assert_eq!(minefield.height(), 1);
    assert_eq!(minefield.spots().len(), 1);
    assert_eq!(
        minefield.spot(0, 0).unwrap().state,
        SpotState::HiddenEmpty { neighboring_mines: 0 }
    );
    assert!(minefield.spot(1, 0).is_none());
    assert!(minefield.spot(0, 1).is_none());

    let tall = Minefield::new(0, 3);
    assert_eq!((tall.width(), tall.height()), (1, 3));
    let wide = Minefield::new(4, 0);
    assert_eq!((wide.width(), wide.height()), (4, 1));
}

#[test]
fn spots_are_listed_row_after_row() {
    let mut minefield = Minefield::new(3, 2);
    minefield.place_mine(1, 1);
    let listing = minefield.spots();
    let coords: Vec<(u16, u16)> = listing.iter().map(|(c, _)| *c).collect();
    assert_eq!(coords, vec![(0, 0), (1, 0), (2, 0), (0, 1), (1, 1), (2, 1)]);
    for ((x, y), spot) in listing {
        assert_eq!(spot.state, minefield.spot(x, y).unwrap().state);
    }
    assert_eq!(minefield.spots()[4].1.state, SpotState::HiddenMine);
}

#[test]
fn spot_outside_the_grid_is_none() {
    let minefield = Minefield::new(3, 4);
    assert!(minefield.spot(2, 3).is_some());
    assert!(minefield.spot(3, 0).is_none());
    assert!(minefield.spot(0, 4).is_none());
    assert!(minefield.spot(u16::MAX, u16::MAX).is_none());
}

#[test]
fn neighbors_of_corners_edges_and_inner_spots() {
    let minefield = Minefield::new(3, 4);
    // the four corners
    assert_eq!(minefield.neighbors_coords(0, 0), vec![(0, 1), (1, 0), (1, 1)]);
    assert_eq!(minefield.neighbors_coords(2, 0), vec![(1, 0), (1, 1), (2, 1)]);
    assert_eq!(minefield.neighbors_coords(0, 3), vec![(0, 2), (1, 2), (1, 3)]);
    assert_eq!(minefield.neighbors_coords(2, 3), vec![(1, 2), (1, 3), (2, 2)]);
    // the four edges
    assert_eq!(
        minefield.neighbors_coords(1, 0),
        vec![(0, 0), (0, 1), (1, 1), (2, 0), (2, 1)]
    );
    assert_eq!(
        minefield.neighbors_coords(1, 3),
        vec![(0, 2), (0, 3), (1, 2), (2, 2), (2, 3)]
    );
    assert_eq!(
        minefield.neighbors_coords(0, 1),
        vec![(0, 0), (0, 2), (1, 0), (1, 1), (1, 2)]
    );
    assert_eq!(
        minefield.neighbors_coords(2, 2),
        vec![(1, 1), (1, 2), (1, 3), (2, 1), (2, 3)]
    );
    // an inner spot
    assert_eq!(
        minefield.neighbors_coords(1, 1),
        vec![(0, 0), (0, 1), (0, 2), (1, 0), (1, 2), (2, 0), (2, 1), (2, 2)]
    );
}

#[test]
fn neighbors_of_coordinates_off_the_grid() {
    let minefield = Minefield::new(3, 4);
    assert_eq!(minefield.neighbors_coords(3, 0), vec![(2, 0), (2, 1)]);
    assert_eq!(minefield.neighbors_coords(3, 4), vec![(2, 3)]);
    assert_eq!(minefield.neighbors_coords(10, 10), vec![]);
    assert_eq!(minefield.neighbors_coords(u16::MAX, u16::MAX), vec![]);

    let lonely = Minefield::new(1, 1);
    assert_eq!(lonely.neighbors_coords(0, 0), vec![]);
}

#[test]
fn mine_raises_the_count_of_each_neighbor_by_one() {
    let mut minefield = Minefield::new(3, 4);
    minefield.place_mine(2, 0);
    assert_eq!(minefield.spot(2, 0).unwrap().state, SpotState::HiddenMine);
    for (x, y) in [(1, 0), (2, 1), (1, 1)] {
        assert_eq!(
            minefield.spot(x, y).unwrap().state,
            SpotState::HiddenEmpty { neighboring_mines: 1 }
        );
    }
    minefield.place_mine(0, 3);
    assert_eq!(minefield.spot(0, 3).unwrap().state, SpotState::HiddenMine);
    for (x, y) in [(0, 2), (1, 2), (1, 3)] {
        assert_eq!(
            minefield.spot(x, y).unwrap().state,
            SpotState::HiddenEmpty { neighboring_mines: 1 }
        );
    }
    // spots that touch neither mine still count none
    for (x, y) in [(0, 0), (0, 1), (2, 2), (2, 3)] {
        assert_eq!(
            minefield.spot(x, y).unwrap().state,
            SpotState::HiddenEmpty { neighboring_mines: 0 }
        );
    }
    assert_eq!(minefield.step(2, 0), StepResult::Boom);
}

#[test]
fn placing_a_mine_twice_changes_nothing() {
    let mut minefield = Minefield::new(3, 3);
    minefield.place_mine(1, 1);
    let once = states(&minefield);
    minefield.place_mine(1, 1);
    assert_eq!(states(&minefield), once);
    for (x, y) in minefield.neighbors_coords(1, 1) {
        assert_eq!(
            minefield.spot(x, y).unwrap().state,
            SpotState::HiddenEmpty { neighboring_mines: 1 }
        );
    }

    // a flagged mine stays flagged
    minefield.toggle_flag(1, 1);
    let flagged = states(&minefield);
    minefield.place_mine(1, 1);
    assert_eq!(states(&minefield), flagged);
    assert_eq!(minefield.spot(1, 1).unwrap().state, SpotState::FlaggedMine);
}

#[test]
fn mine_keeps_flags_and_reveals_of_its_neighbors() {
    let mut minefield = Minefield::new(3, 1);
    minefield.place_mine(2, 0);
    assert_eq!(minefield.toggle_flag(0, 0), FlagToggleResult::Added);
    assert_eq!(minefield.step(1, 0), StepResult::Phew);
    minefield.place_mine(0, 0);
    assert_eq!(minefield.spot(0, 0).unwrap().state, SpotState::HiddenMine);
    assert_eq!(
        minefield.spot(1, 0).unwrap().state,
        SpotState::RevealedEmpty { neighboring_mines: 2 }
    );
    assert_eq!(minefield.spot(2, 0).unwrap().state, SpotState::HiddenMine);

    let mut other = Minefield::new(2, 1);
    assert_eq!(other.toggle_flag(0, 0), FlagToggleResult::Added);
    other.place_mine(1, 0);
    assert_eq!(
        other.spot(0, 0).unwrap().state,
        SpotState::FlaggedEmpty { neighboring_mines: 1 }
    );
}

#[test]
fn eight_mines_around_one_spot() {
    let mut minefield = Minefield::new(3, 3);
    for (x, y) in minefield.neighbors_coords(1, 1) {
        minefield.place_mine(x, y);
    }
    assert_eq!(
        minefield.spot(1, 1).unwrap().state,
        SpotState::HiddenEmpty { neighboring_mines: 8 }
    );
    assert_eq!(minefield.step(1, 1), StepResult::Phew);
    assert_eq!(
        picture(&minefield),
        vec!["###", "#8#", "###"]
    );
}

#[test]
fn mine_count_is_cut_down_to_the_number_of_spots() {
    let minefield = Minefield::new(3, 4).with_mines(13);
    assert_eq!(minefield.mines(), 12);
    assert_eq!(minefield.width(), 3);
    assert_eq!(minefield.height(), 4);
    for (_, spot) in minefield.spots() {
        assert_eq!(spot.state, SpotState::HiddenMine);
    }

    let full = Minefield::new(2, 2).with_mines(u32::MAX);
    assert_eq!(full.mines(), 4);
    let exact = Minefield::new(2, 2).with_mines(4);
    assert_eq!(exact.mines(), 4);
    let fewer = Minefield::new(2, 2).with_mines(3);
    assert_eq!(fewer.mines(), 3);
}

#[test]
fn random_mines_fall_on_different_spots() {
    for mines in [0u32, 1, 7, 19, 20] {
        let minefield = Minefield::new(5, 4).with_mines(mines);
        assert_eq!(minefield.mines(), mines);
        let mut found = 0;
        for ((x, y), spot) in minefield.spots() {
            match spot.state {
                SpotState::HiddenMine => found += 1,
                SpotState::HiddenEmpty { neighboring_mines } => {
                    let around = minefield
                        .neighbors_coords(x, y)
                        .into_iter()
                        .filter(|(nx, ny)| holds_mine(minefield.spot(*nx, *ny).unwrap().state))
                        .count();
                    assert_eq!(neighboring_mines as usize, around);
                },
                other => panic!("unexpected state {:?}", other),
            }
        }
        assert_eq!(found, mines);
    }
}

#[test]
fn drawn_place_leaves_the_pool_and_gets_the_mine() {
    let mut minefield = Minefield::new(3, 3);
    let mut pool: Vec<usize> = (0..9).collect();
    minefield.place_drawn_mine(&mut pool, 4);
    assert_eq!(pool, vec![0, 1, 2, 3, 8, 5, 6, 7]);
    assert_eq!(minefield.spot(1, 1).unwrap().state, SpotState::HiddenMine);

    minefield.place_drawn_mine(&mut pool, 4);
    assert_eq!(pool, vec![0, 1, 2, 3, 7, 5, 6]);
    assert_eq!(minefield.spot(2, 2).unwrap().state, SpotState::HiddenMine);

    // the last place of the pool leaves without a swap
    minefield.place_drawn_mine(&mut pool, 6);
    assert_eq!(pool, vec![0, 1, 2, 3, 7, 5]);
    assert_eq!(minefield.spot(0, 2).unwrap().state, SpotState::HiddenMine);
    assert_eq!(
        picture_of_mines(&minefield),
        vec!["...", ".M.", "M.M"]
    );
}

fn picture_of_mines(minefield: &Minefield) -> Vec<String> {
    let mut rows = Vec::new();
    for y in 0..minefield.height() {
        let mut row = String::new();
        for x in 0..minefield.width() {
            if holds_mine(minefield.spot(x, y).unwrap().state) {
                row.push_str("M");
            } else {
                row.push_str(".");
            }
        }
        rows.push(row);
    }
    rows
}

#[test]
fn place_of_the_pool_names_column_and_row() {
    // place 4 of a field three spots wide is column 1 of row 1
    let mut minefield = Minefield::new(3, 2);
    let mut pool: Vec<usize> = vec![4];
    minefield.place_drawn_mine(&mut pool, 0);
    assert!(pool.is_empty());
    assert_eq!(picture_of_mines(&minefield), vec!["...", ".M."]);

    // place 5 of a field two spots wide is column 1 of row 2
    let mut narrow = Minefield::new(2, 3);
    let mut pool: Vec<usize> = vec![0, 5];
    narrow.place_drawn_mine(&mut pool, 1);
    assert_eq!(pool, vec![0]);
    assert_eq!(picture_of_mines(&narrow), vec!["..", "..", ".M"]);
}

#[test]
fn step_outside_the_grid_changes_nothing() {
    let mut minefield = maze();
    let before = states(&minefield);
    assert_eq!(minefield.step(10, 0), StepResult::Invalid);
    assert_eq!(minefield.step(0, 10), StepResult::Invalid);
    assert_eq!(minefield.step(u16::MAX, u16::MAX), StepResult::Invalid);
    assert_eq!(states(&minefield), before);
}

#[test]
fn step_on_mine_explodes_that_spot_alone() {
    let mut minefield = maze();
    let mut expected = states(&minefield);
    assert_eq!(minefield.step(6, 3), StepResult::Boom);
    expected[3 * 10 + 6] = SpotState::ExplodedMine;
    assert_eq!(states(&minefield), expected);

    // an exploded mine cannot be stepped on again
    assert_eq!(minefield.step(6, 3), StepResult::Invalid);
    assert_eq!(states(&minefield), expected);
}

#[test]
fn step_on_numbered_spot_reveals_that_spot_alone() {
    let mut minefield = maze();
    let mut expected = states(&minefield);
    assert_eq!(minefield.step(6, 6), StepResult::Phew);
    expected[6 * 10 + 6] = SpotState::RevealedEmpty { neighboring_mines: 2 };
    assert_eq!(states(&minefield), expected);
}

#[test]
fn flood_stops_at_numbers_and_spares_flags() {
    let mut minefield = maze();
    assert_eq!(minefield.toggle_flag(5, 1), FlagToggleResult::Added);
    assert_eq!(minefield.step(9, 6), StepResult::Phew);
    assert_eq!(
        picture(&minefield),
        vec![
            "..1#######",
            "..111F####",
            ".....1####",
            ".111.1####",
            ".1#1.1111#",
            ".111....11",
            "....11211.",
            "....1###1.",
            "....11211.",
            "..........",
        ]
    );
    // every mine is still hidden, the flag still stands on its empty spot
    for (x, y) in [(2, 4), (5, 7), (7, 7), (9, 4), (6, 3), (3, 0)] {
        assert_eq!(minefield.spot(x, y).unwrap().state, SpotState::HiddenMine);
    }
    assert_eq!(
        minefield.spot(5, 1).unwrap().state,
        SpotState::FlaggedEmpty { neighboring_mines: 0 }
    );

    // the cut-off corner floods on its own, up to the numbers around it
    assert_eq!(minefield.step(9, 0), StepResult::Phew);
    assert_eq!(
        picture(&minefield),
        vec![
            "..1#1.....",
            "..111F....",
            ".....111..",
            ".111.1#111",
            ".1#1.1111#",
            ".111....11",
            "....11211.",
            "....1###1.",
            "....11211.",
            "..........",
        ]
    );
}

#[test]
fn flood_reveals_a_field_without_mines() {
    let mut minefield = Minefield::new(6, 3);
    assert_eq!(minefield.step(5, 2), StepResult::Phew);
    assert_eq!(picture(&minefield), vec!["......", "......", "......"]);
    assert!(minefield.is_cleared());
}

#[test]
fn flood_does_not_pass_a_wall_of_flags() {
    let mut minefield = Minefield::new(5, 1);
    assert_eq!(minefield.toggle_flag(2, 0), FlagToggleResult::Added);
    assert_eq!(minefield.step(0, 0), StepResult::Phew);
    assert_eq!(picture(&minefield), vec!["..F##"]);
}

#[test]
fn step_on_revealed_spot_is_invalid_and_reveals_nothing() {
    let mut minefield = Minefield::new(3, 1);
    assert_eq!(minefield.toggle_flag(1, 0), FlagToggleResult::Added);
    assert_eq!(minefield.step(0, 0), StepResult::Phew);
    assert_eq!(picture(&minefield), vec![".F#"]);
    assert_eq!(minefield.toggle_flag(1, 0), FlagToggleResult::Removed);
    assert_eq!(minefield.step(0, 0), StepResult::Invalid);
    assert_eq!(picture(&minefield), vec![".##"]);
}

#[test]
fn step_on_flagged_spot_is_invalid() {
    let mut minefield = Minefield::new(2, 1);
    minefield.place_mine(0, 0);
    minefield.toggle_flag(0, 0);
    minefield.toggle_flag(1, 0);
    let before = states(&minefield);
    assert_eq!(minefield.step(0, 0), StepResult::Invalid);
    assert_eq!(minefield.step(1, 0), StepResult::Invalid);
    assert_eq!(states(&minefield), before);
}

#[test]
fn auto_step_needs_a_revealed_spot_on_the_grid() {
    let mut minefield = Minefield::new(3, 3);
    minefield.place_mine(0, 0);
    let before = states(&minefield);
    // hidden
    assert_eq!(minefield.auto_step(1, 1), StepResult::Invalid);
    // off the grid
    assert_eq!(minefield.auto_step(3, 1), StepResult::Invalid);
    assert_eq!(minefield.auto_step(1, 3), StepResult::Invalid);
    // a mine
    assert_eq!(minefield.auto_step(0, 0), StepResult::Invalid);
    // flagged
    minefield.toggle_flag(1, 1);
    assert_eq!(minefield.auto_step(1, 1), StepResult::Invalid);
    minefield.toggle_flag(1, 1);
    assert_eq!(states(&minefield), before);
}

#[test]
fn auto_step_needs_as_many_flags_as_mines() {
    let mut minefield = Minefield::new(3, 3);
    minefield.place_mine(0, 0);
    assert_eq!(minefield.step(1, 1), StepResult::Phew);
    assert_eq!(picture(&minefield), vec!["###", "#1#", "###"]);

    // no flag
    let before = states(&minefield);
    assert_eq!(minefield.auto_step(1, 1), StepResult::Invalid);
    assert_eq!(states(&minefield), before);

    // two flags
    minefield.toggle_flag(0, 0);
    minefield.toggle_flag(2, 2);
    let before = states(&minefield);
    assert_eq!(minefield.auto_step(1, 1), StepResult::Invalid);
    assert_eq!(states(&minefield), before);

    // one flag, on the mine
    minefield.toggle_flag(2, 2);
    assert_eq!(minefield.auto_step(1, 1), StepResult::Phew);
    assert_eq!(picture(&minefield), vec!["F1.", "11.", "..."]);
    assert!(minefield.is_cleared());
}

#[test]
fn auto_step_stops_at_the_first_mine() {
    let mut minefield = Minefield::new(3, 3);
    minefield.place_mine(0, 0);
    assert_eq!(minefield.step(1, 1), StepResult::Phew);
    // the flag is on the wrong spot, and the mine is the first neighbor
    minefield.toggle_flag(2, 2);
    assert_eq!(minefield.auto_step(1, 1), StepResult::Boom);
    assert_eq!(picture(&minefield), vec!["*##", "#1#", "##F"]);
}

#[test]
fn auto_step_keeps_what_it_revealed_before_the_mine() {
    let mut minefield = Minefield::new(3, 3);
    minefield.place_mine(2, 2);
    assert_eq!(minefield.step(1, 1), StepResult::Phew);
    // the flag is on the wrong spot, and the mine is the last neighbor
    minefield.toggle_flag(0, 0);
    assert_eq!(minefield.auto_step(1, 1), StepResult::Boom);
    assert_eq!(picture(&minefield), vec!["F..", ".11", ".1*"]);
    assert_eq!(
        minefield.spot(0, 0).unwrap().state,
        SpotState::FlaggedEmpty { neighboring_mines: 0 }
    );
    assert_eq!(minefield.spot(2, 2).unwrap().state, SpotState::ExplodedMine);
    assert!(!minefield.is_cleared());
}

#[test]
fn auto_step_reveals_numbered_neighbors_one_by_one() {
    //     0 1 2
    // 0 [ ☢ 2 ☢ ]
    // 1 [ 1 2 1 ]
    let mut minefield = Minefield::new(3, 2);
    minefield.place_mine(0, 0);
    minefield.place_mine(2, 0);
    assert_eq!(minefield.step(1, 1), StepResult::Phew);
    minefield.toggle_flag(0, 0);
    minefield.toggle_flag(2, 0);
    assert_eq!(minefield.auto_step(1, 1), StepResult::Phew);
    assert_eq!(picture(&minefield), vec!["F2F", "121"]);
    assert!(minefield.is_cleared());
}

#[test]
fn cleared_when_every_spot_is_revealed_or_a_flagged_mine() {
    let mut minefield = Minefield::new(2, 1);
    minefield.place_mine(0, 0);
    // a hidden mine and a hidden empty spot
    assert!(!minefield.is_cleared());
    assert_eq!(minefield.step(1, 0), StepResult::Phew);
    // a hidden mine
    assert!(!minefield.is_cleared());
    assert_eq!(minefield.toggle_flag(0, 0), FlagToggleResult::Added);
    assert!(minefield.is_cleared());
    assert_eq!(minefield.toggle_flag(0, 0), FlagToggleResult::Removed);
    assert!(!minefield.is_cleared());

    // a flag on an empty spot
    let mut flagged = Minefield::new(2, 1);
    flagged.place_mine(0, 0);
    flagged.toggle_flag(0, 0);
    flagged.toggle_flag(1, 0);
    assert!(!flagged.is_cleared());

    // an exploded mine
    let mut lost = Minefield::new(2, 1);
    lost.place_mine(0, 0);
    lost.step(1, 0);
    assert_eq!(lost.step(0, 0), StepResult::Boom);
    assert!(!lost.is_cleared());
}

#[test]
fn flag_on_hidden_mine_comes_and_goes() {
    let mut minefield = Minefield::new(3, 4);
    minefield.place_mine(2, 0);
    assert_eq!(minefield.spot(2, 0).unwrap().state, SpotState::HiddenMine);
    assert_eq!(minefield.toggle_flag(2, 0), FlagToggleResult::Added);
    assert_eq!(minefield.spot(2, 0).unwrap().state, SpotState::FlaggedMine);
    assert_eq!(minefield.toggle_flag(2, 0), FlagToggleResult::Removed);
    assert_eq!(minefield.spot(2, 0).unwrap().state, SpotState::HiddenMine);
}

#[test]
fn flag_on_empty_spot_keeps_its_count() {
    let mut minefield = Minefield::new(3, 4);
    minefield.place_mine(2, 0);
    assert_eq!(minefield.toggle_flag(1, 1), FlagToggleResult::Added);
    assert_eq!(
        minefield.spot(1, 1).unwrap().state,
        SpotState::FlaggedEmpty { neighboring_mines: 1 }
    );
    assert_eq!(minefield.toggle_flag(1, 1), FlagToggleResult::Removed);
    assert_eq!(
        minefield.spot(1, 1).unwrap().state,
        SpotState::HiddenEmpty { neighboring_mines: 1 }
    );
}

#[test]
fn flag_cannot_be_put_off_the_grid_or_on_what_is_revealed() {
    let mut minefield = Minefield::new(2, 1);
    minefield.place_mine(0, 0);
    assert_eq!(minefield.toggle_flag(2, 0), FlagToggleResult::Unchanged);
    assert_eq!(minefield.toggle_flag(0, 1), FlagToggleResult::Unchanged);
    minefield.step(1, 0);
    let before = states(&minefield);
    assert_eq!(minefield.toggle_flag(1, 0), FlagToggleResult::Unchanged);
    assert_eq!(states(&minefield), before);
    minefield.step(0, 0);
    let before = states(&minefield);
    assert_eq!(minefield.toggle_flag(0, 0), FlagToggleResult::Unchanged);
    assert_eq!(states(&minefield), before);
}

#[test]
fn spot_steps() {
    let cases = [
        (
            SpotState::HiddenEmpty { neighboring_mines: 3 },
            SpotState::RevealedEmpty { neighboring_mines: 3 },
            StepResult::Phew,
        ),
        (SpotState::HiddenMine, SpotState::ExplodedMine, StepResult::Boom),
        (
            SpotState::FlaggedEmpty { neighboring_mines: 2 },
            SpotState::FlaggedEmpty { neighboring_mines: 2 },
            StepResult::Invalid,
        ),
        (SpotState::FlaggedMine, SpotState::FlaggedMine, StepResult::Invalid),
        (
            SpotState::RevealedEmpty { neighboring_mines: 0 },
            SpotState::RevealedEmpty { neighboring_mines: 0 },
            StepResult::Invalid,
        ),
        (SpotState::ExplodedMine, SpotState::ExplodedMine, StepResult::Invalid),
    ];
    for (before, after, result) in cases {
        let mut spot = Spot { state: before };
        assert_eq!(spot.step(), result);
        assert_eq!(spot.state, after);
    }
}

#[test]
fn spot_flags() {
    let cases = [
        (
            SpotState::HiddenEmpty { neighboring_mines: 3 },
            SpotState::FlaggedEmpty { neighboring_mines: 3 },
            FlagToggleResult::Added,
        ),
        (SpotState::HiddenMine, SpotState::FlaggedMine, FlagToggleResult::Added),
        (
            SpotState::FlaggedEmpty { neighboring_mines: 2 },
            SpotState::HiddenEmpty { neighboring_mines: 2 },
            FlagToggleResult::Removed,
        ),
        (SpotState::FlaggedMine, SpotState::HiddenMine, FlagToggleResult::Removed),
        (
            SpotState::RevealedEmpty { neighboring_mines: 1 },
            SpotState::RevealedEmpty { neighboring_mines: 1 },
            FlagToggleResult::Unchanged,
        ),
        (SpotState::ExplodedMine, SpotState::ExplodedMine, FlagToggleResult::Unchanged),
    ];
    for (before, after, result) in cases {
        let mut spot = Spot { state: before };
        assert_eq!(spot.flag(), result);
        assert_eq!(spot.state, after);
    }
}

#[test]
fn spot_is_resolved_when_revealed_or_a_flagged_mine() {
    let cases = [
        (SpotState::HiddenEmpty { neighboring_mines: 0 }, false),
        (SpotState::HiddenMine, false),
        (SpotState::FlaggedEmpty { neighboring_mines: 0 }, false),
        (SpotState::FlaggedMine, true),
        (SpotState::RevealedEmpty { neighboring_mines: 4 }, true),
        (SpotState::ExplodedMine, false),
    ];
    for (state, resolved) in cases {
        assert_eq!(Spot { state }.is_resolved(), resolved);
    }
}

#[test]
fn default_spot_is_hidden_and_empty() {
    assert_eq!(Spot::default().state, SpotState::HiddenEmpty { neighboring_mines: 0 });
}

#[test]
fn clone_of_a_field_goes_its_own_way() {
    let mut minefield = Minefield::new(2, 1);
    minefield.place_mine(0, 0);
    let copy = minefield.clone();
    assert_eq!(minefield.step(0, 0), StepResult::Boom);
    assert_eq!(copy.spot(0, 0).unwrap().state, SpotState::HiddenMine);
    assert_eq!(minefield.spot(0, 0).unwrap().state, SpotState::ExplodedMine);
}
