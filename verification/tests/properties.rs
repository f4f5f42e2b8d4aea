use game_of_life::generate_universe;
use game_of_life::Cell;
use game_of_life::GridError;
use game_of_life::Universe;

fn assert_all_dead(universe: &Universe) {
    for row in 0..universe.height() {
        for col in 0..universe.width() {
            assert_eq!(Cell::Dead, universe.get_cell(row, col));
        }
    }
}

#[test]
fn all_dead_is_fixed_point() {
    let mut universe = Universe::new(5, 5, vec![]).unwrap();
    for row in 0..5 {
        for col in 0..5 {
            assert_eq!(0, universe.alive_neighbour_count(row, col));
        }
    }
    universe.tick();
    assert_all_dead(&universe);
}

#[test]
fn toroidal_wraparound() {
    // A lone cell in row 0 is a neighbour of row 3 through the vertical wrap.
    let universe = Universe::new(4, 4, vec![(0, 2)]).unwrap();
    assert_eq!(1, universe.alive_neighbour_count(3, 2));

    // With (2, 2) alive as well, the count at (3, 2) sees both: (2, 2)
    // directly above it and (0, 2) through the wrap.
    let universe = Universe::new(4, 4, vec![(0, 2), (2, 2)]).unwrap();
    assert_eq!(2, universe.alive_neighbour_count(3, 2));

    // The same along columns: a lone cell in column 0 is a neighbour of
    // column 3 through the horizontal wrap.
    let universe = Universe::new(4, 4, vec![(2, 0)]).unwrap();
    assert_eq!(1, universe.alive_neighbour_count(2, 3));

    let universe = Universe::new(4, 4, vec![(2, 0), (2, 2)]).unwrap();
    assert_eq!(2, universe.alive_neighbour_count(2, 3));
}

#[test]
fn isolated_cell_dies() {
    let mut universe = Universe::new(5, 5, vec![(2, 2)]).unwrap();
    assert_eq!(0, universe.alive_neighbour_count(2, 2));
    universe.tick();
    assert_all_dead(&universe);
}

#[test]
fn l_shape_births_block() {
    let mut universe = Universe::new(4, 4, vec![(1, 1), (1, 2), (2, 1)]).unwrap();
    assert_eq!(2, universe.alive_neighbour_count(1, 1));
    assert_eq!(2, universe.alive_neighbour_count(1, 2));
    assert_eq!(2, universe.alive_neighbour_count(2, 1));
    assert_eq!(3, universe.alive_neighbour_count(2, 2));
    universe.tick();
    for row in 0..4 {
        for col in 0..4 {
            let expected = if (row == 1 || row == 2) && (col == 1 || col == 2) {
                Cell::Alive
            } else {
                Cell::Dead
            };
            assert_eq!(expected, universe.get_cell(row, col));
        }
    }
}

#[test]
fn block_still_life() {
    let mut universe = Universe::new(4, 4, vec![(1, 1), (1, 2), (2, 1), (2, 2)]).unwrap();
    for _ in 0..5 {
        universe.tick();
        for row in 0..4 {
            for col in 0..4 {
                let expected = if (row == 1 || row == 2) && (col == 1 || col == 2) {
                    Cell::Alive
                } else {
                    Cell::Dead
                };
                assert_eq!(expected, universe.get_cell(row, col));
            }
        }
    }
}

#[test]
fn render_layout() {
    let universe = Universe::new(3, 2, vec![(0, 1)]).unwrap();
    let text = universe.render();
    assert_eq!("◻◼◻\n◻◻◻\n", text);

    let lines: Vec<&str> = text.lines().collect();
    assert_eq!(2, lines.len());
    for (row, line) in lines.iter().enumerate() {
        assert_eq!(3, line.chars().count());
        for (col, glyph) in line.chars().enumerate() {
            let expected = if universe.get_cell(row as u32, col as u32) == Cell::Alive {
                '◼'
            } else {
                '◻'
            };
            assert_eq!(expected, glyph);
        }
    }
}

#[test]
fn degenerate_width_one() {
    // On a 1-wide grid the left and right neighbours of a cell wrap onto
    // its own column: each row above and below contributes its cell three
    // times, and the cell's own row contributes the cell itself twice.
    let universe = Universe::new(1, 3, vec![(1, 0)]).unwrap();
    assert_eq!(3, universe.alive_neighbour_count(0, 0));
    assert_eq!(2, universe.alive_neighbour_count(1, 0));
    assert_eq!(3, universe.alive_neighbour_count(2, 0));
}

#[test]
fn degenerate_height_one() {
    let universe = Universe::new(3, 1, vec![(0, 1)]).unwrap();
    assert_eq!(3, universe.alive_neighbour_count(0, 0));
    assert_eq!(2, universe.alive_neighbour_count(0, 1));
    assert_eq!(3, universe.alive_neighbour_count(0, 2));
}

#[test]
fn single_cell_grid() {
    // All 8 offsets wrap onto the one cell, so an alive cell counts itself
    // 8 times, then dies of over-population.
    let mut universe = Universe::new(1, 1, vec![(0, 0)]).unwrap();
    assert_eq!(8, universe.alive_neighbour_count(0, 0));
    universe.tick();
    assert_eq!(Cell::Dead, universe.get_cell(0, 0));

    let universe = Universe::new(1, 1, vec![]).unwrap();
    assert_eq!(0, universe.alive_neighbour_count(0, 0));
}

#[test]
fn construct_rejects_invalid_dimensions() {
    assert_eq!(GridError::InvalidDimensions, Universe::new(0, 4, vec![]).unwrap_err());
    assert_eq!(GridError::InvalidDimensions, Universe::new(4, 0, vec![]).unwrap_err());
    assert_eq!(GridError::InvalidDimensions, Universe::new(0, 0, vec![]).unwrap_err());
    // 65536 * 65536 == 2^32 does not fit in u32.
    assert_eq!(GridError::InvalidDimensions, Universe::new(65536, 65536, vec![]).unwrap_err());
}

#[test]
fn construct_rejects_out_of_range() {
    assert_eq!(GridError::OutOfRangeCoordinate, Universe::new(4, 4, vec![(4, 0)]).unwrap_err());
    assert_eq!(GridError::OutOfRangeCoordinate, Universe::new(4, 4, vec![(0, 4)]).unwrap_err());
    // The dimension check comes first.
    assert_eq!(GridError::InvalidDimensions, Universe::new(0, 4, vec![(9, 9)]).unwrap_err());
}

#[test]
fn construct_duplicates_idempotent() {
    let universe = Universe::new(4, 4, vec![(1, 2), (1, 2)]).unwrap();
    for row in 0..4 {
        for col in 0..4 {
            let expected = if row == 1 && col == 2 { Cell::Alive } else { Cell::Dead };
            assert_eq!(expected, universe.get_cell(row, col));
        }
    }
}

#[test]
fn generated_universe_has_requested_dimensions() {
    let universe = generate_universe(10, 7);
    assert_eq!(10, universe.width());
    assert_eq!(7, universe.height());
    let text = universe.render();
    assert_eq!(7, text.lines().count());
    for line in text.lines() {
        assert_eq!(10, line.chars().count());
    }
}
