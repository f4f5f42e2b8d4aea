use game_of_life::generate_universe;
use game_of_life::Cell;
use game_of_life::Universe;

#[test]
fn get_index() {
    let universe = Universe::new(4, 4, vec![]).unwrap();
    assert_eq!(2, universe.get_index(0, 2));
    assert_eq!(10, universe.get_index(2, 2));

    let universe = Universe::new(10, 10, vec![]).unwrap();
    assert_eq!(2, universe.get_index(0, 2));
    assert_eq!(22, universe.get_index(2, 2));
}

#[test]
fn alive_count() {
    // None alive
    let universe = Universe::new(4, 4, vec![]).unwrap();
    assert_eq!(0, universe.alive_neighbour_count(2, 2));

    // Row alive
    let universe = Universe::new(4, 4, vec![(0, 2), (2, 2)]).unwrap();
    assert_eq!(0, universe.alive_neighbour_count(2, 2));
    assert_eq!(2, universe.alive_neighbour_count(1, 2));
    assert_eq!(1, universe.alive_neighbour_count(0, 3));

    // Column alive
    let universe = Universe::new(4, 4, vec![(2, 0), (2, 2)]).unwrap();
    assert_eq!(0, universe.alive_neighbour_count(2, 2));
    assert_eq!(2, universe.alive_neighbour_count(2, 1));
    assert_eq!(1, universe.alive_neighbour_count(3, 0));
}

#[test]
fn cell_transform() {
    // Alive transformations
    assert_eq!(Cell::Dead, Universe::cell_transform(Cell::Alive, 0));
    assert_eq!(Cell::Dead, Universe::cell_transform(Cell::Alive, 1));
    assert_eq!(Cell::Alive, Universe::cell_transform(Cell::Alive, 2));
    assert_eq!(Cell::Alive, Universe::cell_transform(Cell::Alive, 3));
    assert_eq!(Cell::Dead, Universe::cell_transform(Cell::Alive, 4));
    assert_eq!(Cell::Dead, Universe::cell_transform(Cell::Alive, 5));
    assert_eq!(Cell::Dead, Universe::cell_transform(Cell::Alive, 6));
    assert_eq!(Cell::Dead, Universe::cell_transform(Cell::Alive, 7));

    // Dead transformations
    assert_eq!(Cell::Dead, Universe::cell_transform(Cell::Dead, 0));
    assert_eq!(Cell::Dead, Universe::cell_transform(Cell::Dead, 1));
    assert_eq!(Cell::Dead, Universe::cell_transform(Cell::Dead, 2));
    assert_eq!(Cell::Alive, Universe::cell_transform(Cell::Dead, 3));
    assert_eq!(Cell::Dead, Universe::cell_transform(Cell::Dead, 4));
    assert_eq!(Cell::Dead, Universe::cell_transform(Cell::Dead, 5));
    assert_eq!(Cell::Dead, Universe::cell_transform(Cell::Dead, 6));
    assert_eq!(Cell::Dead, Universe::cell_transform(Cell::Dead, 7));
}

#[test]
fn test_generate_universe() {
    let mut universe = generate_universe(64, 64);
    println!("{}", universe.render());
    universe.tick();
    println!("{}", universe.render());
}
