use game_of_life::Cell;

#[test]
fn toggle_flips_both_ways() {
    let mut cell = Cell::Dead;
    cell.toggle();
    assert_eq!(cell, Cell::Alive);
    cell.toggle();
    assert_eq!(cell, Cell::Dead);
}

#[test]
fn is_alive_tells_the_states_apart() {
    assert!(Cell::Alive.is_alive());
    assert!(!Cell::Dead.is_alive());
}

#[test]
fn live_cell_dies_with_fewer_than_two_neighbors() {
    assert_eq!(Cell::Alive.evolve(0), Cell::Dead);
    assert_eq!(Cell::Alive.evolve(1), Cell::Dead);
}

#[test]
fn live_cell_survives_with_two_or_three_neighbors() {
    assert_eq!(Cell::Alive.evolve(2), Cell::Alive);
    assert_eq!(Cell::Alive.evolve(3), Cell::Alive);
}

#[test]
fn live_cell_dies_with_more_than_three_neighbors() {
    for n in 4..=9u8 {
        assert_eq!(Cell::Alive.evolve(n), Cell::Dead);
    }
}

#[test]
fn dead_cell_wakes_with_exactly_three_neighbors() {
    assert_eq!(Cell::Dead.evolve(3), Cell::Alive);
}

#[test]
fn dead_cell_stays_dead_otherwise() {
    for n in 0..=9u8 {
        if n != 3 {
            assert_eq!(Cell::Dead.evolve(n), Cell::Dead);
        }
    }
}

#[test]
fn sample_below_threshold_is_alive() {
    assert_eq!(Cell::from_sample(0, 1), Cell::Alive);
    assert_eq!(Cell::from_sample(41, 42), Cell::Alive);
    assert_eq!(Cell::from_sample(u64::MAX - 1, u64::MAX), Cell::Alive);
}

#[test]
fn sample_at_or_above_threshold_is_dead() {
    assert_eq!(Cell::from_sample(0, 0), Cell::Dead);
    assert_eq!(Cell::from_sample(42, 42), Cell::Dead);
    assert_eq!(Cell::from_sample(43, 42), Cell::Dead);
    assert_eq!(Cell::from_sample(u64::MAX, u64::MAX), Cell::Dead);
}

#[test]
fn pattern_bytes_are_dot_and_capital_o() {
    assert_eq!(Cell::from_byte(b'.'), Some(Cell::Dead));
    assert_eq!(Cell::from_byte(b'O'), Some(Cell::Alive));
    assert_eq!(Cell::from_byte(b'o'), None);
    assert_eq!(Cell::from_byte(b'0'), None);
    assert_eq!(Cell::from_byte(b' '), None);
    assert_eq!(Cell::from_byte(b'\n'), None);
}

#[test]
fn glyphs_are_an_empty_and_a_full_square() {
    assert_eq!(Cell::Dead.to_glyph(), '◻');
    assert_eq!(Cell::Alive.to_glyph(), '◼');
}

#[test]
fn describe_names_the_state() {
    assert_eq!(Cell::Dead.describe(), "Cell: Dead");
    assert_eq!(Cell::Alive.describe(), "Cell: Alive");
}
