use game_of_life::entropy::cell_of_draw;
use game_of_life::{Cell, EntropyError, Universe};

#[test]
fn sample_drawn_below_the_threshold_is_a_live_cell() {
    assert_eq!(cell_of_draw(Ok(3), 4), Ok(Cell::Alive));
    assert_eq!(cell_of_draw(Ok(0), u64::MAX), Ok(Cell::Alive));
}

#[test]
fn sample_drawn_at_or_above_the_threshold_is_a_dead_cell() {
    assert_eq!(cell_of_draw(Ok(4), 4), Ok(Cell::Dead));
    assert_eq!(cell_of_draw(Ok(5), 4), Ok(Cell::Dead));
    assert_eq!(cell_of_draw(Ok(0), 0), Ok(Cell::Dead));
}

#[test]
fn failed_draw_is_an_entropy_error() {
    assert_eq!(cell_of_draw(Err(getrandom::Error::UNSUPPORTED), 4), Err(EntropyError));
    assert_eq!(cell_of_draw(Err(getrandom::Error::UNEXPECTED), 0), Err(EntropyError));
    assert_eq!(cell_of_draw(Err(getrandom::Error::UNSUPPORTED), u64::MAX), Err(EntropyError));
}

#[test]
fn board_without_cells_needs_no_sample() {
    assert_eq!(Universe::rand_cell(0, 0, 5), Ok(vec![]));
    assert_eq!(Universe::rand_cell(0, 9, u64::MAX), Ok(vec![]));
    assert_eq!(Universe::rand_cell(9, 0, 0), Ok(vec![]));
}

#[test]
fn rand_cell_draws_one_cell_per_position() {
    assert_eq!(Universe::rand_cell(7, 3, u64::MAX / 2).map(|cells| cells.len()), Ok(21));
    assert_eq!(Universe::rand_cell(1, 1, 1).map(|cells| cells.len()), Ok(1));
}
