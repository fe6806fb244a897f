use game_of_life::product::count_up;
use game_of_life::render::render_cells;
use game_of_life::stamp::{half_up, wrap_coordinate};
use game_of_life::Cell;

#[test]
fn count_up_lists_the_numbers_below() {
    assert_eq!(count_up(0), Vec::<u32>::new());
    assert_eq!(count_up(1), vec![0]);
    assert_eq!(count_up(5), vec![0, 1, 2, 3, 4]);
}

#[test]
fn half_up_rounds_up() {
    assert_eq!(half_up(0), 0);
    assert_eq!(half_up(1), 1);
    assert_eq!(half_up(2), 1);
    assert_eq!(half_up(3), 2);
    assert_eq!(half_up(9), 5);
    assert_eq!(half_up(13), 7);
    assert_eq!(half_up(usize::MAX), usize::MAX / 2 + 1);
}

#[test]
fn wrap_coordinate_inside_the_board() {
    assert_eq!(wrap_coordinate(6, 0, 5, 64), 1);
    assert_eq!(wrap_coordinate(6, 8, 5, 64), 9);
    assert_eq!(wrap_coordinate(0, 0, 0, 64), 0);
}

#[test]
fn wrap_coordinate_over_the_right_edge() {
    assert_eq!(wrap_coordinate(62, 3, 0, 64), 1);
    assert_eq!(wrap_coordinate(63, 1, 0, 64), 0);
    assert_eq!(wrap_coordinate(200, 0, 0, 64), 8);
}

#[test]
fn wrap_coordinate_over_the_left_edge() {
    assert_eq!(wrap_coordinate(0, 0, 1, 64), 63);
    assert_eq!(wrap_coordinate(0, 0, 2, 5), 3);
    assert_eq!(wrap_coordinate(1, 0, 7, 5), 4);
    assert_eq!(wrap_coordinate(0, 0, 64, 64), 0);
}

#[test]
fn wrap_coordinate_at_the_limits() {
    assert_eq!(wrap_coordinate(u32::MAX, 0, 0, u32::MAX), 0);
    assert_eq!(wrap_coordinate(u32::MAX, usize::MAX, 0, 1), 0);
    assert_eq!(wrap_coordinate(u32::MAX, 1, 0, u32::MAX), 1);
    assert_eq!(wrap_coordinate(0, 0, 1, u32::MAX), u32::MAX - 1);
    assert_eq!(wrap_coordinate(5, 7, 7, 3), 2);
}

#[test]
fn render_cells_draws_rows_on_lines() {
    let cells = vec![
        Cell::Alive,
        Cell::Dead,
        Cell::Dead,
        Cell::Dead,
        Cell::Alive,
        Cell::Alive,
    ];
    assert_eq!(render_cells(&cells, 3, 2), "◼◻◻\n◻◼◼");
    assert_eq!(render_cells(&cells, 2, 3), "◼◻\n◻◻\n◼◼");
    assert_eq!(render_cells(&cells, 6, 1), "◼◻◻◻◼◼");
    assert_eq!(render_cells(&cells, 1, 6), "◼\n◻\n◻\n◻\n◼\n◼");
}
