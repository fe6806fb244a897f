use game_of_life::shapes::LOAFER;
use game_of_life::{Cell, EntropyError, Universe};

const D: Cell = Cell::Dead;
const A: Cell = Cell::Alive;

fn board(width: u32, height: u32, alive: &[(u32, u32)]) -> Universe {
    let mut universe = Universe::empty(width, height);
    universe.set_cells(alive);
    universe
}

fn alive_positions(universe: &Universe) -> Vec<(u32, u32)> {
    let width = universe.width();
    let mut found = Vec::new();
    for (i, cell) in universe.get_cells().iter().enumerate() {
        if *cell == A {
            found.push((i as u32 % width, i as u32 / width));
        }
    }
    found
}

#[test]
fn empty_universe_has_one_dead_cell_per_position() {
    let universe = Universe::empty(7, 3);
    assert_eq!(universe.width(), 7);
    assert_eq!(universe.height(), 3);
    assert_eq!(universe.get_cells(), vec![D; 21].as_slice());
    assert!(!universe.is_stable());
}

#[test]
fn default_universe_holds_a_loafer() {
    let universe = Universe::new();
    assert_eq!(universe.width(), 64);
    assert_eq!(universe.height(), 64);
    assert_eq!(universe.get_cells().len(), 64 * 64);
    assert!(!universe.is_stable());
    let mut expected = Vec::new();
    for (r, line) in LOAFER.lines().enumerate() {
        for (c, byte) in line.bytes().enumerate() {
            if byte == b'O' {
                expected.push((1 + c as u32, 1 + r as u32));
            }
        }
    }
    assert_eq!(expected.len(), 20);
    assert_eq!(alive_positions(&universe), expected);
}

#[test]
fn cell_idx_is_row_major() {
    let universe = Universe::empty(5, 4);
    assert_eq!(universe.cell_idx(0, 0), 0);
    assert_eq!(universe.cell_idx(4, 0), 4);
    assert_eq!(universe.cell_idx(0, 1), 5);
    assert_eq!(universe.cell_idx(2, 3), 17);
    assert_eq!(universe.cell_idx(4, 3), 19);
}

#[test]
fn cell_idx_safe_wraps_both_coordinates() {
    let universe = Universe::empty(5, 4);
    assert_eq!(universe.cell_idx_safe(2, 3), 17);
    assert_eq!(universe.cell_idx_safe(5, 4), 0);
    assert_eq!(universe.cell_idx_safe(7, 9), 7);
    assert_eq!(universe.cell_idx_safe(u64::MAX, u64::MAX), 3 * 5);
}

#[test]
fn lone_cell_at_the_origin_is_a_neighbor_across_the_edges() {
    let (w, h) = (5, 4);
    let universe = board(w, h, &[(0, 0)]);
    let around = [
        (w - 1, h - 1),
        (1, 0),
        (0, 1),
        (w - 1, 0),
        (0, h - 1),
        (1, 1),
        (w - 1, 1),
        (1, h - 1),
    ];
    for (x, y) in around {
        assert_eq!(universe.neighbor_lives(x, y), 1, "at ({x}, {y})");
    }
    assert_eq!(universe.neighbor_lives(0, 0), 0);
    assert_eq!(universe.neighbor_lives(2, 2), 0);
    assert_eq!(universe.neighbor_lives(2, 0), 0);
}

#[test]
fn neighbors_are_counted_across_every_corner() {
    let (w, h) = (6, 5);
    let universe = board(w, h, &[(0, 0), (w - 1, 0), (0, h - 1), (w - 1, h - 1)]);
    assert_eq!(universe.neighbor_lives(0, 0), 3);
    assert_eq!(universe.neighbor_lives(w - 1, h - 1), 3);
    assert_eq!(universe.neighbor_lives(1, 1), 1);
    assert_eq!(universe.neighbor_lives(1, 0), 2);
    assert_eq!(universe.neighbor_lives(3, 2), 0);
}

#[test]
fn full_board_gives_eight_neighbors() {
    let mut universe = Universe::empty(4, 4);
    for y in 0..4 {
        for x in 0..4 {
            universe.toggle_cell(x, y);
        }
    }
    for y in 0..4 {
        for x in 0..4 {
            assert_eq!(universe.neighbor_lives(x, y), 8);
        }
    }
}

#[test]
fn one_by_one_board_counts_its_cell_five_times() {
    let universe = board(1, 1, &[(0, 0)]);
    assert_eq!(universe.neighbor_lives(0, 0), 5);
    let empty = Universe::empty(1, 1);
    assert_eq!(empty.neighbor_lives(0, 0), 0);
}

#[test]
fn two_by_two_board_counts_cells_twice() {
    let universe = board(2, 2, &[(0, 0)]);
    assert_eq!(universe.neighbor_lives(0, 0), 0);
    assert_eq!(universe.neighbor_lives(1, 0), 2);
    assert_eq!(universe.neighbor_lives(0, 1), 2);
    assert_eq!(universe.neighbor_lives(1, 1), 4);
}

#[test]
fn one_row_board_counts_the_row_three_times() {
    let universe = board(4, 1, &[(1, 0)]);
    assert_eq!(universe.neighbor_lives(0, 0), 3);
    assert_eq!(universe.neighbor_lives(2, 0), 3);
    assert_eq!(universe.neighbor_lives(3, 0), 0);
    assert_eq!(universe.neighbor_lives(1, 0), 1);
}

#[test]
fn tick_kills_a_lonely_cell() {
    let mut universe = board(5, 5, &[(2, 2)]);
    universe.tick_self();
    assert_eq!(alive_positions(&universe), vec![]);
}

#[test]
fn tick_kills_a_cell_with_one_neighbor() {
    let mut universe = board(5, 5, &[(2, 2), (3, 2)]);
    assert_eq!(universe.neighbor_lives(2, 2), 1);
    universe.tick_self();
    assert_eq!(universe.get_cells()[universe.cell_idx(2, 2)], D);
    assert_eq!(universe.get_cells()[universe.cell_idx(3, 2)], D);
}

#[test]
fn tick_keeps_a_cell_with_two_neighbors() {
    let mut universe = board(5, 5, &[(1, 2), (2, 2), (3, 2)]);
    assert_eq!(universe.neighbor_lives(2, 2), 2);
    universe.tick_self();
    assert_eq!(universe.get_cells()[universe.cell_idx(2, 2)], A);
}

#[test]
fn tick_keeps_a_cell_with_three_neighbors() {
    let mut universe = board(6, 6, &[(2, 2), (3, 2), (2, 3), (3, 3)]);
    assert_eq!(universe.neighbor_lives(2, 2), 3);
    universe.tick_self();
    assert_eq!(alive_positions(&universe), vec![(2, 2), (3, 2), (2, 3), (3, 3)]);
}

#[test]
fn tick_kills_a_cell_with_four_neighbors() {
    let mut universe = board(5, 5, &[(2, 2), (1, 2), (3, 2), (2, 1), (2, 3)]);
    assert_eq!(universe.neighbor_lives(2, 2), 4);
    universe.tick_self();
    assert_eq!(universe.get_cells()[universe.cell_idx(2, 2)], D);
}

#[test]
fn tick_wakes_a_dead_cell_with_three_neighbors() {
    let mut universe = board(5, 5, &[(1, 2), (2, 2), (3, 2)]);
    assert_eq!(universe.neighbor_lives(2, 1), 3);
    universe.tick_self();
    assert_eq!(universe.get_cells()[universe.cell_idx(2, 1)], A);
    assert_eq!(universe.get_cells()[universe.cell_idx(2, 3)], A);
}

#[test]
fn tick_leaves_a_dead_cell_with_two_neighbors() {
    let mut universe = board(5, 5, &[(1, 2), (3, 2)]);
    assert_eq!(universe.neighbor_lives(2, 2), 2);
    universe.tick_self();
    assert_eq!(alive_positions(&universe), vec![]);
}

#[test]
fn tick_leaves_a_dead_cell_with_four_neighbors() {
    let mut universe = board(5, 5, &[(1, 1), (3, 1), (1, 3), (3, 3)]);
    assert_eq!(universe.neighbor_lives(2, 2), 4);
    universe.tick_self();
    assert_eq!(universe.get_cells()[universe.cell_idx(2, 2)], D);
}

#[test]
fn blinker_turns_and_turns_back() {
    let mut universe = board(5, 5, &[(1, 2), (2, 2), (3, 2)]);
    universe.tick_self();
    assert_eq!(alive_positions(&universe), vec![(2, 1), (2, 2), (2, 3)]);
    assert!(!universe.is_stable());
    universe.tick_self();
    assert_eq!(alive_positions(&universe), vec![(1, 2), (2, 2), (3, 2)]);
    assert!(!universe.is_stable());
}

#[test]
fn glider_moves_one_cell_diagonally_in_four_ticks() {
    let start = [(1, 0), (2, 1), (0, 2), (1, 2), (2, 2)];
    let mut universe = board(8, 8, &start);
    for _ in 0..4 {
        universe.tick_self();
    }
    let mut moved: Vec<(u32, u32)> = start.iter().map(|&(x, y)| (x + 1, y + 1)).collect();
    moved.sort_by_key(|&(x, y)| (y, x));
    assert_eq!(alive_positions(&universe), moved);
}

#[test]
fn glider_crosses_the_edge_and_comes_back() {
    let start = [(1, 0), (2, 1), (0, 2), (1, 2), (2, 2)];
    let mut universe = board(6, 6, &start);
    let before = universe.get_cells().to_vec();
    for _ in 0..24 {
        universe.tick_self();
    }
    assert_eq!(universe.get_cells(), before.as_slice());
}

#[test]
fn one_by_one_live_cell_dies() {
    let mut universe = board(1, 1, &[(0, 0)]);
    universe.tick_self();
    assert_eq!(universe.get_cells(), [D].as_slice());
    assert!(!universe.is_stable());
    universe.tick_self();
    assert!(universe.is_stable());
}

#[test]
fn tick_is_deterministic() {
    let mut first = Universe::empty(16, 12);
    first.set_27_universe();
    let mut second = first.clone();
    assert_eq!(first.get_cells(), second.get_cells());
    for _ in 0..2 {
        first.tick_self();
        second.tick_self();
        assert_eq!(first.get_cells(), second.get_cells());
        assert_eq!(first.is_stable(), second.is_stable());
    }
}

#[test]
fn tick_from_a_rebuilt_state_gives_the_same_result() {
    let mut first = Universe::new();
    let alive = alive_positions(&first);
    let mut second = board(64, 64, &alive);
    for _ in 0..10 {
        first.tick_self();
        second.tick_self();
    }
    assert_eq!(first.get_cells(), second.get_cells());
}

#[test]
fn loafer_travels() {
    let mut universe = Universe::new();
    let before = universe.get_cells().to_vec();
    universe.tick_self();
    assert_ne!(universe.get_cells(), before.as_slice());
    assert!(!universe.is_stable());
    for _ in 0..6 {
        universe.tick_self();
    }
    let mut moved = Universe::empty(64, 64);
    moved.stamp(
        &game_of_life::pattern::cell_from_plaintext(LOAFER.as_bytes()).unwrap(),
        0,
        1,
        false,
    );
    assert_eq!(universe.get_cells(), moved.get_cells());
}

#[test]
fn bar_across_a_three_by_two_board_is_stable_after_one_tick() {
    let mut universe = Universe::empty(3, 2);
    universe.set_stable_universe();
    assert_eq!(universe.get_cells(), [A, A, A, D, D, D].as_slice());
    assert!(!universe.is_stable());
    universe.tick_self();
    assert!(universe.is_stable());
    assert_eq!(universe.get_cells(), [A, A, A, D, D, D].as_slice());
    for _ in 0..5 {
        universe.tick_self();
        assert!(universe.is_stable());
        assert_eq!(universe.get_cells(), [A, A, A, D, D, D].as_slice());
    }
}

#[test]
fn bar_on_a_large_board_oscillates() {
    let mut universe = Universe::new();
    universe.set_stable_universe();
    assert_eq!(alive_positions(&universe), vec![(1, 2), (2, 2), (3, 2)]);
    universe.tick_self();
    assert_eq!(alive_positions(&universe), vec![(2, 1), (2, 2), (2, 3)]);
    assert!(!universe.is_stable());
    universe.tick_self();
    assert_eq!(alive_positions(&universe), vec![(1, 2), (2, 2), (3, 2)]);
    assert!(!universe.is_stable());
}

#[test]
fn block_is_stable_after_one_tick() {
    let mut universe = board(6, 6, &[(2, 2), (3, 2), (2, 3), (3, 3)]);
    universe.tick_self();
    assert!(universe.is_stable());
    let before = universe.get_cells().to_vec();
    universe.tick_self();
    assert!(universe.is_stable());
    assert_eq!(universe.get_cells(), before.as_slice());
}

#[test]
fn empty_universe_stays_empty_and_becomes_stable() {
    let mut universe = Universe::empty(9, 4);
    assert!(!universe.is_stable());
    for _ in 0..5 {
        universe.tick_self();
        assert!(universe.is_stable());
        assert_eq!(universe.get_cells(), vec![D; 36].as_slice());
    }
}

#[test]
fn stability_needs_an_unchanged_generation() {
    let mut universe = board(5, 5, &[(2, 2)]);
    universe.tick_self();
    assert_eq!(alive_positions(&universe), vec![]);
    assert!(!universe.is_stable());
    universe.tick_self();
    assert!(universe.is_stable());
}

fn stable_universe() -> Universe {
    let mut universe = Universe::empty(6, 6);
    universe.tick_self();
    assert!(universe.is_stable());
    universe
}

#[test]
fn toggle_clears_stability() {
    let mut universe = stable_universe();
    universe.toggle_cell(1, 1);
    assert!(!universe.is_stable());
    universe.tick_self();
    assert_eq!(alive_positions(&universe), vec![]);
    assert!(!universe.is_stable());
}

#[test]
fn resize_clears_stability() {
    let mut universe = stable_universe();
    universe.set_width(6);
    assert!(!universe.is_stable());
    let mut universe = stable_universe();
    universe.set_height(3);
    assert!(!universe.is_stable());
}

#[test]
fn reseed_clears_stability() {
    let mut universe = stable_universe();
    universe.set_empty_universe();
    assert!(!universe.is_stable());
    let mut universe = stable_universe();
    universe.set_27_universe();
    assert!(!universe.is_stable());
    let mut universe = stable_universe();
    universe.set_stable_universe();
    assert!(!universe.is_stable());
    let mut universe = stable_universe();
    assert_eq!(universe.set_random_universe(0), Ok(()));
    assert!(!universe.is_stable());
}

#[test]
fn stamp_and_set_cells_clear_stability() {
    let mut universe = stable_universe();
    universe.stamp(&vec![], 0, 0, false);
    assert!(!universe.is_stable());
    let mut universe = stable_universe();
    universe.set_cells(&[]);
    assert!(!universe.is_stable());
    let mut universe = stable_universe();
    universe.add_glider(3, 3);
    assert!(!universe.is_stable());
    let mut universe = stable_universe();
    universe.add_stable(3, 3);
    assert!(!universe.is_stable());
    let mut universe = stable_universe();
    assert_eq!(universe.render_plaintext("O", 3, 3), Ok(()));
    assert!(!universe.is_stable());
}

#[test]
fn toggle_cell_flips_one_cell() {
    let mut universe = Universe::empty(3, 2);
    universe.toggle_cell(2, 1);
    assert_eq!(universe.get_cells(), [D, D, D, D, D, A].as_slice());
    universe.toggle_cell(0, 0);
    assert_eq!(universe.get_cells(), [A, D, D, D, D, A].as_slice());
    universe.toggle_cell(2, 1);
    assert_eq!(universe.get_cells(), [A, D, D, D, D, D].as_slice());
}

#[test]
fn set_cells_makes_the_listed_cells_alive() {
    let mut universe = Universe::empty(3, 2);
    universe.set_cells(&[(1, 0), (2, 1), (1, 0)]);
    assert_eq!(universe.get_cells(), [D, A, D, D, D, A].as_slice());
    universe.set_cells(&[(0, 0)]);
    assert_eq!(universe.get_cells(), [A, A, D, D, D, A].as_slice());
}

#[test]
fn set_width_resets_the_board() {
    let mut universe = board(3, 2, &[(1, 1)]);
    universe.set_width(5);
    assert_eq!(universe.width(), 5);
    assert_eq!(universe.height(), 2);
    assert_eq!(universe.get_cells(), vec![D; 10].as_slice());
}

#[test]
fn set_height_resets_the_board() {
    let mut universe = board(3, 2, &[(1, 1)]);
    universe.set_height(1);
    assert_eq!(universe.width(), 3);
    assert_eq!(universe.height(), 1);
    assert_eq!(universe.get_cells(), vec![D; 3].as_slice());
}

#[test]
fn set_empty_universe_clears_the_board() {
    let mut universe = Universe::new();
    universe.set_empty_universe();
    assert_eq!(universe.width(), 64);
    assert_eq!(universe.height(), 64);
    assert_eq!(universe.get_cells(), vec![D; 64 * 64].as_slice());
}

#[test]
fn every_second_and_seventh_cell_is_alive() {
    assert_eq!(Universe::example_cell(3, 3), vec![A, D, A, D, A, D, A, A, A]);
    let mut universe = Universe::empty(4, 2);
    universe.set_27_universe();
    assert_eq!(universe.get_cells(), [A, D, A, D, A, D, A, A].as_slice());
    let cells = Universe::example_cell(10, 5);
    for (i, cell) in cells.iter().enumerate() {
        assert_eq!(*cell == A, i % 2 == 0 || i % 7 == 0);
    }
    assert_eq!(cells[21], A);
    assert_eq!(cells[35], A);
    assert_eq!(cells[49], A);
    assert_eq!(cells[33], D);
}

#[test]
fn empty_cell_gives_dead_cells() {
    assert_eq!(Universe::empty_cell(3, 2), vec![D; 6]);
    assert_eq!(Universe::empty_cell(0, 9), vec![]);
}

#[test]
fn threshold_zero_draws_no_live_cell() {
    assert_eq!(Universe::rand_cell(8, 8, 0), Ok(vec![D; 64]));
    let mut universe = Universe::new();
    assert_eq!(universe.set_random_universe(0), Ok(()));
    assert_eq!(universe.get_cells(), vec![D; 64 * 64].as_slice());
}

#[test]
fn random_universe_keeps_its_size() {
    let mut universe = Universe::empty(10, 7);
    assert_eq!(universe.set_random_universe(u64::MAX / 3), Ok(()));
    assert_eq!(universe.width(), 10);
    assert_eq!(universe.height(), 7);
    assert_eq!(universe.get_cells().len(), 70);
}

#[test]
fn render_draws_one_line_per_row() {
    let universe = board(3, 2, &[(0, 0), (2, 1)]);
    assert_eq!(universe.render(), "◼◻◻\n◻◻◼");
    let universe = Universe::empty(1, 1);
    assert_eq!(universe.render(), "◻");
    let universe = board(2, 3, &[(1, 1)]);
    assert_eq!(universe.render(), "◻◻\n◻◼\n◻◻");
}

#[test]
fn clone_is_a_universe_of_its_own() {
    let mut universe = board(4, 4, &[(1, 1)]);
    let copy = universe.clone();
    universe.toggle_cell(1, 1);
    assert_eq!(alive_positions(&copy), vec![(1, 1)]);
    assert_eq!(alive_positions(&universe), vec![]);
    assert_eq!(copy.width(), 4);
    assert_eq!(copy.height(), 4);
}

#[test]
fn neighbors_of_a_position_beyond_the_edges() {
    let universe = board(5, 4, &[(0, 0), (1, 1), (4, 3)]);
    for y in 0..4 {
        for x in 0..5 {
            assert_eq!(universe.neighbor_lives(x + 5, y + 8), universe.neighbor_lives(x, y));
        }
    }
    assert_eq!(universe.neighbor_lives(5, 4), 2);
    assert_eq!(universe.neighbor_lives(u32::MAX, u32::MAX), universe.neighbor_lives(0, 3));
}

#[test]
fn failed_draw_leaves_the_universe_as_it_was() {
    let mut universe = board(6, 6, &[(2, 2), (3, 2), (2, 3), (3, 3)]);
    universe.tick_self();
    assert!(universe.is_stable());
    let before = universe.get_cells().to_vec();
    assert_eq!(universe.set_drawn_universe(Err(EntropyError)), Err(EntropyError));
    assert_eq!(universe.get_cells(), before.as_slice());
    assert!(universe.is_stable());
    assert_eq!(universe.width(), 6);
    assert_eq!(universe.height(), 6);

    let mut fresh = board(3, 2, &[(1, 1)]);
    assert!(!fresh.is_stable());
    assert_eq!(fresh.set_drawn_universe(Err(EntropyError)), Err(EntropyError));
    assert_eq!(fresh.get_cells(), [D, D, D, D, A, D].as_slice());
    assert!(!fresh.is_stable());
}

#[test]
fn drawn_cells_replace_the_board_and_clear_stability() {
    let mut universe = stable_universe();
    let mut drawn = vec![D; 36];
    drawn[7] = A;
    drawn[35] = A;
    assert_eq!(universe.set_drawn_universe(Ok(drawn.clone())), Ok(()));
    assert_eq!(universe.get_cells(), drawn.as_slice());
    assert!(!universe.is_stable());
    assert_eq!(universe.width(), 6);
    assert_eq!(universe.height(), 6);
}
