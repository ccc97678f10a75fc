use game_of_life::framebuffer::Framebuffer;
use game_of_life::life::GameOfLife;

/// The live cells of `game`, row by row.
fn live_cells(game: &GameOfLife) -> Vec<(usize, usize)> {
    let mut cells: Vec<(usize, usize)> = Vec::new();
    for y in 0..game.height() {
        for x in 0..game.width() {
            if game.is_alive(x, y) {
                cells.push((x, y));
            }
        }
    }
    cells
}

/// `cells` in the order in which `live_cells` lists them.
fn row_by_row(cells: &[(usize, usize)]) -> Vec<(usize, usize)> {
    let mut sorted: Vec<(usize, usize)> = cells.to_vec();
    sorted.sort_by_key(|&(x, y)| (y, x));
    sorted.dedup();
    sorted
}

fn stepped(mut game: GameOfLife, steps: usize) -> GameOfLife {
    for _ in 0..steps {
        game.step();
    }
    game
}

#[test]
fn new_game_without_seeds_is_empty() {
    let game = GameOfLife::new(4, 3, Vec::new());
    assert_eq!(game.width(), 4);
    assert_eq!(game.height(), 3);
    assert_eq!(live_cells(&game), vec![]);
}

#[test]
fn new_game_has_exactly_the_seeded_cells_alive() {
    let game = GameOfLife::new(5, 4, vec![(3, 1), (0, 0), (4, 3)]);
    assert_eq!(live_cells(&game), vec![(0, 0), (3, 1), (4, 3)]);
    assert!(game.is_alive(3, 1));
    assert!(!game.is_alive(1, 3));
}

#[test]
fn seeding_a_cell_twice_is_seeding_it_once() {
    let game = GameOfLife::new(3, 3, vec![(1, 1), (1, 1), (2, 0), (1, 1)]);
    assert_eq!(live_cells(&game), vec![(2, 0), (1, 1)]);
}

#[test]
fn seeds_off_the_grid_wrap_round() {
    let game = GameOfLife::new(80, 60, vec![(144, 54), (80, 40), (100, 42), (5, 60), (79, 119)]);
    assert_eq!(live_cells(&game), vec![(5, 0), (0, 40), (20, 42), (64, 54), (79, 59)]);
}

#[test]
fn a_seed_far_off_the_grid_wraps_round() {
    let game = GameOfLife::new(7, 5, vec![(usize::MAX, usize::MAX)]);
    assert_eq!(live_cells(&game), vec![(usize::MAX % 7, usize::MAX % 5)]);
}

#[test]
fn is_alive_wraps_its_coordinates() {
    let game = GameOfLife::new(4, 3, vec![(1, 2)]);
    assert!(game.is_alive(1, 2));
    assert!(game.is_alive(5, 2));
    assert!(game.is_alive(1, 5));
    assert!(game.is_alive(9, 8));
    assert!(!game.is_alive(2, 2));
    assert!(!game.is_alive(4, 3));
}

#[test]
fn neighbor_count_of_a_lonely_cell_is_zero() {
    let game = GameOfLife::new(5, 5, vec![(2, 2)]);
    assert_eq!(game.live_neighbor_count(2, 2), 0);
}

#[test]
fn neighbor_count_sees_all_eight_directions() {
    let game = GameOfLife::new(5, 5, vec![(2, 2)]);
    let around: Vec<(usize, usize)> =
        vec![(1, 1), (2, 1), (3, 1), (1, 2), (3, 2), (1, 3), (2, 3), (3, 3)];
    for &(x, y) in &around {
        assert_eq!(game.live_neighbor_count(x, y), 1);
    }
    assert_eq!(game.live_neighbor_count(0, 0), 0);
    assert_eq!(game.live_neighbor_count(4, 2), 0);
    assert_eq!(game.live_neighbor_count(2, 4), 0);
}

#[test]
fn neighbor_count_does_not_count_the_cell_itself() {
    let seeds: Vec<(usize, usize)> =
        vec![(1, 1), (2, 1), (3, 1), (1, 2), (2, 2), (3, 2), (1, 3), (2, 3), (3, 3)];
    let game = GameOfLife::new(5, 5, seeds);
    assert_eq!(game.live_neighbor_count(2, 2), 8);
    assert_eq!(game.live_neighbor_count(1, 1), 3);
    assert_eq!(game.live_neighbor_count(2, 1), 5);
    assert_eq!(game.live_neighbor_count(0, 0), 1);
    assert_eq!(game.live_neighbor_count(0, 2), 3);
}

#[test]
fn corner_cell_has_the_opposite_corner_as_neighbor() {
    let game = GameOfLife::new(3, 3, vec![(2, 2)]);
    assert_eq!(game.live_neighbor_count(0, 0), 1);
    let other = GameOfLife::new(3, 3, vec![(0, 0)]);
    assert_eq!(other.live_neighbor_count(2, 2), 1);
}

#[test]
fn cells_on_opposite_edges_are_neighbors() {
    let game = GameOfLife::new(6, 4, vec![(5, 1), (2, 3)]);
    assert_eq!(game.live_neighbor_count(0, 0), 1);
    assert_eq!(game.live_neighbor_count(0, 1), 1);
    assert_eq!(game.live_neighbor_count(0, 2), 1);
    assert_eq!(game.live_neighbor_count(1, 0), 1);
    assert_eq!(game.live_neighbor_count(2, 0), 1);
    assert_eq!(game.live_neighbor_count(3, 0), 1);
    assert_eq!(game.live_neighbor_count(0, 3), 0);
    assert_eq!(game.live_neighbor_count(1, 1), 0);
}

#[test]
fn neighbor_count_wraps_its_own_coordinates() {
    let game = GameOfLife::new(4, 3, vec![(0, 0), (1, 0), (3, 2)]);
    assert_eq!(game.live_neighbor_count(0, 0), game.live_neighbor_count(4, 3));
    assert_eq!(game.live_neighbor_count(0, 0), 2);
    assert_eq!(game.live_neighbor_count(2, 1), game.live_neighbor_count(6, 7));
    assert_eq!(game.live_neighbor_count(6, 7), 2);
}

#[test]
fn on_a_one_cell_torus_the_cell_is_all_its_neighbors() {
    let alive = GameOfLife::new(1, 1, vec![(0, 0)]);
    assert_eq!(alive.live_neighbor_count(0, 0), 8);
    let dead = GameOfLife::new(1, 1, vec![]);
    assert_eq!(dead.live_neighbor_count(0, 0), 0);
    assert_eq!(live_cells(&stepped(alive, 1)), vec![]);
}

#[test]
fn on_a_two_by_two_torus_neighbors_count_twice() {
    let game = GameOfLife::new(2, 2, vec![(1, 0)]);
    assert_eq!(game.live_neighbor_count(0, 0), 2);
    assert_eq!(game.live_neighbor_count(1, 0), 0);
    assert_eq!(game.live_neighbor_count(0, 1), 4);
    assert_eq!(game.live_neighbor_count(1, 1), 2);
    let full = GameOfLife::new(2, 2, vec![(0, 0), (1, 0), (0, 1), (1, 1)]);
    assert_eq!(full.live_neighbor_count(0, 0), 8);
    assert_eq!(live_cells(&stepped(full, 1)), vec![]);
}

#[test]
fn live_cell_with_fewer_than_two_neighbors_dies() {
    let lonely = stepped(GameOfLife::new(5, 5, vec![(2, 2)]), 1);
    assert!(!lonely.is_alive(2, 2));
    let pair = stepped(GameOfLife::new(5, 5, vec![(2, 2), (3, 2)]), 1);
    assert!(!pair.is_alive(2, 2));
    assert!(!pair.is_alive(3, 2));
}

#[test]
fn live_cell_with_two_neighbors_survives() {
    let game = GameOfLife::new(6, 6, vec![(1, 1), (2, 2), (3, 3)]);
    assert_eq!(game.live_neighbor_count(2, 2), 2);
    let next = stepped(game, 1);
    assert!(next.is_alive(2, 2));
    assert_eq!(live_cells(&next), vec![(2, 2)]);
}

#[test]
fn live_cell_with_three_neighbors_survives() {
    let game = GameOfLife::new(6, 6, vec![(2, 2), (1, 1), (3, 1), (2, 3)]);
    assert_eq!(game.live_neighbor_count(2, 2), 3);
    assert!(stepped(game, 1).is_alive(2, 2));
}

#[test]
fn live_cell_with_more_than_three_neighbors_dies() {
    let four = GameOfLife::new(6, 6, vec![(2, 2), (1, 1), (3, 1), (1, 3), (3, 3)]);
    assert_eq!(four.live_neighbor_count(2, 2), 4);
    assert!(!stepped(four, 1).is_alive(2, 2));
    let seeds: Vec<(usize, usize)> =
        vec![(1, 1), (2, 1), (3, 1), (1, 2), (2, 2), (3, 2), (1, 3), (2, 3), (3, 3)];
    let eight = GameOfLife::new(6, 6, seeds);
    assert_eq!(eight.live_neighbor_count(2, 2), 8);
    assert!(!stepped(eight, 1).is_alive(2, 2));
}

#[test]
fn dead_cell_with_exactly_three_neighbors_is_born() {
    let game = GameOfLife::new(6, 6, vec![(1, 1), (3, 1), (2, 3)]);
    assert_eq!(game.live_neighbor_count(2, 2), 3);
    assert!(!game.is_alive(2, 2));
    let next = stepped(game, 1);
    assert_eq!(live_cells(&next), vec![(2, 2)]);
}

#[test]
fn dead_cell_with_two_or_four_neighbors_stays_dead() {
    let two = GameOfLife::new(6, 6, vec![(1, 1), (3, 3)]);
    assert_eq!(two.live_neighbor_count(2, 2), 2);
    assert!(!stepped(two, 1).is_alive(2, 2));
    let four = GameOfLife::new(6, 6, vec![(1, 1), (3, 1), (1, 3), (3, 3)]);
    assert_eq!(four.live_neighbor_count(2, 2), 4);
    assert!(!stepped(four, 1).is_alive(2, 2));
}

#[test]
fn step_keeps_the_dimensions() {
    let game = stepped(GameOfLife::new(7, 4, vec![(1, 1), (2, 1), (3, 1)]), 3);
    assert_eq!(game.width(), 7);
    assert_eq!(game.height(), 4);
}

#[test]
fn step_of_an_empty_grid_is_empty() {
    let game = stepped(GameOfLife::new(6, 5, vec![]), 4);
    assert_eq!(live_cells(&game), vec![]);
}

#[test]
fn step_decides_every_cell_from_the_old_generation() {
    // Updating in place, row by row, would kill (1, 0) before (1, 1) counts
    // it, and the row of three would never appear.
    let game = stepped(GameOfLife::new(4, 4, vec![(1, 0), (1, 1), (1, 2)]), 1);
    assert_eq!(live_cells(&game), vec![(0, 1), (1, 1), (2, 1)]);
}

#[test]
fn step_follows_a_pattern_that_grows() {
    let seeds: Vec<(usize, usize)> = vec![(2, 1), (3, 1), (1, 2), (2, 2), (2, 3)];
    let mut game = GameOfLife::new(6, 6, seeds);
    game.step();
    assert_eq!(live_cells(&game), vec![(1, 1), (2, 1), (3, 1), (1, 2), (1, 3), (2, 3)]);
    game.step();
    assert_eq!(
        live_cells(&game),
        vec![(2, 0), (1, 1), (2, 1), (0, 2), (3, 2), (1, 3), (2, 3)]
    );
    game.step();
    assert_eq!(
        live_cells(&game),
        vec![(1, 0), (2, 0), (1, 1), (2, 1), (3, 1), (0, 2), (3, 2), (1, 3), (2, 3)]
    );
}

#[test]
fn block_is_a_still_life() {
    let block: Vec<(usize, usize)> = vec![(3, 2), (4, 2), (3, 3), (4, 3)];
    let mut game = GameOfLife::new(8, 6, block.clone());
    for _ in 0..10 {
        game.step();
        assert_eq!(live_cells(&game), row_by_row(&block));
    }
}

#[test]
fn block_across_the_edges_is_a_still_life() {
    let block: Vec<(usize, usize)> = vec![(79, 59), (80, 59), (79, 60), (80, 60)];
    let mut game = GameOfLife::new(80, 60, block);
    for _ in 0..5 {
        game.step();
        assert_eq!(live_cells(&game), vec![(0, 0), (79, 0), (0, 59), (79, 59)]);
    }
}

#[test]
fn block_is_a_still_life_on_the_smallest_torus_that_holds_it() {
    let mut game = GameOfLife::new(3, 3, vec![(2, 2), (3, 2), (2, 3), (3, 3)]);
    for _ in 0..4 {
        game.step();
        assert_eq!(live_cells(&game), vec![(0, 0), (2, 0), (0, 2), (2, 2)]);
    }
}

#[test]
fn blinker_alternates_between_column_and_row() {
    let column: Vec<(usize, usize)> = vec![(4, 2), (4, 3), (4, 4)];
    let row: Vec<(usize, usize)> = vec![(3, 3), (4, 3), (5, 3)];
    let mut game = GameOfLife::new(9, 7, column.clone());
    for _ in 0..6 {
        game.step();
        assert_eq!(live_cells(&game), row);
        game.step();
        assert_eq!(live_cells(&game), column);
    }
}

#[test]
fn blinker_oscillates_on_a_four_by_four_torus() {
    let mut game = GameOfLife::new(4, 4, vec![(1, 0), (1, 1), (1, 2)]);
    game.step();
    assert_eq!(live_cells(&game), vec![(0, 1), (1, 1), (2, 1)]);
    game.step();
    assert_eq!(live_cells(&game), vec![(1, 0), (1, 1), (1, 2)]);
}

#[test]
fn blinker_across_the_edge_oscillates() {
    let mut game = GameOfLife::new(5, 5, vec![(0, 4), (0, 5), (0, 6)]);
    assert_eq!(live_cells(&game), vec![(0, 0), (0, 1), (0, 4)]);
    game.step();
    assert_eq!(live_cells(&game), vec![(0, 0), (1, 0), (4, 0)]);
    game.step();
    assert_eq!(live_cells(&game), vec![(0, 0), (0, 1), (0, 4)]);
}

#[test]
fn glider_moves_one_cell_diagonally_every_four_steps() {
    let glider: Vec<(usize, usize)> = vec![(1, 2), (2, 2), (3, 2), (3, 1), (2, 0)];
    let mut game = GameOfLife::new(8, 8, glider.clone());
    game.step();
    assert_eq!(live_cells(&game), vec![(1, 1), (3, 1), (2, 2), (3, 2), (2, 3)]);
    game.step();
    assert_eq!(live_cells(&game), vec![(3, 1), (1, 2), (3, 2), (2, 3), (3, 3)]);
    game.step();
    assert_eq!(live_cells(&game), vec![(2, 1), (3, 2), (4, 2), (2, 3), (3, 3)]);
    game.step();
    let moved: Vec<(usize, usize)> = glider.iter().map(|&(x, y)| (x + 1, y + 1)).collect();
    assert_eq!(live_cells(&game), row_by_row(&moved));
    assert_eq!(live_cells(&game), vec![(3, 1), (4, 2), (2, 3), (3, 3), (4, 3)]);
}

#[test]
fn glider_moves_on_the_display_sized_grid() {
    let glider: Vec<(usize, usize)> = vec![(1, 2), (2, 2), (3, 2), (3, 1), (2, 0)];
    let game = stepped(GameOfLife::new(80, 60, glider.clone()), 40);
    let moved: Vec<(usize, usize)> = glider.iter().map(|&(x, y)| (x + 10, y + 10)).collect();
    assert_eq!(live_cells(&game), row_by_row(&moved));
}

#[test]
fn glider_wraps_round_the_torus() {
    let glider: Vec<(usize, usize)> = vec![(4, 4), (5, 4), (6, 4), (6, 3), (5, 2)];
    let mut game = GameOfLife::new(6, 5, glider);
    assert_eq!(live_cells(&game), vec![(5, 2), (0, 3), (0, 4), (4, 4), (5, 4)]);
    for _ in 0..4 {
        game.step();
    }
    assert_eq!(live_cells(&game), vec![(0, 0), (1, 0), (5, 0), (0, 3), (1, 4)]);
}

#[test]
fn glider_comes_home_on_a_five_by_five_torus() {
    let glider: Vec<(usize, usize)> = vec![(1, 2), (2, 2), (3, 2), (3, 1), (2, 0)];
    let mut game = GameOfLife::new(5, 5, glider.clone());
    for round in 1..=5 {
        for _ in 0..4 {
            game.step();
        }
        let moved: Vec<(usize, usize)> =
            glider.iter().map(|&(x, y)| ((x + round) % 5, (y + round) % 5)).collect();
        assert_eq!(live_cells(&game), row_by_row(&moved));
    }
    assert_eq!(live_cells(&game), row_by_row(&glider));
}

#[test]
fn render_clears_and_draws_the_live_cells() {
    let game = GameOfLife::new(3, 2, vec![(0, 0), (2, 1)]);
    let mut fb = Framebuffer::new(3, 2);
    fb.set_background_color(0x99CCFF);
    fb.set_current_color(0xFFFF99);
    fb.point(1, 1);
    game.render(&mut fb);
    assert_eq!(
        fb.buffer(),
        &vec![0xFFFF99, 0x99CCFF, 0x99CCFF, 0x99CCFF, 0x99CCFF, 0xFFFF99]
    );
    assert_eq!(fb.background_color(), 0x99CCFF);
    assert_eq!(fb.current_color(), 0xFFFF99);
}

#[test]
fn render_leaves_the_game_alone() {
    let game = GameOfLife::new(3, 3, vec![(1, 1), (2, 0)]);
    let mut fb = Framebuffer::new(3, 3);
    game.render(&mut fb);
    game.render(&mut fb);
    assert_eq!(live_cells(&game), vec![(2, 0), (1, 1)]);
}

#[test]
fn render_of_an_empty_game_is_a_clear() {
    let game = GameOfLife::new(4, 4, vec![]);
    let mut fb = Framebuffer::new(4, 4);
    fb.set_background_color(0x101010);
    fb.point(2, 2);
    game.render(&mut fb);
    assert_eq!(fb.buffer(), &vec![0x101010u32; 16]);
}

#[test]
fn render_into_a_larger_framebuffer_fills_the_rest_with_background() {
    let game = GameOfLife::new(2, 2, vec![(1, 0), (0, 1), (1, 1)]);
    let mut fb = Framebuffer::new(4, 3);
    fb.set_background_color(0x000011);
    fb.set_current_color(0xEEEEEE);
    game.render(&mut fb);
    let b: u32 = 0x000011;
    let c: u32 = 0xEEEEEE;
    assert_eq!(fb.buffer(), &vec![b, c, b, b, c, c, b, b, b, b, b, b]);
}

#[test]
fn render_into_a_smaller_framebuffer_drops_what_does_not_fit() {
    let game = GameOfLife::new(4, 4, vec![(0, 0), (3, 0), (1, 1), (0, 3), (3, 3), (2, 1)]);
    let mut fb = Framebuffer::new(2, 2);
    fb.set_background_color(0x202020);
    fb.set_current_color(0xABCDEF);
    game.render(&mut fb);
    assert_eq!(fb.buffer().len(), 4);
    assert_eq!(fb.buffer(), &vec![0xABCDEF, 0x202020, 0x202020, 0xABCDEF]);
}

#[test]
fn render_after_each_step_shows_the_new_generation() {
    let mut game = GameOfLife::new(4, 4, vec![(1, 0), (1, 1), (1, 2)]);
    let mut fb = Framebuffer::new(4, 4);
    fb.set_current_color(1);
    game.render(&mut fb);
    assert_eq!(fb.buffer(), &vec![0, 1, 0, 0, 0, 1, 0, 0, 0, 1, 0, 0, 0, 0, 0, 0]);
    game.step();
    game.render(&mut fb);
    assert_eq!(fb.buffer(), &vec![0, 0, 0, 0, 1, 1, 1, 0, 0, 0, 0, 0, 0, 0, 0, 0]);
}
