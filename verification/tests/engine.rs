//! Grid-level behaviour: construction, bounds, swap, initialisation,
//! determinism, and the rasteriser.

use falling_sand::Cell;
use falling_sand::Color;
use falling_sand::Game;
use falling_sand::GameError;
use falling_sand::Kind;
use falling_sand::Vector;

fn grid_cells(game: &Game) -> Vec<Cell> {
    let mut cells = Vec::new();
    for y in 0..3_i32 {
        for x in 0..3_i32 {
            cells.push(game.get_cell(&Vector::new(x, y)));
        }
    }
    cells
}

#[test]
fn new_rejects_zero_width() {
    match Game::new(0, 3, 1) {
        Err(GameError::InvalidDimensions) => {}
        _ => panic!("expected InvalidDimensions"),
    }
}

#[test]
fn new_rejects_negative_height() {
    match Game::new(5, -2, 1) {
        Err(GameError::InvalidDimensions) => {}
        _ => panic!("expected InvalidDimensions"),
    }
}

#[test]
fn initialise_sets_every_cell_to_air() {
    let mut game = Game::new(4, 3, 7).unwrap();
    game.initialise();
    for y in 0..3_i32 {
        for x in 0..4_i32 {
            let c = game.get_cell(&Vector::new(x, y));
            assert_eq!(c.kind, Kind::Air);
            assert_eq!(c.color, Color::new(229, 243, 253));
            assert_eq!(c.data, 0);
        }
    }
}

#[test]
fn initialise_is_idempotent() {
    let mut game = Game::new(3, 3, 7).unwrap();
    game.initialise();
    let once = grid_cells(&game);
    game.initialise();
    let twice = grid_cells(&game);
    assert_eq!(once, twice);
}

#[test]
fn out_of_bounds_reads_see_wall() {
    let mut game = Game::new(3, 3, 7).unwrap();
    game.initialise();
    for p in [
        Vector::new(-1, 0),
        Vector::new(0, -1),
        Vector::new(3, 0),
        Vector::new(0, 3),
        Vector::new(100, -100),
    ] {
        assert_eq!(game.get_cell(&p).kind, Kind::Wall);
    }
}

#[test]
fn out_of_bounds_writes_are_ignored() {
    let mut rng = fastrand::Rng::with_seed(1);
    let mut game = Game::new(3, 3, 7).unwrap();
    game.initialise();
    let before = grid_cells(&game);
    game.set_cell(&Vector::new(-1, 1), Kind::Wall.new(&mut rng, None));
    game.set_cell(&Vector::new(1, 3), Kind::Wall.new(&mut rng, None));
    game.swap_cells(&Vector::new(0, 0), &Vector::new(3, 0));
    assert_eq!(before, grid_cells(&game));
}

#[test]
fn swap_with_self_is_a_no_op() {
    let mut rng = fastrand::Rng::with_seed(2);
    let mut game = Game::new(3, 3, 7).unwrap();
    game.initialise();
    game.set_cell(&Vector::new(1, 1), Kind::Water.new(&mut rng, None));
    let before = grid_cells(&game);
    game.swap_cells(&Vector::new(1, 1), &Vector::new(1, 1));
    assert_eq!(before, grid_cells(&game));
}

#[test]
fn swap_exchanges_exactly_two_cells() {
    let mut rng = fastrand::Rng::with_seed(3);
    let mut game = Game::new(3, 3, 7).unwrap();
    game.initialise();
    let water = Kind::Water.new(&mut rng, None);
    let wood = Kind::Wood.new(&mut rng, None);
    game.set_cell(&Vector::new(0, 0), water.clone());
    game.set_cell(&Vector::new(2, 1), wood.clone());
    let before = grid_cells(&game);
    game.swap_cells(&Vector::new(0, 0), &Vector::new(2, 1));
    assert_eq!(game.get_cell(&Vector::new(0, 0)), wood);
    assert_eq!(game.get_cell(&Vector::new(2, 1)), water);
    for y in 0..3_i32 {
        for x in 0..3_i32 {
            if (x, y) != (0, 0) && (x, y) != (2, 1) {
                assert_eq!(game.get_cell(&Vector::new(x, y)), before[(y * 3 + x) as usize]);
            }
        }
    }
    // the multiset of cells is untouched: same cells, two places exchanged
    let mut before_sorted: Vec<String> = before.iter().map(|c| format!("{:?}", c)).collect();
    let mut after_sorted: Vec<String> =
        grid_cells(&game).iter().map(|c| format!("{:?}", c)).collect();
    before_sorted.sort();
    after_sorted.sort();
    assert_eq!(before_sorted, after_sorted);
}

#[test]
fn swapping_twice_restores_the_grid() {
    let mut rng = fastrand::Rng::with_seed(4);
    let mut game = Game::new(3, 3, 7).unwrap();
    game.initialise();
    game.set_cell(&Vector::new(0, 2), Kind::Sand.new(&mut rng, Some(3)));
    game.set_cell(&Vector::new(1, 0), Kind::Steam.new(&mut rng, None));
    let before = grid_cells(&game);
    game.swap_cells(&Vector::new(0, 2), &Vector::new(1, 0));
    game.swap_cells(&Vector::new(0, 2), &Vector::new(1, 0));
    assert_eq!(before, grid_cells(&game));
}

#[test]
fn identical_seeds_replay_identically() {
    let mut a = Game::new(8, 6, 12345).unwrap();
    let mut b = Game::new(8, 6, 12345).unwrap();
    a.initialise();
    b.initialise();
    a.click_at(3, 2, 2, 5);
    b.click_at(3, 2, 2, 5);
    for _ in 0..30 {
        a.update();
        b.update();
        for y in 0..6_i32 {
            for x in 0..8_i32 {
                let p = Vector::new(x, y);
                assert_eq!(a.get_cell(&p), b.get_cell(&p));
            }
        }
    }
    assert_eq!(a.draw(), b.draw());
}

#[test]
fn ticks_never_create_walls() {
    let mut game = Game::new(6, 6, 99).unwrap();
    game.initialise();
    game.click_at(2, 2, 2, 0);
    for _ in 0..50 {
        game.update();
        for y in 0..6_i32 {
            for x in 0..6_i32 {
                assert_ne!(game.get_cell(&Vector::new(x, y)).kind, Kind::Wall);
            }
        }
    }
}

#[test]
fn walls_stand_still_across_ticks() {
    let mut rng = fastrand::Rng::with_seed(5);
    let mut game = Game::new(5, 5, 31).unwrap();
    game.initialise();
    let wall = Kind::Wall.new(&mut rng, None);
    let wall_spots = [Vector::new(0, 0), Vector::new(2, 3), Vector::new(4, 4)];
    for p in &wall_spots {
        game.set_cell(p, wall.clone());
    }
    game.click_at(2, 2, 1, 4);
    for _ in 0..40 {
        game.update();
    }
    let mut wall_count: u32 = 0;
    for y in 0..5_i32 {
        for x in 0..5_i32 {
            if game.get_cell(&Vector::new(x, y)).kind == Kind::Wall {
                wall_count += 1;
                assert!(wall_spots.contains(&Vector::new(x, y)));
            }
        }
    }
    assert_eq!(wall_count, 3);
}

#[test]
fn draw_flips_rows_and_fills_alpha() {
    let mut game = Game::new(2, 2, 7).unwrap();
    game.initialise();
    game.set_cell(&Vector::new(0, 0), Cell::new(Kind::Wall));
    let buf = game.draw();
    assert_eq!(buf.len(), 16);
    // grid (0,0) lands on raster row 1: bytes 8..12; wall is black
    assert_eq!(&buf[8..12], &[0, 0, 0, 255]);
    // the three air cells keep the canonical sky colour
    for base in [0, 4, 12] {
        assert_eq!(&buf[base..base + 4], &[229, 243, 253, 255]);
    }
}
