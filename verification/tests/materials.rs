//! Material behaviour under the tick: sand falls and piles, water levels,
//! fire consumes wood and boils water, steam appears and fades, wood and
//! walls stay put, and the brush paints only air.

use falling_sand::Cell;
use falling_sand::Color;
use falling_sand::Game;
use falling_sand::Kind;
use falling_sand::Vector;

fn positions_of(game: &Game, w: i32, h: i32, kind: Kind) -> Vec<(i32, i32)> {
    let mut found = Vec::new();
    for y in 0..h {
        for x in 0..w {
            if game.get_cell(&Vector::new(x, y)).kind == kind {
                found.push((x, y));
            }
        }
    }
    found
}

#[test]
fn sand_falls() {
    // a grain that moved down may be dispatched again at its new position
    // within the same tick, so one tick can drop it one row or two
    let mut hits_straight_middle: u32 = 0;
    for seed in 0..20_u64 {
        let mut rng = fastrand::Rng::with_seed(seed);
        let mut game = Game::new(3, 3, seed).unwrap();
        game.initialise();
        game.set_cell(&Vector::new(1, 2), Kind::Sand.new(&mut rng, Some(0)));
        game.update();
        let sand = positions_of(&game, 3, 3, Kind::Sand);
        assert_eq!(sand.len(), 1);
        let (x, y) = sand[0];
        assert!(y < 2, "sand must fall out of the top row, found ({x},{y})");
        if (x, y) == (1, 1) {
            hits_straight_middle += 1;
        }
        assert_eq!(positions_of(&game, 3, 3, Kind::Air).len(), 8);
    }
    // the straight one-row drop takes the 14/15 branch and a schedule that
    // visits the landing position first: just under half of all seeds
    assert!(hits_straight_middle >= 4, "straight drops to (1,1): {hits_straight_middle}");
}

#[test]
fn sand_piles_on_walls() {
    let mut rng = fastrand::Rng::with_seed(8);
    let mut game = Game::new(3, 3, 8).unwrap();
    game.initialise();
    for x in 0..3_i32 {
        game.set_cell(&Vector::new(x, 0), Cell::new(Kind::Wall));
    }
    game.set_cell(&Vector::new(1, 1), Kind::Sand.new(&mut rng, Some(0)));
    game.set_cell(&Vector::new(1, 2), Kind::Sand.new(&mut rng, Some(0)));
    game.update();
    game.update();
    let walls = positions_of(&game, 3, 3, Kind::Wall);
    assert_eq!(walls, vec![(0, 0), (1, 0), (2, 0)]);
    let sand = positions_of(&game, 3, 3, Kind::Sand);
    assert_eq!(sand.len(), 2);
    assert!(sand.contains(&(1, 1)), "the lower grain rests on the wall: {sand:?}");
    let other = *sand.iter().find(|p| **p != (1, 1)).unwrap();
    assert!(
        other == (0, 1) || other == (2, 1) || other == (1, 2),
        "the upper grain slid or rests: {other:?}"
    );
}

#[test]
fn water_levels_to_the_floor_row() {
    for seed in 0..10_u64 {
        let mut rng = fastrand::Rng::with_seed(seed);
        let mut game = Game::new(5, 3, seed).unwrap();
        game.initialise();
        for x in 0..5_i32 {
            game.set_cell(&Vector::new(x, 0), Cell::new(Kind::Wall));
        }
        game.set_cell(&Vector::new(2, 2), Kind::Water.new(&mut rng, None));
        for _ in 0..10 {
            game.update();
        }
        let water = positions_of(&game, 5, 3, Kind::Water);
        assert_eq!(water.len(), 1);
        assert_eq!(water[0].1, 1, "water settles in the row above the floor: {water:?}");
        assert_eq!(positions_of(&game, 5, 3, Kind::Wall).len(), 5);
    }
}

#[test]
fn fire_consumes_wood() {
    let mut seeds_with_burn: u32 = 0;
    for seed in 0..20_u64 {
        let mut rng = fastrand::Rng::with_seed(seed);
        let mut game = Game::new(3, 3, seed).unwrap();
        game.initialise();
        for x in 0..3_i32 {
            game.set_cell(&Vector::new(x, 2), Kind::Wood.new(&mut rng, None));
        }
        game.set_cell(&Vector::new(1, 1), Kind::Fire.new(&mut rng, None));
        let mut burned = false;
        for _ in 0..200 {
            game.update();
            if positions_of(&game, 3, 3, Kind::Wood).len() < 3 {
                burned = true;
                break;
            }
        }
        if burned {
            seeds_with_burn += 1;
        }
    }
    assert!(seeds_with_burn >= 3, "wood burned under {seeds_with_burn} of 20 seeds");
}

#[test]
fn fire_and_water_make_steam_then_no_fire_remains() {
    let mut steam_seen: u32 = 0;
    for seed in 0..20_u64 {
        let mut rng = fastrand::Rng::with_seed(seed);
        let mut game = Game::new(3, 3, seed).unwrap();
        game.initialise();
        game.set_cell(&Vector::new(1, 2), Kind::Water.new(&mut rng, None));
        game.set_cell(&Vector::new(1, 1), Kind::Fire.new(&mut rng, None));
        for _ in 0..20 {
            game.update();
            if !positions_of(&game, 3, 3, Kind::Steam).is_empty() {
                steam_seen += 1;
                break;
            }
        }
        for _ in 0..300 {
            game.update();
        }
        assert!(
            positions_of(&game, 3, 3, Kind::Fire).is_empty(),
            "no fire may survive once exhausted (seed {seed})"
        );
    }
    assert!(steam_seen >= 1, "steam appeared under {steam_seen} of 20 seeds");
}

#[test]
fn wood_stays_in_place_without_fire() {
    let mut rng = fastrand::Rng::with_seed(11);
    let mut game = Game::new(5, 5, 11).unwrap();
    game.initialise();
    let spots = [Vector::new(0, 0), Vector::new(2, 2), Vector::new(4, 1), Vector::new(1, 4)];
    let mut placed = Vec::new();
    for p in &spots {
        let cell = Kind::Wood.new(&mut rng, None);
        game.set_cell(p, cell.clone());
        placed.push(cell);
    }
    game.set_cell(&Vector::new(3, 4), Kind::Sand.new(&mut rng, Some(0)));
    game.set_cell(&Vector::new(1, 3), Kind::Water.new(&mut rng, None));
    for _ in 0..40 {
        game.update();
    }
    for (p, cell) in spots.iter().zip(placed.iter()) {
        assert_eq!(game.get_cell(p), *cell, "wood moved or changed at {p:?}");
    }
}

#[test]
fn brush_paints_only_air() {
    let mut game = Game::new(5, 5, 0).unwrap();
    game.initialise();
    game.set_cell(&Vector::new(2, 2), Cell::new(Kind::Wall));
    game.click_at(2, 2, 2, 0);
    for y in 0..5_i32 {
        for x in 0..5_i32 {
            let host_y = 4 - y;
            let in_disc = (x - 2) * (x - 2) + (host_y - 2) * (host_y - 2) <= 4;
            let kind = game.get_cell(&Vector::new(x, y)).kind;
            if (x, y) == (2, 2) {
                assert_eq!(kind, Kind::Wall, "the wall is never carved");
            } else if in_disc {
                assert_eq!(kind, Kind::Sand, "({x},{y}) lies in the disc");
            } else {
                assert_eq!(kind, Kind::Air, "({x},{y}) lies outside the disc");
            }
        }
    }
}

#[test]
fn brush_sand_colour_follows_the_clock() {
    let mut game = Game::new(3, 3, 0).unwrap();
    game.initialise();
    game.click_at(1, 1, 0, 0);
    let painted = game.get_cell(&Vector::new(1, 1));
    assert_eq!(painted.kind, Kind::Sand);
    // time 0: lightness 77, so hsl(42, 50, 77)
    assert_eq!(painted.color, Color::new(226, 208, 167));
    assert_eq!(painted.color, Color::from_hsl(42, 50, 77));

    let mut late = Game::new(3, 3, 0).unwrap();
    late.initialise();
    // time 105 * 15: the wave's trough, lightness 70
    late.click_at(1, 1, 0, 1575);
    let painted_late = late.get_cell(&Vector::new(1, 1));
    assert_eq!(painted_late.color, Color::from_hsl(42, 50, 70));
    assert_ne!(painted.color, painted_late.color);
}

#[test]
fn tick_order_is_shuffled() {
    // two stacked water cells over a wall floor resolve differently
    // depending on which is dispatched first; a fixed traversal would give
    // one outcome for every seed
    let mut outcomes = Vec::new();
    for seed in 0..30_u64 {
        let mut game = Game::new(3, 3, seed).unwrap();
        game.initialise();
        for x in 0..3_i32 {
            game.set_cell(&Vector::new(x, 0), Cell::new(Kind::Wall));
        }
        let still_water = Cell { kind: Kind::Water, color: Color::new(0, 100, 230), data: 0 };
        game.set_cell(&Vector::new(1, 1), still_water.clone());
        game.set_cell(&Vector::new(1, 2), still_water);
        game.update();
        let mut cells = Vec::new();
        for y in 0..3_i32 {
            for x in 0..3_i32 {
                let c = game.get_cell(&Vector::new(x, y));
                if c.kind == Kind::Water {
                    cells.push((x, y, c.data, c.color.b));
                }
            }
        }
        let outcome = format!("{cells:?}");
        if !outcomes.contains(&outcome) {
            outcomes.push(outcome);
        }
    }
    assert!(outcomes.len() >= 2, "every seed gave the same traversal outcome");
}

#[test]
fn spent_fire_dies_to_air() {
    for seed in 0..10_u64 {
        let mut game = Game::new(3, 3, seed).unwrap();
        game.initialise();
        let ember = Cell { kind: Kind::Fire, color: Color::new(255, 100, 0), data: 1 };
        game.set_cell(&Vector::new(1, 1), ember);
        game.update();
        for y in 0..3_i32 {
            for x in 0..3_i32 {
                let c = game.get_cell(&Vector::new(x, y));
                assert_eq!(c.kind, Kind::Air, "seed {seed}: a spent flame dies whatever the draw");
                assert_eq!(c.color, Color::new(229, 243, 253));
            }
        }
    }
}

#[test]
fn spent_steam_condenses_to_water() {
    for seed in 0..10_u64 {
        let mut game = Game::new(3, 3, seed).unwrap();
        game.initialise();
        let wisp = Cell { kind: Kind::Steam, color: Color::new(200, 210, 220), data: 0 };
        game.set_cell(&Vector::new(1, 1), wisp);
        game.update();
        let c = game.get_cell(&Vector::new(1, 1));
        assert_eq!(c.kind, Kind::Water, "seed {seed}: spent steam recondenses in place");
        assert!((220..=255).contains(&c.color.b));
        assert_eq!(positions_of(&game, 3, 3, Kind::Air).len(), 8);
    }
}

#[test]
fn trapped_steam_drips_down() {
    // a single dispatch, so the dripped wisp cannot act again this tick
    for seed in 0..10_u64 {
        let mut game = Game::new(3, 3, seed).unwrap();
        game.initialise();
        game.set_cell(&Vector::new(1, 2), Cell::new(Kind::Wall));
        let wisp = Cell { kind: Kind::Steam, color: Color::new(200, 210, 220), data: 80 };
        game.set_cell(&Vector::new(1, 1), wisp);
        let here = Vector::new(1, 1);
        let cell = game.get_cell(&here);
        Kind::Steam.update(&cell, &here, &mut game);
        assert_eq!(
            game.get_cell(&Vector::new(1, 0)).kind,
            Kind::Steam,
            "seed {seed}: the ceiling rule forces the drip"
        );
        assert_eq!(game.get_cell(&Vector::new(1, 1)).kind, Kind::Air);
        assert_eq!(game.get_cell(&Vector::new(1, 2)).kind, Kind::Wall);
    }
}
