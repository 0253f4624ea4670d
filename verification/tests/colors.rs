//! Colour construction: exact HSL conversions and the randomised bands of
//! the fresh material cells.

use falling_sand::Color;
use falling_sand::Kind;

#[test]
fn hsl_primaries_are_exact() {
    assert_eq!(Color::from_hsl(0, 100, 50), Color::new(255, 0, 0));
    assert_eq!(Color::from_hsl(120, 100, 50), Color::new(0, 255, 0));
    assert_eq!(Color::from_hsl(240, 100, 50), Color::new(0, 0, 255));
    assert_eq!(Color::from_hsl(60, 100, 50), Color::new(255, 255, 0));
}

#[test]
fn hsl_extremes_are_black_and_white() {
    assert_eq!(Color::from_hsl(123, 77, 0), Color::new(0, 0, 0));
    assert_eq!(Color::from_hsl(300, 12, 100), Color::new(255, 255, 255));
    assert_eq!(Color::from_hsl(0, 0, 50), Color::new(128, 128, 128));
}

#[test]
fn fresh_water_is_blue_with_a_direction_bit() {
    let mut rng = fastrand::Rng::with_seed(21);
    let mut blues = Vec::new();
    for _ in 0..200 {
        let c = Kind::Water.new(&mut rng, None);
        assert_eq!(c.kind, Kind::Water);
        assert_eq!(c.color.r, 0);
        assert_eq!(c.color.g, 100);
        assert!((220..=255).contains(&c.color.b));
        assert!(c.data < 2);
        if !blues.contains(&c.color.b) {
            blues.push(c.color.b);
        }
    }
    assert!(blues.len() >= 4, "the blue channel must actually vary");
}

#[test]
fn fresh_fire_and_steam_carry_a_lifespan() {
    let mut rng = fastrand::Rng::with_seed(22);
    let mut lifespans = Vec::new();
    for _ in 0..100 {
        let f = Kind::Fire.new(&mut rng, None);
        assert_eq!(f.kind, Kind::Fire);
        assert!((60..100).contains(&f.data));
        let s = Kind::Steam.new(&mut rng, None);
        assert_eq!(s.kind, Kind::Steam);
        assert!((60..100).contains(&s.data));
        if !lifespans.contains(&f.data) {
            lifespans.push(f.data);
        }
    }
    assert!(lifespans.len() >= 4, "the lifespan must actually vary");
}

#[test]
fn fresh_wood_is_dark_brown() {
    let mut rng = fastrand::Rng::with_seed(23);
    let mut seen = Vec::new();
    for _ in 0..100 {
        let c = Kind::Wood.new(&mut rng, None);
        assert_eq!(c.kind, Kind::Wood);
        assert_eq!(c.data, 0);
        let mut in_band = false;
        for h in 25..30_u16 {
            for s in 45..55_u8 {
                for l in 18..25_u8 {
                    if c.color == Color::from_hsl(h, s, l) {
                        in_band = true;
                    }
                }
            }
        }
        assert!(in_band, "wood colour {:?} outside its band", c.color);
        if !seen.contains(&c.color) {
            seen.push(c.color);
        }
    }
    assert!(seen.len() >= 4, "the wood colour must actually vary");
}
