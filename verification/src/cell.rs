//! Cells and material kinds, and the construction of fresh cells.
//!
//! A cell records its material kind, its colour, and one scratch byte whose
//! meaning depends on the kind: for water the low bit is a flow-direction
//! preference, for fire and steam it is the remaining lifespan.

use vstd::prelude::*;

use crate::color::spec_from_hsl;
use crate::color::Color;
use crate::rng::rng_u8;

verus! {

/// The closed set of materials. `Wall` is also the synthetic value returned
/// by out-of-bounds reads, so rules see the world boundary as an immovable
/// wall.
#[derive(Clone, Copy, PartialEq, Eq, Structural, Debug)]
pub enum Kind {
    Air,
    Wall,
    Sand,
    Water,
    Fire,
    Wood,
    Steam,
}

/// The record stored at one grid position.
#[derive(Clone, Copy, PartialEq, Eq, Structural, Debug)]
pub struct Cell {
    pub kind: Kind,
    pub color: Color,
    pub data: u8,
}

/// A cell of the given kind with black colour and zero data.
pub open spec fn blank_cell(kind: Kind) -> Cell {
    Cell { kind, color: Color { r: 0, g: 0, b: 0 }, data: 0 }
}

/// The canonical sky-blue air cell.
pub open spec fn air_cell() -> Cell {
    Cell { kind: Kind::Air, color: Color { r: 229, g: 243, b: 253 }, data: 0 }
}

/// The synthetic cell that out-of-bounds reads return.
pub open spec fn wall_cell() -> Cell {
    blank_cell(Kind::Wall)
}

/// Sand lightness oscillates with the frame counter: a triangle wave of
/// period 210 frames over lightness `70..=77` (the wave `|t/15 mod 14 - 7|`
/// added to a base of 70, rounded to nearest).
pub open spec fn sand_lightness(time: int) -> int {
    let u = time % 210;
    let d = if u >= 105 {
        u - 105
    } else {
        105 - u
    };
    70 + (2 * d + 15) / 30
}

/// The sand cell painted by the brush: fully determined by the frame
/// counter.
pub open spec fn sand_cell(time: int) -> Cell {
    Cell {
        kind: Kind::Sand,
        color: spec_from_hsl(42, 50, sand_lightness(time)),
        data: 0,
    }
}

/// The colour lies in the HSL box `[h0,h1) x [s0,s1) x [l0,l1)`.
pub open spec fn in_hsl_band(c: Color, h0: int, h1: int, s0: int, s1: int, l0: int, l1: int) -> bool {
    exists|h: int, s: int, l: int|
        h0 <= h < h1 && s0 <= s < s1 && l0 <= l < l1 && c == #[trigger] spec_from_hsl(h, s, l)
}

/// What a fresh water cell looks like: a blue in `220..=255`, and a
/// flow-direction bit in `data`.
pub open spec fn water_created(c: Cell) -> bool {
    &&& c.kind == Kind::Water
    &&& c.color == (Color { r: 0, g: 100, b: c.color.b })
    &&& 220 <= c.color.b <= 255
    &&& c.data < 2
}

/// What a fresh wood cell looks like: a dark brown, inert.
pub open spec fn wood_created(c: Cell) -> bool {
    &&& c.kind == Kind::Wood
    &&& c.data == 0
    &&& in_hsl_band(c.color, 25, 30, 45, 55, 18, 25)
}

/// What a fresh fire cell looks like: a hot hue and a lifespan in
/// `60..100`.
pub open spec fn fire_created(c: Cell) -> bool {
    &&& c.kind == Kind::Fire
    &&& 60 <= c.data < 100
    &&& in_hsl_band(c.color, 5, 25, 85, 100, 45, 70)
}

/// What a fresh steam cell looks like: a pale blue-grey and a lifespan in
/// `60..100`.
pub open spec fn steam_created(c: Cell) -> bool {
    &&& c.kind == Kind::Steam
    &&& 60 <= c.data < 100
    &&& in_hsl_band(c.color, 195, 205, 10, 25, 75, 90)
}

/// What `Kind::new` returns for each material.
pub open spec fn created_ok(k: Kind, time: Option<i32>, c: Cell) -> bool {
    match k {
        Kind::Air => c == air_cell(),
        Kind::Sand => time matches Some(t) && c == sand_cell(t as int),
        Kind::Water => water_created(c),
        Kind::Wood => wood_created(c),
        Kind::Fire => fire_created(c),
        Kind::Steam => steam_created(c),
        Kind::Wall => c == blank_cell(Kind::Wall),
    }
}

impl Cell {
    pub fn new(kind: Kind) -> (c: Cell)
        ensures
            c == blank_cell(kind),
    {
        Cell { kind, color: Color::new(0, 0, 0), data: 0 }
    }
}

impl Kind {
    /// Produces a fresh cell of this material, colouring it from the
    /// material's band; sand takes its lightness from the frame counter.
    pub fn new(&self, rng: &mut fastrand::Rng, time: Option<i32>) -> (c: Cell)
        requires
            *self == Kind::Sand ==> time.is_some(),
        ensures
            created_ok(*self, time, c),
    {
        match self {
            Kind::Sand => create_sand(time.unwrap()),
            Kind::Air => create_air(),
            Kind::Water => create_water(rng),
            Kind::Fire => create_fire(rng),
            Kind::Wood => create_wood(rng),
            Kind::Steam => create_steam(rng),
            Kind::Wall => Cell::new(Kind::Wall),
        }
    }
}

pub(crate) fn create_air() -> (c: Cell)
    ensures
        c == air_cell(),
{
    let mut cell = Cell::new(Kind::Air);
    cell.color = Color::new(229, 243, 253);
    cell
}

pub(crate) fn create_sand(time: i32) -> (c: Cell)
    ensures
        c == sand_cell(time as int),
{
    let u: i32 = time.checked_rem_euclid(210).unwrap();
    let d: i32 = if u >= 105 {
        u - 105
    } else {
        105 - u
    };
    let lightness: i32 = 70 + (2 * d + 15) / 30;
    let color = Color::from_hsl(42, 50, lightness as u8);
    let mut cell = Cell::new(Kind::Sand);
    cell.color = color;
    cell
}

pub(crate) fn create_water(rng: &mut fastrand::Rng) -> (c: Cell)
    ensures
        water_created(c),
{
    let mut cell = Cell::new(Kind::Water);
    let extra = rng_u8(rng, 0, 36);
    cell.color = Color::new(0, 100, 220 + extra);
    cell.data = rng_u8(rng, 0, 2);
    cell
}

pub(crate) fn create_wood(rng: &mut fastrand::Rng) -> (c: Cell)
    ensures
        wood_created(c),
{
    let mut cell = Cell::new(Kind::Wood);
    let hue: u16 = 25 + rng_u8(rng, 0, 5) as u16;
    let saturation: u8 = 45 + rng_u8(rng, 0, 10);
    let lightness: u8 = 18 + rng_u8(rng, 0, 7);
    cell.color = Color::from_hsl(hue, saturation, lightness);
    proof {
        assert(cell.color == spec_from_hsl(hue as int, saturation as int, lightness as int));
    }
    cell
}

pub(crate) fn create_fire(rng: &mut fastrand::Rng) -> (c: Cell)
    ensures
        fire_created(c),
{
    let mut cell = Cell::new(Kind::Fire);
    let hue: u16 = 5 + rng_u8(rng, 0, 20) as u16;
    let saturation: u8 = 85 + rng_u8(rng, 0, 15);
    let lightness: u8 = 45 + rng_u8(rng, 0, 25);
    cell.color = Color::from_hsl(hue, saturation, lightness);
    cell.data = rng_u8(rng, 60, 100);
    proof {
        assert(cell.color == spec_from_hsl(hue as int, saturation as int, lightness as int));
    }
    cell
}

pub(crate) fn create_steam(rng: &mut fastrand::Rng) -> (c: Cell)
    ensures
        steam_created(c),
{
    let mut cell = Cell::new(Kind::Steam);
    let hue: u16 = 195 + rng_u8(rng, 0, 10) as u16;
    let saturation: u8 = 10 + rng_u8(rng, 0, 15);
    let lightness: u8 = 75 + rng_u8(rng, 0, 15);
    cell.color = Color::from_hsl(hue, saturation, lightness);
    cell.data = rng_u8(rng, 60, 100);
    proof {
        assert(cell.color == spec_from_hsl(hue as int, saturation as int, lightness as int));
    }
    cell
}

} // verus!
