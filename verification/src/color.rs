//! RGB triples and conversion from HSL.
//!
//! The conversion takes a hue in degrees `[0, 360)` and saturation and
//! lightness in percent `[0, 100]`, and evaluates the standard HSL-to-RGB
//! formula in exact fixed-point integer arithmetic: each channel is
//! `255 * (l - a * clamp(min(k - 3, 9 - k), -1, 1))` with
//! `a = s * min(l, 1 - l)` and `k = (n + 12h) mod 12` (all on the unit scale),
//! rounded to nearest and clamped into `0..=255`.

use vstd::prelude::*;

verus! {

/// Three 8-bit colour channels.
#[derive(Clone, Copy, PartialEq, Eq, Structural, Debug)]
pub struct Color {
    pub r: u8,
    pub g: u8,
    pub b: u8,
}

/// The clamped triangular wave of the HSL formula, scaled by 30:
/// `30 * clamp(min(k - 3, 9 - k), -1, 1)` where `k = (n + h/30) mod 12`.
pub open spec fn hsl_piece(h: int, n: int) -> int {
    let k = (30 * n + h) % 360;
    let m = if k - 90 <= 270 - k {
        k - 90
    } else {
        270 - k
    };
    if m < -30 {
        -30
    } else if m > 30 {
        30
    } else {
        m
    }
}

/// The channel value before rounding, scaled by 300000:
/// `300000 * (l/100 - (s/100) * (min(l, 100-l)/100) * piece/30)`.
pub open spec fn hsl_numerator(h: int, s: int, l: int, n: int) -> int {
    let mn = if l <= 100 - l {
        l
    } else {
        100 - l
    };
    3000 * l - s * mn * hsl_piece(h, n)
}

/// One output channel: the numerator clamped into the unit interval,
/// then scaled to `0..=255` and rounded to nearest.
pub open spec fn hsl_channel(h: int, s: int, l: int, n: int) -> int {
    let raw = hsl_numerator(h, s, l, n);
    let clamped = if raw < 0 {
        0
    } else if raw > 300000 {
        300000
    } else {
        raw
    };
    (17 * clamped + 10000) / 20000
}

/// The colour that `Color::from_hsl` returns.
pub open spec fn spec_from_hsl(h: int, s: int, l: int) -> Color {
    Color {
        r: hsl_channel(h, s, l, 0) as u8,
        g: hsl_channel(h, s, l, 8) as u8,
        b: hsl_channel(h, s, l, 4) as u8,
    }
}

impl Color {
    pub fn new(r: u8, g: u8, b: u8) -> (c: Color)
        ensures
            c == (Color { r, g, b }),
    {
        Color { r, g, b }
    }

    /// Builds a colour from hue `h` in degrees and saturation and lightness
    /// in percent, by the standard HSL-to-RGB formula with channels rounded
    /// to nearest and clamped into `0..=255`.
    pub fn from_hsl(h: u16, s: u8, l: u8) -> (c: Color)
        requires
            h < 360,
            s <= 100,
            l <= 100,
        ensures
            c == spec_from_hsl(h as int, s as int, l as int),
    {
        let r = Color::channel(h, s, l, 0);
        let g = Color::channel(h, s, l, 8);
        let b = Color::channel(h, s, l, 4);
        Color { r, g, b }
    }

    fn channel(h: u16, s: u8, l: u8, n: u8) -> (v: u8)
        requires
            h < 360,
            s <= 100,
            l <= 100,
            n <= 8,
        ensures
            v as int == hsl_channel(h as int, s as int, l as int, n as int),
    {
        let ku: u32 = (30 * (n as u32) + (h as u32)) % 360;
        let k: i32 = ku as i32;
        let m0: i32 = if k - 90 <= 270 - k {
            k - 90
        } else {
            270 - k
        };
        let m: i32 = if m0 < -30 {
            -30
        } else if m0 > 30 {
            30
        } else {
            m0
        };
        let si: i32 = s as i32;
        let li: i32 = l as i32;
        let mn: i32 = if li <= 100 - li {
            li
        } else {
            100 - li
        };
        assert(0 <= si * mn <= 5000) by (nonlinear_arith)
            requires
                0 <= si <= 100,
                0 <= mn <= 50,
        ;
        let sm: i32 = si * mn;
        assert(-150000 <= sm * m <= 150000) by (nonlinear_arith)
            requires
                0 <= sm <= 5000,
                -30 <= m <= 30,
        ;
        let prod: i32 = sm * m;
        let raw: i32 = 3000 * li - prod;
        let clamped: u32 = if raw < 0 {
            0
        } else if raw > 300000 {
            300000
        } else {
            raw as u32
        };
        let v: u32 = (17 * clamped + 10000) / 20000;
        v as u8
    }
}

} // verus!
