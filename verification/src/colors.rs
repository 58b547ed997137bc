//! Procedural palette generation.
//!
//! Colours are computed from HSV coordinates by the standard six-sector
//! decomposition. Saturation and value are carried in per-mille (0..=1000)
//! and the hue in whole degrees, so the conversion is exact integer
//! arithmetic; the default scheme (full saturation, value 0.8, hue
//! stepping `speed` degrees per iteration from a 240-degree phase) uses
//! only such values.

use vstd::prelude::*;
use vstd::arithmetic::div_mod::{lemma_div_is_ordered, lemma_div_by_multiple};

verus! {

/// One 8-bit RGB colour.
#[derive(Clone, Copy, PartialEq, Eq, Structural, Debug)]
pub struct Rgb {
    pub r: u8,
    pub g: u8,
    pub b: u8,
}

/// The sentinel colour for points that never escape: black.
pub open spec fn black() -> Rgb {
    Rgb { r: 0, g: 0, b: 0 }
}

/// Number of palette entries the fixed-size generator precomputes.
pub const COLOR_SIZE: usize = 1000;

/// Chroma in per-mille: `val * sat / 1000`.
pub open spec fn chroma_pm(sat: int, val: int) -> int {
    val * sat / 1000
}

/// Distance of the hue from the centre of its 120-degree band, in degrees.
pub open spec fn band_dist(hue: int) -> int {
    let r = hue % 120;
    if r >= 60 {
        r - 60
    } else {
        60 - r
    }
}

/// The secondary channel in per-mille: the chroma faded linearly towards
/// the edges of the hue band.
pub open spec fn second_pm(hue: int, sat: int, val: int) -> int {
    chroma_pm(sat, val) * (60 - band_dist(hue)) / 60
}

/// A per-mille channel scaled to 8 bits.
pub open spec fn to_byte(pm: int) -> int {
    pm * 255 / 1000
}

/// Builds a colour from three per-mille channels.
pub open spec fn rgb_of_pm(rpm: int, gpm: int, bpm: int) -> Rgb {
    Rgb { r: to_byte(rpm) as u8, g: to_byte(gpm) as u8, b: to_byte(bpm) as u8 }
}

/// The HSV -> RGB sector decomposition on per-mille saturation and value
/// and a hue in `[0, 360)` degrees: each 60-degree sector assigns the
/// chroma, the faded secondary and the floor channel to a distinct
/// permutation of red, green and blue, all lifted by `val - chroma`.
pub open spec fn hsv_spec(hue: int, sat: int, val: int) -> Rgb {
    let c = chroma_pm(sat, val);
    let x = second_pm(hue, sat, val);
    let m = val - c;
    if hue < 60 {
        rgb_of_pm(m + c, m + x, m)
    } else if hue < 120 {
        rgb_of_pm(m + x, m + c, m)
    } else if hue < 180 {
        rgb_of_pm(m, m + c, m + x)
    } else if hue < 240 {
        rgb_of_pm(m, m + x, m + c)
    } else if hue < 300 {
        rgb_of_pm(m + x, m, m + c)
    } else {
        rgb_of_pm(m + c, m, m + x)
    }
}

/// A per-mille quantity scaled to one 8-bit channel.
fn to_byte_exec(pm: u32) -> (b: u8)
    requires
        pm <= 1000,
    ensures
        b == to_byte(pm as int),
{
    proof {
        lemma_div_is_ordered((pm * 255) as int, 255000, 1000);
    }
    ((pm * 255) / 1000) as u8
}

/// Converts an HSV value to an 8-bit RGB value: hue in whole degrees,
/// saturation and value in per-mille.
pub fn hsv(hue: u32, sat: u32, val: u32) -> (color: Rgb)
    requires
        hue < 360,
        sat <= 1000,
        val <= 1000,
    ensures
        color == hsv_spec(hue as int, sat as int, val as int),
{
    proof {
        assert(val * sat <= val * 1000 && val * 1000 <= 1000000) by (nonlinear_arith)
            requires
                sat <= 1000,
                val <= 1000,
        ;
        lemma_div_is_ordered((val * sat) as int, (val * 1000) as int, 1000);
        lemma_div_by_multiple(val as int, 1000);
    }
    let c: u32 = val * sat / 1000;
    let rem: u32 = hue % 120;
    let d: u32 = if rem >= 60 { rem - 60 } else { 60 - rem };
    proof {
        assert(c * (60 - d) <= c * 60) by (nonlinear_arith)
            requires
                d <= 60,
        ;
        lemma_div_is_ordered((c * (60 - d)) as int, (c * 60) as int, 60);
        lemma_div_by_multiple(c as int, 60);
    }
    let x: u32 = c * (60 - d) / 60;
    let m: u32 = val - c;
    let mut red: u32 = 0;
    let mut green: u32 = 0;
    let mut blue: u32 = 0;
    if hue < 60 {
        red = c;
        green = x;
    }
    if 60 <= hue && hue < 120 {
        green = c;
        red = x;
    }
    if 120 <= hue && hue < 180 {
        green = c;
        blue = x;
    }
    if 180 <= hue && hue < 240 {
        blue = c;
        green = x;
    }
    if 240 <= hue && hue < 300 {
        blue = c;
        red = x;
    }
    if 300 <= hue {
        red = c;
        blue = x;
    }
    Rgb { r: to_byte_exec(m + red), g: to_byte_exec(m + green), b: to_byte_exec(m + blue) }
}

/// The hue angle of palette entry `i`: `i * speed` degrees past the
/// 240-degree phase offset, wrapped to `[0, 360)`.
pub open spec fn angle_of(i: int, speed: int) -> int {
    (i * speed + 240) % 360
}

/// Palette entry `i`: full saturation, value 0.8.
pub open spec fn palette_at(i: int, speed: int) -> Rgb {
    hsv_spec(angle_of(i, speed), 1000, 800)
}

/// The whole palette: one colour per possible escape step.
pub open spec fn palette_seq(count: nat, speed: int) -> Seq<Rgb> {
    Seq::new(count, |i: int| palette_at(i, speed))
}

/// Generates the iteration-indexed palette: entry `t` is the colour of a
/// point that escapes at step `t`. Fully determined by
/// `(count, speed)`, so repeated renders are identical.
pub fn gen_palette(count: usize, speed: usize) -> (colors: Vec<Rgb>)
    requires
        count <= 1000000,
        speed <= 1000000,
    ensures
        colors@ == palette_seq(count as nat, speed as int),
{
    let mut colors: Vec<Rgb> = Vec::new();
    let mut i: usize = 0;
    while i < count
        invariant
            i <= count,
            count <= 1000000,
            speed <= 1000000,
            colors@.len() == i,
            forall|k: int| 0 <= k < i ==> colors@[k] == palette_at(k, speed as int),
        decreases count - i,
    {
        proof {
            assert(0 <= (i as int) * (speed as int) <= 1000000000000) by (nonlinear_arith)
                requires
                    0 <= i <= 1000000,
                    0 <= speed <= 1000000,
            ;
        }
        let angle: u64 = ((i as u64) * (speed as u64) + 240) % 360;
        let color: Rgb = hsv(angle as u32, 1000, 800);
        colors.push(color);
        i = i + 1;
    }
    proof {
        assert(colors@ =~= palette_seq(count as nat, speed as int));
    }
    colors
}

/// The fixed 1000-entry palette, stepping `speed` degrees of hue per entry.
pub fn color_gen(speed: usize) -> (colors: Vec<Rgb>)
    requires
        speed <= 1000000,
    ensures
        colors@ == palette_seq(COLOR_SIZE as nat, speed as int),
        colors@.len() == COLOR_SIZE,
{
    gen_palette(COLOR_SIZE, speed)
}

/// Palette generation is deterministic: two palettes built from the same
/// `(count, speed)` are equal, entry for entry, and have `count` entries.
pub proof fn lemma_palette_deterministic(a: Seq<Rgb>, b: Seq<Rgb>, count: nat, speed: int)
    requires
        a == palette_seq(count, speed),
        b == palette_seq(count, speed),
    ensures
        a == b,
        a.len() == count,
{
}

} // verus!
