use vstd::prelude::*;
use crate::terminal::TermColor;

verus! {

/// The sixteen ANSI colors as (red, green, blue), one table for dark
/// backgrounds and one for light ones; codes above 15 use the last entry.
pub open spec fn ansi_palette(dark: bool, code: u16) -> (u8, u8, u8) {
    if dark {
        match code {
            0 => (27, 29, 35),
            1 => (224, 108, 117),
            2 => (152, 195, 121),
            3 => (229, 192, 123),
            4 => (97, 175, 239),
            5 => (198, 120, 221),
            6 => (86, 182, 194),
            7 => (171, 178, 191),
            8 => (92, 99, 112),
            9 => (255, 122, 133),
            10 => (179, 227, 123),
            11 => (255, 204, 128),
            12 => (117, 191, 255),
            13 => (210, 145, 240),
            14 => (104, 212, 223),
            _ => (244, 245, 247),
        }
    } else {
        match code {
            0 => (43, 45, 49),
            1 => (180, 35, 44),
            2 => (40, 122, 69),
            3 => (138, 90, 0),
            4 => (36, 95, 181),
            5 => (124, 63, 161),
            6 => (11, 114, 133),
            7 => (74, 77, 83),
            8 => (104, 107, 114),
            9 => (208, 48, 58),
            10 => (47, 138, 80),
            11 => (166, 106, 0),
            12 => (46, 109, 204),
            13 => (145, 74, 184),
            14 => (13, 130, 149),
            _ => (17, 18, 22),
        }
    }
}

fn ansi_palette_entry(dark: bool, code: u16) -> (rgb: (u8, u8, u8))
    ensures
        rgb == ansi_palette(dark, code),
{
    if dark {
        match code {
            0 => (27, 29, 35),
            1 => (224, 108, 117),
            2 => (152, 195, 121),
            3 => (229, 192, 123),
            4 => (97, 175, 239),
            5 => (198, 120, 221),
            6 => (86, 182, 194),
            7 => (171, 178, 191),
            8 => (92, 99, 112),
            9 => (255, 122, 133),
            10 => (179, 227, 123),
            11 => (255, 204, 128),
            12 => (117, 191, 255),
            13 => (210, 145, 240),
            14 => (104, 212, 223),
            _ => (244, 245, 247),
        }
    } else {
        match code {
            0 => (43, 45, 49),
            1 => (180, 35, 44),
            2 => (40, 122, 69),
            3 => (138, 90, 0),
            4 => (36, 95, 181),
            5 => (124, 63, 161),
            6 => (11, 114, 133),
            7 => (74, 77, 83),
            8 => (104, 107, 114),
            9 => (208, 48, 58),
            10 => (47, 138, 80),
            11 => (166, 106, 0),
            12 => (46, 109, 204),
            13 => (145, 74, 184),
            14 => (13, 130, 149),
            _ => (17, 18, 22),
        }
    }
}

pub open spec fn min_u16(a: u16, b: u16) -> u16 {
    if a <= b {
        a
    } else {
        b
    }
}

/// An explicit color from three channels, each clamped to 255.
pub open spec fn spec_rgb_color(r: u16, g: u16, b: u16) -> TermColor {
    TermColor::Rgb(min_u16(r, 255) as u8, min_u16(g, 255) as u8, min_u16(b, 255) as u8)
}

pub open spec fn spec_ansi_color(dark: bool, code: u16) -> TermColor {
    let (r, g, b) = ansi_palette(dark, code);
    TermColor::Rgb(r, g, b)
}

/// The level of one channel of the 6x6x6 color cube: 0, 95, 135, 175, 215, 255.
pub open spec fn cube_level(step: u16) -> u16 {
    if step == 0 {
        0
    } else {
        (55 + 40 * step) as u16
    }
}

/// The 256-color palette: ANSI colors, then the color cube, then a gray ramp.
pub open spec fn spec_indexed_color(dark: bool, index: u16) -> TermColor {
    let index = min_u16(index, 255);
    if index < 16 {
        spec_ansi_color(dark, index)
    } else if index < 232 {
        let i = (index - 16) as u16;
        spec_rgb_color(cube_level(i / 36), cube_level((i % 36) / 6), cube_level(i % 6))
    } else {
        let gray = ((index - 232) * 10 + 8) as u16;
        spec_rgb_color(gray, gray, gray)
    }
}

/// The explicit color for three channels, each clamped to 255.
pub fn rgb_color(r: u16, g: u16, b: u16) -> (color: TermColor)
    ensures
        color == spec_rgb_color(r, g, b),
{
    let r = if r > 255 { 255 } else { r };
    let g = if g > 255 { 255 } else { g };
    let b = if b > 255 { 255 } else { b };
    TermColor::Rgb(r as u8, g as u8, b as u8)
}

/// The ANSI color for `code` (0 to 15; larger codes use 15).
pub fn ansi_color(dark: bool, code: u16) -> (color: TermColor)
    ensures
        color == spec_ansi_color(dark, code),
{
    let (r, g, b) = ansi_palette_entry(dark, code);
    TermColor::Rgb(r, g, b)
}

fn cube_level_value(step: u16) -> (level: u16)
    requires
        step < 6,
    ensures
        level == cube_level(step),
{
    if step == 0 {
        0
    } else {
        55 + 40 * step
    }
}

/// The color with the given index in the 256-color palette.
pub fn indexed_color(dark: bool, index: u16) -> (color: TermColor)
    ensures
        color == spec_indexed_color(dark, index),
{
    let index = if index > 255 { 255 } else { index };
    if index < 16 {
        ansi_color(dark, index)
    } else if index < 232 {
        let i = index - 16;
        rgb_color(cube_level_value(i / 36), cube_level_value((i % 36) / 6), cube_level_value(i % 6))
    } else {
        let gray = (index - 232) * 10 + 8;
        rgb_color(gray, gray, gray)
    }
}

/// The xterm color cube: palette index 16 + 36 r + 6 g + b (each digit 0 to
/// 5, red the most significant) is the color whose red, green and blue are
/// the levels 0, 95, 135, 175, 215, 255 picked by r, g and b, on any
/// background. So index 196 is pure red and index 21 pure blue.
pub proof fn law_color_cube_digits(dark: bool, r: u16, g: u16, b: u16)
    requires
        r < 6,
        g < 6,
        b < 6,
    ensures
        ({
            let levels = seq![0u8, 95u8, 135u8, 175u8, 215u8, 255u8];
            spec_indexed_color(dark, (16 + 36 * r + 6 * g + b) as u16)
                == TermColor::Rgb(levels[r as int], levels[g as int], levels[b as int])
        }),
{
    let i: int = 36 * r + 6 * g + b;
    assert(i / 36 == r && (i % 36) / 6 == g && i % 6 == b) by (nonlinear_arith)
        requires
            i == 36 * r + 6 * g + b,
            0 <= r < 6,
            0 <= g < 6,
            0 <= b < 6,
    ;
    let levels = seq![0u8, 95u8, 135u8, 175u8, 215u8, 255u8];
    assert(levels[r as int] == cube_level(r) && levels[g as int] == cube_level(g) && levels[b as int] == cube_level(b));
}

/// The last 24 palette entries are a gray ramp: index 232 + k is the gray
/// 8 + 10 k in all three channels, from 8 up to 238, on any background.
pub proof fn law_gray_ramp(dark: bool, k: u16)
    requires
        k < 24,
    ensures
        spec_indexed_color(dark, (232 + k) as u16) == TermColor::Rgb((8 + 10 * k) as u8, (8 + 10 * k) as u8, (8 + 10 * k) as u8),
{
}

} // verus!
