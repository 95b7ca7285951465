use vstd::prelude::*;
use crate::commands::{AppearanceMode, ThemeId};

verus! {

/// The colours of a theme as `0xRRGGBB` values.
#[derive(Clone, Copy, Debug, PartialEq, Eq, Structural)]
pub struct Palette {
    pub background: u32,
    pub panel: u32,
    pub surface: u32,
    pub hover: u32,
    pub selected: u32,
    pub text: u32,
    pub muted: u32,
    pub disabled: u32,
    pub accent: u32,
    pub accent_dim: u32,
    pub border: u32,
    pub warning: u32,
}

/// A dark palette from its twelve colours, in field order.
pub open spec fn palette_of(values: Seq<u32>) -> Palette {
    Palette {
        background: values[0],
        panel: values[1],
        surface: values[2],
        hover: values[3],
        selected: values[4],
        text: values[5],
        muted: values[6],
        disabled: values[7],
        accent: values[8],
        accent_dim: values[9],
        border: values[10],
        warning: values[11],
    }
}

/// A dark palette from its twelve colours, in field order.
pub fn dark_palette(values: [u32; 12]) -> (palette: Palette)
    ensures
        palette == palette_of(values@),
{
    Palette {
        background: values[0],
        panel: values[1],
        surface: values[2],
        hover: values[3],
        selected: values[4],
        text: values[5],
        muted: values[6],
        disabled: values[7],
        accent: values[8],
        accent_dim: values[9],
        border: values[10],
        warning: values[11],
    }
}

/// The twelve colours of each theme's dark palette.
pub open spec fn dark_colours(theme: ThemeId) -> Seq<u32> {
    match theme {
        ThemeId::CatppuccinMocha => seq![
            0x1e1e2e, 0x27283a, 0x313244, 0x373d55, 0x3b4561, 0xcdd6f4, 0x939abb, 0x6f7590,
            0x89b4fa, 0x526c9a, 0x45465b, 0xfab387,
        ],
        ThemeId::RosePineMoon => seq![
            0x232136, 0x26243a, 0x2a273f, 0x342f4c, 0x3b3350, 0xe0def4, 0xa9a4c6, 0x787392,
            0xea9a97, 0x8e5e69, 0x484361, 0xf6c177,
        ],
        ThemeId::TokyoNightStorm => seq![
            0x24283b, 0x292e43, 0x2f3549, 0x363e57, 0x3a4562, 0xa9b1d6, 0x7f88b0, 0x5e6687,
            0x7aa2f7, 0x4b6193, 0x434a63, 0xbb9af7,
        ],
        ThemeId::HorizonBold => seq![
            0x1c1e26, 0x20222c, 0x232530, 0x2b2d3a, 0x352d39, 0xd5d8da, 0x9ba0a6, 0x6f747d,
            0xe95678, 0x8a364b, 0x434550, 0xfab795,
        ],
        ThemeId::MonochromeZero => seq![
            0x0e0e0e, 0x0e0e0e, 0x151515, 0x191919, 0x222222, 0xd8d8d8, 0x858585, 0x555555,
            0xd8d8d8, 0x303030, 0x202020, 0xc49a5a,
        ],
    }
}

/// The dark palette of a theme.
pub fn dark_palette_for(theme: ThemeId) -> (palette: Palette)
    ensures
        palette == palette_of(dark_colours(theme)),
{
    let values: [u32; 12] = match theme {
        ThemeId::CatppuccinMocha => [
            0x1e1e2e, 0x27283a, 0x313244, 0x373d55, 0x3b4561, 0xcdd6f4, 0x939abb, 0x6f7590,
            0x89b4fa, 0x526c9a, 0x45465b, 0xfab387,
        ],
        ThemeId::RosePineMoon => [
            0x232136, 0x26243a, 0x2a273f, 0x342f4c, 0x3b3350, 0xe0def4, 0xa9a4c6, 0x787392,
            0xea9a97, 0x8e5e69, 0x484361, 0xf6c177,
        ],
        ThemeId::TokyoNightStorm => [
            0x24283b, 0x292e43, 0x2f3549, 0x363e57, 0x3a4562, 0xa9b1d6, 0x7f88b0, 0x5e6687,
            0x7aa2f7, 0x4b6193, 0x434a63, 0xbb9af7,
        ],
        ThemeId::HorizonBold => [
            0x1c1e26, 0x20222c, 0x232530, 0x2b2d3a, 0x352d39, 0xd5d8da, 0x9ba0a6, 0x6f747d,
            0xe95678, 0x8a364b, 0x434550, 0xfab795,
        ],
        ThemeId::MonochromeZero => [
            0x0e0e0e, 0x0e0e0e, 0x151515, 0x191919, 0x222222, 0xd8d8d8, 0x858585, 0x555555,
            0xd8d8d8, 0x303030, 0x202020, 0xc49a5a,
        ],
    };
    assert(values@ =~= dark_colours(theme));
    dark_palette(values)
}

/// The five colours a theme's light palette is mixed from: background,
/// surface, accent, warning and text.
pub open spec fn light_seed_spec(theme: ThemeId) -> (u32, u32, u32, u32, u32) {
    match theme {
        ThemeId::CatppuccinMocha => (0xeff1f5, 0xffffff, 0x1e66f5, 0xfe640b, 0x4c4f69),
        ThemeId::RosePineMoon => (0xfaf4ed, 0xfffaf3, 0xd7827e, 0xea9d34, 0x575279),
        ThemeId::TokyoNightStorm => (0xe1e2e7, 0xf4f5fa, 0x2e7de9, 0x9852e0, 0x343b58),
        ThemeId::HorizonBold => (0xf3f0f2, 0xffffff, 0xd4385f, 0xc77547, 0x2a2d35),
        ThemeId::MonochromeZero => (0xffffff, 0xf6f6f6, 0x000000, 0x4d4d4d, 0x111111),
    }
}

/// The five colours a theme's light palette is mixed from (see
/// `light_seed_spec`).
pub fn light_seed(theme: ThemeId) -> (seed: (u32, u32, u32, u32, u32))
    ensures
        seed == light_seed_spec(theme),
{
    match theme {
        ThemeId::CatppuccinMocha => (0xeff1f5, 0xffffff, 0x1e66f5, 0xfe640b, 0x4c4f69),
        ThemeId::RosePineMoon => (0xfaf4ed, 0xfffaf3, 0xd7827e, 0xea9d34, 0x575279),
        ThemeId::TokyoNightStorm => (0xe1e2e7, 0xf4f5fa, 0x2e7de9, 0x9852e0, 0x343b58),
        ThemeId::HorizonBold => (0xf3f0f2, 0xffffff, 0xd4385f, 0xc77547, 0x2a2d35),
        ThemeId::MonochromeZero => (0xffffff, 0xf6f6f6, 0x000000, 0x4d4d4d, 0x111111),
    }
}

/// Whether the light palette is used: with a fixed appearance as it says,
/// following the system when the window's appearance is light.
pub fn uses_light_palette(appearance: AppearanceMode, window_is_light: bool) -> (light: bool)
    ensures
        light == match appearance {
            AppearanceMode::System => window_is_light,
            AppearanceMode::Dark => false,
            AppearanceMode::Light => true,
        },
{
    match appearance {
        AppearanceMode::System => window_is_light,
        AppearanceMode::Dark => false,
        AppearanceMode::Light => true,
    }
}

} // verus!
