use vstd::prelude::*;
use crate::terminal::{default_pen, Pen, TermColor};
use crate::termcolor::{
    ansi_color, indexed_color, rgb_color, spec_ansi_color, spec_indexed_color, spec_rgb_color,
};

verus! {

/// Control-sequence parameters: each parameter with its sub-parameters.
pub open spec fn params_view(params: Seq<Vec<u16>>) -> Seq<Seq<u16>> {
    params.map_values(|p: Vec<u16>| p@)
}

/// The leading value of parameter `i`, if there is such a parameter and it
/// holds a value.
pub open spec fn param_first(params: Seq<Seq<u16>>, i: int) -> Option<u16> {
    if 0 <= i < params.len() && params[i].len() > 0 {
        Some(params[i][0])
    } else {
        None
    }
}

pub open spec fn param_or(params: Seq<Seq<u16>>, i: int, default: u16) -> u16 {
    match param_first(params, i) {
        Some(v) => v,
        None => default,
    }
}

/// The color selected by an extended color parameter (38 or 48) at `index`,
/// and how many following parameters it consumed. The color may be given in
/// sub-parameters (`38:5:n`, `38:2:r:g:b`, also with a color-space id before
/// the channels) or in the following parameters (`38;5;n`, `38;2;r;g;b`).
pub open spec fn extended_color(dark: bool, params: Seq<Seq<u16>>, index: int) -> (Option<TermColor>, nat) {
    let current = params[index];
    if current.len() > 1 {
        let spec = current.subrange(1, current.len() as int);
        if spec[0] == 5 {
            (if spec.len() > 1 { Some(spec_indexed_color(dark, spec[1])) } else { None }, 0)
        } else if spec[0] == 2 && spec.len() >= 4 {
            (Some(spec_rgb_color(spec[spec.len() - 3], spec[spec.len() - 2], spec[spec.len() - 1])), 0)
        } else {
            (None, 0)
        }
    } else {
        match param_first(params, index + 1) {
            Some(5) => (
                match param_first(params, index + 2) {
                    Some(i) => Some(spec_indexed_color(dark, i)),
                    None => None,
                },
                2,
            ),
            Some(2) => (
                match (param_first(params, index + 2), param_first(params, index + 3), param_first(params, index + 4)) {
                    (Some(r), Some(g), Some(b)) => Some(spec_rgb_color(r, g, b)),
                    _ => None,
                },
                4,
            ),
            Some(_) => (None, 1),
            None => (None, 0),
        }
    }
}

/// The effect of the graphic-rendition parameter at `index` on the pen, and
/// how many following parameters it consumed.
pub open spec fn sgr_step(pen: Pen, dark: bool, params: Seq<Seq<u16>>, index: int) -> (Pen, nat) {
    let value = param_or(params, index, 0);
    if value == 0 {
        (default_pen(), 0)
    } else if value == 1 {
        (Pen { bold: true, ..pen }, 0)
    } else if value == 2 {
        (Pen { dim: true, ..pen }, 0)
    } else if value == 3 {
        (Pen { italic: true, ..pen }, 0)
    } else if value == 4 {
        (Pen { underline: true, ..pen }, 0)
    } else if value == 7 {
        (Pen { inverse: true, ..pen }, 0)
    } else if value == 9 {
        (Pen { strikethrough: true, ..pen }, 0)
    } else if value == 22 {
        (Pen { bold: false, dim: false, ..pen }, 0)
    } else if value == 23 {
        (Pen { italic: false, ..pen }, 0)
    } else if value == 24 {
        (Pen { underline: false, ..pen }, 0)
    } else if value == 27 {
        (Pen { inverse: false, ..pen }, 0)
    } else if value == 29 {
        (Pen { strikethrough: false, ..pen }, 0)
    } else if 30 <= value <= 37 {
        (Pen { fg: spec_ansi_color(dark, (value - 30) as u16), ..pen }, 0)
    } else if value == 38 {
        let (color, consumed) = extended_color(dark, params, index);
        (match color { Some(c) => Pen { fg: c, ..pen }, None => pen }, consumed)
    } else if value == 39 {
        (Pen { fg: TermColor::DefaultFg, ..pen }, 0)
    } else if 40 <= value <= 47 {
        (Pen { bg: spec_ansi_color(dark, (value - 40) as u16), ..pen }, 0)
    } else if value == 48 {
        let (color, consumed) = extended_color(dark, params, index);
        (match color { Some(c) => Pen { bg: c, ..pen }, None => pen }, consumed)
    } else if value == 49 {
        (Pen { bg: TermColor::DefaultBg, ..pen }, 0)
    } else if 90 <= value <= 97 {
        (Pen { fg: spec_ansi_color(dark, (value - 82) as u16), ..pen }, 0)
    } else if 100 <= value <= 107 {
        (Pen { bg: spec_ansi_color(dark, (value - 92) as u16), ..pen }, 0)
    } else {
        (pen, 0)
    }
}

/// The pen after the graphic-rendition parameters from `index` on, each
/// applied in turn, skipping the parameters that an extended color consumed.
pub open spec fn sgr_from(pen: Pen, dark: bool, params: Seq<Seq<u16>>, index: nat) -> Pen
    decreases params.len() - index,
{
    if index >= params.len() {
        pen
    } else {
        let (next, consumed) = sgr_step(pen, dark, params, index as int);
        if index + consumed + 1 >= params.len() {
            next
        } else {
            sgr_from(next, dark, params, index + consumed + 1)
        }
    }
}

/// A graphic-rendition sequence: no parameters resets the pen.
pub open spec fn applied_sgr(pen: Pen, dark: bool, params: Seq<Seq<u16>>) -> Pen {
    if params.len() == 0 {
        default_pen()
    } else {
        sgr_from(pen, dark, params, 0)
    }
}

pub fn first_param(params: &Vec<Vec<u16>>, i: usize) -> (value: Option<u16>)
    ensures
        value == param_first(params_view(params@), i as int),
{
    if i < params.len() && params[i].len() > 0 {
        Some(params[i][0])
    } else {
        None
    }
}

pub fn param_value_or(params: &Vec<Vec<u16>>, i: usize, default: u16) -> (value: u16)
    ensures
        value == param_or(params_view(params@), i as int, default),
{
    match first_param(params, i) {
        Some(v) => v,
        None => default,
    }
}

fn first_param_after(params: &Vec<Vec<u16>>, index: usize, offset: usize) -> (value: Option<u16>)
    requires
        index < params@.len(),
    ensures
        value == param_first(params_view(params@), index + offset),
{
    if offset < params.len() - index {
        first_param(params, index + offset)
    } else {
        None
    }
}

fn parse_extended_color(dark: bool, params: &Vec<Vec<u16>>, index: usize) -> (result: (Option<TermColor>, usize))
    requires
        index < params@.len(),
    ensures
        (result.0, result.1 as nat) == extended_color(dark, params_view(params@), index as int),
{
    let ghost ps = params_view(params@);
    let current = &params[index];
    assert(ps[index as int] == current@);
    if current.len() > 1 {
        let n = current.len();
        let ghost spec = ps[index as int].subrange(1, n as int);
        assert(spec[0] == current@[1]);
        if current[1] == 5 {
            if n > 2 {
                assert(spec[1] == current@[2]);
                (Some(indexed_color(dark, current[2])), 0)
            } else {
                (None, 0)
            }
        } else if current[1] == 2 && n - 1 >= 4 {
            assert(spec[spec.len() - 3] == current@[n - 3]);
            assert(spec[spec.len() - 2] == current@[n - 2]);
            assert(spec[spec.len() - 1] == current@[n - 1]);
            (Some(rgb_color(current[n - 3], current[n - 2], current[n - 1])), 0)
        } else {
            (None, 0)
        }
    } else {
        let mode = first_param_after(params, index, 1);
        match mode {
            Some(5) => {
                let color = match first_param_after(params, index, 2) {
                    Some(i) => Some(indexed_color(dark, i)),
                    None => None,
                };
                (color, 2)
            },
            Some(2) => {
                let red = first_param_after(params, index, 2);
                let green = first_param_after(params, index, 3);
                let blue = first_param_after(params, index, 4);
                let color = match (red, green, blue) {
                    (Some(r), Some(g), Some(b)) => Some(rgb_color(r, g, b)),
                    _ => None,
                };
                (color, 4)
            },
            Some(_) => (None, 1),
            None => (None, 0),
        }
    }
}

fn reset_pen() -> (pen: Pen)
    ensures
        pen == default_pen(),
{
    Pen {
        fg: TermColor::DefaultFg,
        bg: TermColor::DefaultBg,
        bold: false,
        dim: false,
        italic: false,
        underline: false,
        inverse: false,
        strikethrough: false,
    }
}

fn sgr_step_exec(pen: Pen, dark: bool, params: &Vec<Vec<u16>>, index: usize) -> (result: (Pen, usize))
    requires
        index < params@.len(),
    ensures
        (result.0, result.1 as nat) == sgr_step(pen, dark, params_view(params@), index as int),
{
    let value = param_value_or(params, index, 0);
    if value == 0 {
        (reset_pen(), 0)
    } else if value == 1 {
        (Pen { bold: true, ..pen }, 0)
    } else if value == 2 {
        (Pen { dim: true, ..pen }, 0)
    } else if value == 3 {
        (Pen { italic: true, ..pen }, 0)
    } else if value == 4 {
        (Pen { underline: true, ..pen }, 0)
    } else if value == 7 {
        (Pen { inverse: true, ..pen }, 0)
    } else if value == 9 {
        (Pen { strikethrough: true, ..pen }, 0)
    } else if value == 22 {
        (Pen { bold: false, dim: false, ..pen }, 0)
    } else if value == 23 {
        (Pen { italic: false, ..pen }, 0)
    } else if value == 24 {
        (Pen { underline: false, ..pen }, 0)
    } else if value == 27 {
        (Pen { inverse: false, ..pen }, 0)
    } else if value == 29 {
        (Pen { strikethrough: false, ..pen }, 0)
    } else if 30 <= value && value <= 37 {
        (Pen { fg: ansi_color(dark, value - 30), ..pen }, 0)
    } else if value == 38 {
        let (color, consumed) = parse_extended_color(dark, params, index);
        (match color { Some(c) => Pen { fg: c, ..pen }, None => pen }, consumed)
    } else if value == 39 {
        (Pen { fg: TermColor::DefaultFg, ..pen }, 0)
    } else if 40 <= value && value <= 47 {
        (Pen { bg: ansi_color(dark, value - 40), ..pen }, 0)
    } else if value == 48 {
        let (color, consumed) = parse_extended_color(dark, params, index);
        (match color { Some(c) => Pen { bg: c, ..pen }, None => pen }, consumed)
    } else if value == 49 {
        (Pen { bg: TermColor::DefaultBg, ..pen }, 0)
    } else if 90 <= value && value <= 97 {
        (Pen { fg: ansi_color(dark, value - 82), ..pen }, 0)
    } else if 100 <= value && value <= 107 {
        (Pen { bg: ansi_color(dark, value - 92), ..pen }, 0)
    } else {
        (pen, 0)
    }
}

/// Applies a graphic-rendition (SGR) sequence to the pen.
pub fn apply_sgr(start: Pen, dark: bool, params: &Vec<Vec<u16>>) -> (result: Pen)
    ensures
        result == applied_sgr(start, dark, params_view(params@)),
{
    if params.len() == 0 {
        return reset_pen();
    }
    let ghost ps = params_view(params@);
    let mut pen = start;
    let mut index: usize = 0;
    while index < params.len()
        invariant
            ps == params_view(params@),
            ps.len() > 0,
            sgr_from(pen, dark, ps, index as nat) == applied_sgr(start, dark, ps),
        decreases params@.len() - index,
    {
        let ghost before = pen;
        let ghost at = index;
        let (next, consumed) = sgr_step_exec(pen, dark, params, index);
        assert(sgr_step(before, dark, ps, at as int) == (next, consumed as nat));
        pen = next;
        if consumed >= params.len() - index {
            index = params.len();
        } else {
            index = index + consumed + 1;
        }
        assert(sgr_from(before, dark, ps, at as nat) == sgr_from(pen, dark, ps, index as nat));
    }
    pen
}

} // verus!
