//! Run styles and racing surfaces, as the data files spell them.

use vstd::prelude::*;
use crate::text::{
    chars_of, same_chars, starts_with, starts_with_spec, trim, trim_spec, upper_case, uppercased,
};

verus! {

/// The surface whose rules a race is scored by.
#[derive(Debug, Clone, Copy, PartialEq, Eq, Structural)]
pub enum SurfaceMode {
    Dirt,
    Turf,
}

/// A horse's customary running position.
#[derive(Debug, Clone, Copy, PartialEq, Eq, Structural)]
pub enum RunStyle {
    /// Early.
    E,
    /// Early presser.
    EP,
    /// Presser.
    P,
    /// Sustained, a closer.
    S,
    /// Not one of the known codes.
    Unk,
}

/// A text with the white space at its ends removed, in upper case.
pub open spec fn normalized(raw: Seq<char>) -> Seq<char> {
    uppercased(trim_spec(raw))
}

/// The run style that a trimmed upper-case code stands for. An early
/// presser is written `E/P`, or with `EP` at the start. An early horse is
/// written `E`, or with `E/` at the start in any code but `E/P`.
pub open spec fn run_style_of_code(code: Seq<char>) -> RunStyle {
    if code == seq!['E', '/', 'P'] || starts_with_spec(code, seq!['E', 'P']) {
        RunStyle::EP
    } else if code == seq!['E'] || starts_with_spec(code, seq!['E', '/']) {
        RunStyle::E
    } else if code == seq!['P'] {
        RunStyle::P
    } else if code == seq!['S'] || code == seq!['C'] || code == seq!['C', 'L', 'O'] {
        RunStyle::S
    } else {
        RunStyle::Unk
    }
}

/// The run style that a raw code stands for, whatever its case and the white
/// space around it.
pub open spec fn run_style_spec(raw: Seq<char>) -> RunStyle {
    run_style_of_code(normalized(raw))
}

/// Whether a trimmed upper-case surface code names the surface of `mode`.
pub open spec fn surface_code_matches(mode: SurfaceMode, code: Seq<char>) -> bool {
    match mode {
        SurfaceMode::Dirt => code == seq!['D'],
        SurfaceMode::Turf => code == seq!['T'],
    }
}

/// Whether a raw surface code names the surface of `mode`.
pub open spec fn surface_matches_spec(mode: SurfaceMode, raw: Seq<char>) -> bool {
    surface_code_matches(mode, normalized(raw))
}

/// The surface mode that a race with the raw surface code `raw` is ranked in:
/// turf for `T`, dirt for everything else.
pub open spec fn surface_mode_spec(raw: Seq<char>) -> SurfaceMode {
    if normalized(raw) == seq!['T'] {
        SurfaceMode::Turf
    } else {
        SurfaceMode::Dirt
    }
}

/// The trimmed upper-case form of `raw`.
pub fn normalize(raw: &str) -> (code: Vec<char>)
    ensures
        code@ == normalized(raw@),
{
    let chars = chars_of(raw);
    let trimmed = trim(&chars);
    upper_case(&trimmed)
}

/// The run style that the trimmed upper-case code `code` stands for.
pub fn classify_run_style(code: &Vec<char>) -> (style: RunStyle)
    ensures
        style == run_style_of_code(code@),
{
    proof {
        assert(['E']@ =~= seq!['E']);
        assert(['E', '/']@ =~= seq!['E', '/']);
        assert(['E', 'P']@ =~= seq!['E', 'P']);
        assert(['E', '/', 'P']@ =~= seq!['E', '/', 'P']);
        assert(['P']@ =~= seq!['P']);
        assert(['S']@ =~= seq!['S']);
        assert(['C']@ =~= seq!['C']);
        assert(['C', 'L', 'O']@ =~= seq!['C', 'L', 'O']);
    }
    if same_chars(code, &['E', '/', 'P']) || starts_with(code, &['E', 'P']) {
        RunStyle::EP
    } else if same_chars(code, &['E']) || starts_with(code, &['E', '/']) {
        RunStyle::E
    } else if same_chars(code, &['P']) {
        RunStyle::P
    } else if same_chars(code, &['S']) || same_chars(code, &['C']) || same_chars(
        code,
        &['C', 'L', 'O'],
    ) {
        RunStyle::S
    } else {
        RunStyle::Unk
    }
}

/// The run style that `raw` stands for.
pub fn parse_run_style(raw: &str) -> (style: RunStyle)
    ensures
        style == run_style_spec(raw@),
{
    let code = normalize(raw);
    classify_run_style(&code)
}

/// Whether the trimmed upper-case surface code `code` names the surface of
/// `mode`.
pub fn classify_surface(mode: SurfaceMode, code: &Vec<char>) -> (r: bool)
    ensures
        r == surface_code_matches(mode, code@),
{
    proof {
        assert(['D']@ =~= seq!['D']);
        assert(['T']@ =~= seq!['T']);
    }
    match mode {
        SurfaceMode::Dirt => same_chars(code, &['D']),
        SurfaceMode::Turf => same_chars(code, &['T']),
    }
}

/// Whether the surface code `pp_surface` of a past start names the surface
/// of `mode`.
pub fn surface_matches(mode: SurfaceMode, pp_surface: &str) -> (r: bool)
    ensures
        r == surface_matches_spec(mode, pp_surface@),
{
    let code = normalize(pp_surface);
    classify_surface(mode, &code)
}

} // verus!
