//! What a relational store needs of the analysis: the integer codes of its
//! enumerations, the conversions between the store's 64-bit integers and
//! the counts of the records, and the placeholders of a statement.

use vstd::prelude::*;
use vstd::string::StringExecFns;
use crate::shape::Shape;
use crate::style::{RunStyle, SurfaceMode};
use crate::text::{append_chars, signed_text, signed_text_spec};

verus! {

/// Why a stored value cannot be taken back into a record.
#[derive(Debug, Clone, Copy, PartialEq, Eq)]
pub enum CodeError {
    /// No surface mode has this code.
    UnknownSurfaceMode(i64),
    /// No shape has this code.
    UnknownShape(i64),
    /// No run style has this code.
    UnknownRunStyle(i64),
    /// A count is negative.
    NegativeCount(i64),
    /// An analysis was handed in for another card than its own.
    CardMismatch { arg: i64, analysis: i64 },
}

impl CodeError {
    /// What the error says, in words.
    pub open spec fn text(self) -> Seq<char> {
        match self {
            CodeError::UnknownSurfaceMode(value) => "Unknown surface mode: "@ + signed_text_spec(
                value as int,
            ),
            CodeError::UnknownShape(value) => "Unknown shape: "@ + signed_text_spec(value as int),
            CodeError::UnknownRunStyle(value) => "Unknown run style: "@ + signed_text_spec(
                value as int,
            ),
            CodeError::NegativeCount(value) => "Negative value for u32: "@ + signed_text_spec(
                value as int,
            ),
            CodeError::CardMismatch { arg, analysis } => "racecard_id mismatch: arg="@
                + signed_text_spec(arg as int) + ", analysis="@ + signed_text_spec(analysis as int),
        }
    }

    /// What the error says, in words.
    pub fn message(&self) -> (m: String)
        ensures
            m@ == self.text(),
    {
        match self {
            CodeError::UnknownSurfaceMode(value) => {
                let mut m = String::from_str("Unknown surface mode: ");
                append_chars(&mut m, &signed_text(*value));
                m
            },
            CodeError::UnknownShape(value) => {
                let mut m = String::from_str("Unknown shape: ");
                append_chars(&mut m, &signed_text(*value));
                m
            },
            CodeError::UnknownRunStyle(value) => {
                let mut m = String::from_str("Unknown run style: ");
                append_chars(&mut m, &signed_text(*value));
                m
            },
            CodeError::NegativeCount(value) => {
                let mut m = String::from_str("Negative value for u32: ");
                append_chars(&mut m, &signed_text(*value));
                m
            },
            CodeError::CardMismatch { arg, analysis } => {
                let mut m = String::from_str("racecard_id mismatch: arg=");
                append_chars(&mut m, &signed_text(*arg));
                m.append(", analysis=");
                append_chars(&mut m, &signed_text(*analysis));
                m
            },
        }
    }
}

/// The code of a surface mode.
pub open spec fn surface_mode_code(mode: SurfaceMode) -> int {
    match mode {
        SurfaceMode::Dirt => 0,
        SurfaceMode::Turf => 1,
    }
}

/// The code of a shape.
pub open spec fn shape_code(shape: Shape) -> int {
    match shape {
        Shape::Slow => 0,
        Shape::Honest => 1,
        Shape::Fast => 2,
        Shape::Meltdown => 3,
    }
}

/// The code of a run style.
pub open spec fn run_style_code(style: RunStyle) -> int {
    match style {
        RunStyle::E => 0,
        RunStyle::EP => 1,
        RunStyle::P => 2,
        RunStyle::S => 3,
        RunStyle::Unk => 4,
    }
}

/// The code of the surface mode `mode`.
pub fn surface_mode_to_i64(mode: SurfaceMode) -> (code: i64)
    ensures
        code == surface_mode_code(mode),
{
    match mode {
        SurfaceMode::Dirt => 0,
        SurfaceMode::Turf => 1,
    }
}

/// The surface mode with the code `value`; an error exactly where there is
/// none.
pub fn surface_mode_from_i64(value: i64) -> (r: Result<SurfaceMode, CodeError>)
    ensures
        match r {
            Ok(mode) => surface_mode_code(mode) == value,
            Err(e) => e == CodeError::UnknownSurfaceMode(value) && !(0 <= value <= 1),
        },
{
    if value == 0 {
        Ok(SurfaceMode::Dirt)
    } else if value == 1 {
        Ok(SurfaceMode::Turf)
    } else {
        Err(CodeError::UnknownSurfaceMode(value))
    }
}

/// The code of the shape `shape`.
pub fn shape_to_i64(shape: Shape) -> (code: i64)
    ensures
        code == shape_code(shape),
{
    match shape {
        Shape::Slow => 0,
        Shape::Honest => 1,
        Shape::Fast => 2,
        Shape::Meltdown => 3,
    }
}

/// The shape with the code `value`; an error exactly where there is none.
pub fn shape_from_i64(value: i64) -> (r: Result<Shape, CodeError>)
    ensures
        match r {
            Ok(shape) => shape_code(shape) == value,
            Err(e) => e == CodeError::UnknownShape(value) && !(0 <= value <= 3),
        },
{
    if value == 0 {
        Ok(Shape::Slow)
    } else if value == 1 {
        Ok(Shape::Honest)
    } else if value == 2 {
        Ok(Shape::Fast)
    } else if value == 3 {
        Ok(Shape::Meltdown)
    } else {
        Err(CodeError::UnknownShape(value))
    }
}

/// The code of the run style `style`.
pub fn run_style_to_i64(style: RunStyle) -> (code: i64)
    ensures
        code == run_style_code(style),
{
    match style {
        RunStyle::E => 0,
        RunStyle::EP => 1,
        RunStyle::P => 2,
        RunStyle::S => 3,
        RunStyle::Unk => 4,
    }
}

/// The run style with the code `value`; an error exactly where there is
/// none.
pub fn run_style_from_i64(value: i64) -> (r: Result<RunStyle, CodeError>)
    ensures
        match r {
            Ok(style) => run_style_code(style) == value,
            Err(e) => e == CodeError::UnknownRunStyle(value) && !(0 <= value <= 4),
        },
{
    if value == 0 {
        Ok(RunStyle::E)
    } else if value == 1 {
        Ok(RunStyle::EP)
    } else if value == 2 {
        Ok(RunStyle::P)
    } else if value == 3 {
        Ok(RunStyle::S)
    } else if value == 4 {
        Ok(RunStyle::Unk)
    } else {
        Err(CodeError::UnknownRunStyle(value))
    }
}

/// Every code is read back as the value that it was written for.
pub proof fn lemma_codes_round_trip(mode: SurfaceMode, shape: Shape, style: RunStyle)
    ensures
        forall|other: SurfaceMode|
            surface_mode_code(other) == surface_mode_code(mode) ==> other == mode,
        forall|other: Shape| shape_code(other) == shape_code(shape) ==> other == shape,
        forall|other: RunStyle| run_style_code(other) == run_style_code(style) ==> other == style,
{
}

/// A stored integer as a count of 32 bits: the low 32 bits of it.
pub fn opt_i64_to_u32(value: Option<i64>) -> (r: Option<u32>)
    ensures
        r == match value {
            Some(v) => Some(v as u32),
            None => None,
        },
        value is Some && 0 <= value->0 <= u32::MAX ==> r is Some && r->0 == value->0,
{
    match value {
        Some(v) => Some(
            #[verifier::truncate]
            (v as u32),
        ),
        None => None,
    }
}

/// A stored integer as a signed number of 32 bits: the low 32 bits of it.
pub fn opt_i64_to_i32(value: Option<i64>) -> (r: Option<i32>)
    ensures
        r == match value {
            Some(v) => Some(v as i32),
            None => None,
        },
        value is Some && i32::MIN <= value->0 <= i32::MAX ==> r is Some && r->0 == value->0,
{
    match value {
        Some(v) => Some(
            #[verifier::truncate]
            (v as i32),
        ),
        None => None,
    }
}

/// A stored count as a count of 32 bits: an error where it is negative,
/// else the low 32 bits of it.
pub fn i64_to_u32(value: i64) -> (r: Result<u32, CodeError>)
    ensures
        match r {
            Ok(n) => value >= 0 && n == value as u32,
            Err(e) => value < 0 && e == CodeError::NegativeCount(value),
        },
        0 <= value <= u32::MAX ==> r is Ok && r->Ok_0 == value,
{
    if value < 0 {
        Err(CodeError::NegativeCount(value))
    } else {
        Ok(
            #[verifier::truncate]
            (value as u32),
        )
    }
}

/// Whether an analysis whose card is `analysis_racecard_id` may be stored
/// under the card `racecard_id`: only where the two are the same card.
pub fn check_card(racecard_id: i64, analysis_racecard_id: i64) -> (r: Result<(), CodeError>)
    ensures
        r is Ok <==> racecard_id == analysis_racecard_id,
        r is Err ==> r->Err_0 == (CodeError::CardMismatch {
            arg: racecard_id,
            analysis: analysis_racecard_id,
        }),
{
    if racecard_id != analysis_racecard_id {
        Err(CodeError::CardMismatch { arg: racecard_id, analysis: analysis_racecard_id })
    } else {
        Ok(())
    }
}

/// The placeholders of a statement with `count` values: `count` question
/// marks, with a comma and a space between each two.
pub open spec fn placeholders_spec(count: nat) -> Seq<char>
    decreases count,
{
    if count == 0 {
        Seq::empty()
    } else if count == 1 {
        seq!['?']
    } else {
        placeholders_spec((count - 1) as nat) + seq![',', ' ', '?']
    }
}

/// The placeholders of a statement with `count` values.
pub fn placeholders(count: usize) -> (text: String)
    ensures
        text@ == placeholders_spec(count as nat),
{
    let mut text = String::new();
    let mut i: usize = 0;
    proof {
        reveal_strlit("?");
        reveal_strlit(", ?");
        assert("?"@ =~= seq!['?']);
        assert(", ?"@ =~= seq![',', ' ', '?']);
    }
    while i < count
        invariant
            i <= count,
            text@ == placeholders_spec(i as nat),
            "?"@ == seq!['?'],
            ", ?"@ == seq![',', ' ', '?'],
        decreases count - i,
    {
        if i == 0 {
            text.append("?");
            assert(text@ =~= seq!['?']);
        } else {
            text.append(", ?");
        }
        i += 1;
    }
    text
}

} // verus!
