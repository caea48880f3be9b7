//! The projected pace shape of a race: how many of the field press the
//! pace, how the field's early figures stand against par, and the pressure
//! index and shape that follow from the two.
//!
//! The margin against par is a number of millionths: the mean, rounded
//! down, of figures that are numbers of millionths themselves. From the
//! pace heat, the field and that margin the index is an exact fraction. The
//! index that is handed out is that fraction in millionths, rounded so that
//! it lies on the same side of every mark as the fraction itself: down, but
//! for a fraction less than a millionth above the slow mark, which is
//! rounded up. The shape is read off the index that is handed out, and is
//! the shape of the fraction.

use vstd::prelude::*;
use crate::figures::{
    furlongs_spec, get_pars_for_race, pars_spec, rep_figs_spec, representative_figures,
    yards_to_furlongs,
};
use vstd::arithmetic::div_mod::lemma_fundamental_div_mod;
use crate::fixed::{clamp, clamp_spec, floor_div, MICRO};
use crate::racecard::{Horse, HorseView, Race, RaceView};
use crate::style::{parse_run_style, run_style_spec, RunStyle, SurfaceMode};

verus! {

/// How the early part of a race is expected to unfold.
#[derive(Debug, Clone, Copy, PartialEq, Eq, Structural)]
pub enum Shape {
    Slow,
    Honest,
    Fast,
    Meltdown,
}

/// Whether a horse counts as pressing the pace. On dirt: run style `E`, or
/// six quirin points or more. On turf: run style `E`, or `EP` with five
/// points or more, or seven points or more. Missing points count as zero.
pub open spec fn presses_pace_spec(mode: SurfaceMode, h: HorseView) -> bool {
    let style = run_style_spec(h.bris_run_style);
    let q: int = match h.quirin_speed_points {
        Some(q) => q as int,
        None => 0,
    };
    match mode {
        SurfaceMode::Dirt => style == RunStyle::E || q >= 6,
        SurfaceMode::Turf => style == RunStyle::E || (style == RunStyle::EP && q >= 5) || q >= 7,
    }
}

/// `presses_pace_spec` on the surface of `mode`, as a value.
pub open spec fn presser_pred(mode: SurfaceMode) -> spec_fn(HorseView) -> bool {
    |h: HorseView| presses_pace_spec(mode, h)
}

/// The number of horses of the field that press the pace.
pub open spec fn pace_heat_spec(mode: SurfaceMode, horses: Seq<HorseView>) -> nat {
    horses.filter(presser_pred(mode)).len()
}

/// The size of the field, counted as one where the race has no entrant.
pub open spec fn field_size_spec(race: RaceView) -> int {
    if race.horses.len() == 0 {
        1
    } else {
        race.horses.len() as int
    }
}

/// The sum of the early figures of the first `n` horses that have one.
pub open spec fn early_sum(race: RaceView, mode: SurfaceMode, n: int) -> int
    decreases n,
{
    if n <= 0 {
        0
    } else {
        early_sum(race, mode, n - 1) + match rep_figs_spec(
            race.horses[n - 1],
            race,
            mode,
        ).rep_early {
            Some(e) => e as int,
            None => 0,
        }
    }
}

/// How many of the first `n` horses have an early figure.
pub open spec fn early_count(race: RaceView, mode: SurfaceMode, n: int) -> int
    decreases n,
{
    if n <= 0 {
        0
    } else {
        early_count(race, mode, n - 1) + match rep_figs_spec(
            race.horses[n - 1],
            race,
            mode,
        ).rep_early {
            Some(_) => 1int,
            None => 0int,
        }
    }
}

/// The mean early figure of the horses that have one, rounded down to
/// millionths, less the early-pace par of the race; zero where the race
/// has no pars or no horse has an early figure.
pub open spec fn early_vs_par_spec(race: RaceView, mode: SurfaceMode) -> int {
    let n = race.horses.len() as int;
    match pars_spec(race, furlongs_spec(race.distance)) {
        Some(p) => if early_count(race, mode, n) > 0 {
            early_sum(race, mode, n) / early_count(race, mode, n) - p.early * MICRO
        } else {
            0
        },
        None => 0,
    }
}

/// The weight of the pace-heat share in the pressure index, in hundredths.
pub open spec fn heat_weight(mode: SurfaceMode) -> int {
    match mode {
        SurfaceMode::Dirt => 70,
        SurfaceMode::Turf => 60,
    }
}

/// What is added to the early-versus-par margin before it is scaled, in
/// whole points.
pub open spec fn par_shift(mode: SurfaceMode) -> int {
    match mode {
        SurfaceMode::Dirt => 6,
        SurfaceMode::Turf => 4,
    }
}

/// The width of the window that the shifted margin is scaled by, in whole
/// points.
pub open spec fn par_span(mode: SurfaceMode) -> int {
    match mode {
        SurfaceMode::Dirt => 12,
        SurfaceMode::Turf => 10,
    }
}

/// The early-versus-par margin, shifted and held to the window: the
/// numerator of `clamp((margin + shift) / span, 0, 1)` over `span`.
pub open spec fn par_pressure_spec(mode: SurfaceMode, early_vs_par: int) -> int {
    clamp_spec(early_vs_par + par_shift(mode) * MICRO, 0, par_span(mode) * MICRO)
}

/// The pace pressure index before rounding, as a fraction in millionths:
/// `w * heat / field + (1 - w) * clamp((margin + shift) / span, 0, 1)`,
/// with `w` 0.70 on dirt and 0.60 on turf, over the common denominator
/// `100 * field * span`.
pub open spec fn index_numerator(
    mode: SurfaceMode,
    heat: int,
    field: int,
    early_vs_par: int,
) -> int {
    heat_weight(mode) * heat * MICRO * par_span(mode) + (100 - heat_weight(mode))
        * par_pressure_spec(mode, early_vs_par) * field
}

/// The denominator that goes with `index_numerator`.
pub open spec fn index_denominator(mode: SurfaceMode, field: int) -> int {
    100 * field * par_span(mode)
}

/// The mark from which a race is a meltdown, in millionths.
pub open spec fn meltdown_mark(mode: SurfaceMode) -> int {
    match mode {
        SurfaceMode::Dirt => 880_000,
        SurfaceMode::Turf => 820_000,
    }
}

/// The mark from which a race is fast, in millionths.
pub open spec fn fast_mark(mode: SurfaceMode) -> int {
    match mode {
        SurfaceMode::Dirt => 750_000,
        SurfaceMode::Turf => 680_000,
    }
}

/// The mark up to which a race is slow, in millionths.
pub open spec fn slow_mark(mode: SurfaceMode) -> int {
    match mode {
        SurfaceMode::Dirt => 250_000,
        SurfaceMode::Turf => 220_000,
    }
}

/// A fraction of millionths as a whole number of millionths that lies on
/// the same side of every mark: rounded down, but rounded up where the
/// fraction lies above the slow mark by less than a millionth.
pub open spec fn rounded_index(mode: SurfaceMode, numerator: int, denominator: int) -> int {
    let floor = numerator / denominator;
    if floor == slow_mark(mode) && numerator % denominator != 0 {
        floor + 1
    } else {
        floor
    }
}

/// The pace pressure index that is handed out: the index in whole
/// millionths, held between zero and one.
pub open spec fn epi_spec(mode: SurfaceMode, heat: int, field: int, early_vs_par: int) -> int {
    clamp_spec(
        rounded_index(
            mode,
            index_numerator(mode, heat, field, early_vs_par),
            index_denominator(mode, field),
        ),
        0,
        MICRO as int,
    )
}

/// The shape that the pressure index `numerator / denominator`, in
/// millionths, stands for. On dirt: from 0.88 a meltdown, from 0.75 fast,
/// up to 0.25 slow, else honest. On turf the marks are 0.82, 0.68 and
/// 0.22.
pub open spec fn shape_of_index(mode: SurfaceMode, numerator: int, denominator: int) -> Shape {
    if numerator >= meltdown_mark(mode) * denominator {
        Shape::Meltdown
    } else if numerator >= fast_mark(mode) * denominator {
        Shape::Fast
    } else if numerator <= slow_mark(mode) * denominator {
        Shape::Slow
    } else {
        Shape::Honest
    }
}

/// The shape that a pressure index of a whole number of millionths stands
/// for.
pub open spec fn shape_of_epi(mode: SurfaceMode, epi: int) -> Shape {
    shape_of_index(mode, epi, 1)
}

/// The shape that `heat` pressers in a field of `field` and a margin of
/// `early_vs_par` millionths project: the shape of the index before it is
/// brought to whole millionths.
pub open spec fn projected_shape_spec(
    mode: SurfaceMode,
    heat: int,
    field: int,
    early_vs_par: int,
) -> Shape {
    shape_of_index(
        mode,
        index_numerator(mode, heat, field, early_vs_par),
        index_denominator(mode, field),
    )
}

/// The pressure index of a race scored on the surface of `mode`.
pub open spec fn race_epi_spec(race: RaceView, mode: SurfaceMode) -> int {
    epi_spec(
        mode,
        pace_heat_spec(mode, race.horses) as int,
        field_size_spec(race),
        early_vs_par_spec(race, mode),
    )
}

/// The shape, the pace heat and the pressure index of a race scored on the
/// surface of `mode`.
pub open spec fn race_shape_spec(race: RaceView, mode: SurfaceMode) -> (Shape, u32, i64) {
    let epi = race_epi_spec(race, mode);
    (shape_of_epi(mode, epi), pace_heat_spec(mode, race.horses) as u32, epi as i64)
}

/// The shape that a pressure index of `epi` millionths stands for on the
/// surface of `mode`.
pub fn classify_shape(mode: SurfaceMode, epi: i64) -> (shape: Shape)
    ensures
        shape == shape_of_epi(mode, epi as int),
{
    match mode {
        SurfaceMode::Dirt => if epi >= 880_000 {
            Shape::Meltdown
        } else if epi >= 750_000 {
            Shape::Fast
        } else if epi <= 250_000 {
            Shape::Slow
        } else {
            Shape::Honest
        },
        SurfaceMode::Turf => if epi >= 820_000 {
            Shape::Meltdown
        } else if epi >= 680_000 {
            Shape::Fast
        } else if epi <= 220_000 {
            Shape::Slow
        } else {
            Shape::Honest
        },
    }
}

/// Whether the horse `h` counts as pressing the pace on the surface of
/// `mode`.
pub fn presses_pace(mode: SurfaceMode, h: &Horse) -> (r: bool)
    ensures
        r == presses_pace_spec(mode, h@),
{
    let style = parse_run_style(h.bris_run_style.as_str());
    let q: u32 = match h.quirin_speed_points {
        Some(q) => q,
        None => 0,
    };
    match mode {
        SurfaceMode::Dirt => style == RunStyle::E || q >= 6,
        SurfaceMode::Turf => style == RunStyle::E || (style == RunStyle::EP && q >= 5) || q >= 7,
    }
}

/// The numerator and the denominator of the pressure index before
/// rounding.
fn index_parts(mode: SurfaceMode, heat: u32, field: u32, early_vs_par: i64) -> (r: (i128, i128))
    requires
        field >= 1,
    ensures
        r.0 == index_numerator(mode, heat as int, field as int, early_vs_par as int),
        r.1 == index_denominator(mode, field as int),
        0 <= r.0 <= 6_000_000_000_000_000_000,
        0 < r.1 <= 6_000_000_000_000,
{
    let hw: i128 = match mode {
        SurfaceMode::Dirt => 70,
        SurfaceMode::Turf => 60,
    };
    let shift: i128 = match mode {
        SurfaceMode::Dirt => 6_000_000,
        SurfaceMode::Turf => 4_000_000,
    };
    let span: i128 = match mode {
        SurfaceMode::Dirt => 12,
        SurfaceMode::Turf => 10,
    };
    let pressure = clamp(early_vs_par as i128 + shift, 0, span * 1_000_000);
    let f: i128 = field as i128;
    assert(0 <= hw * heat <= 70 * 0xffff_ffff) by (nonlinear_arith)
        requires
            60 <= hw <= 70,
            0 <= heat <= 0xffff_ffff,
    ;
    let a: i128 = hw * (heat as i128) * 1_000_000;
    assert(0 <= a * span <= 70 * 0xffff_ffff * 1_000_000 * 12) by (nonlinear_arith)
        requires
            0 <= a <= 70 * 0xffff_ffff * 1_000_000,
            10 <= span <= 12,
    ;
    let scaled: i128 = a * span;
    assert(0 <= (100 - hw) * pressure <= 40 * 12_000_000) by (nonlinear_arith)
        requires
            60 <= hw <= 70,
            0 <= pressure <= 12_000_000,
    ;
    let b: i128 = (100 - hw) * pressure;
    assert(0 <= b * f <= 40 * 12_000_000 * 0xffff_ffff) by (nonlinear_arith)
        requires
            0 <= b <= 40 * 12_000_000,
            1 <= f <= 0xffff_ffff,
    ;
    let bf: i128 = b * f;
    assert(0 < 100 * f * span <= 100 * 0xffff_ffff * 12) by (nonlinear_arith)
        requires
            1 <= f <= 0xffff_ffff,
            10 <= span <= 12,
    ;
    (scaled + bf, 100 * f * span)
}

/// The pressure index for `heat` pressers in a field of `field`, with the
/// field's early figures `early_vs_par` millionths above par.
pub fn pressure_index(mode: SurfaceMode, heat: u32, field: u32, early_vs_par: i64) -> (epi: i64)
    requires
        field >= 1,
    ensures
        epi == epi_spec(mode, heat as int, field as int, early_vs_par as int),
        0 <= epi <= MICRO,
{
    let (numerator, denominator) = index_parts(mode, heat, field, early_vs_par);
    let slow: i128 = match mode {
        SurfaceMode::Dirt => 250_000,
        SurfaceMode::Turf => 220_000,
    };
    let floor = floor_div(numerator, denominator);
    let rounded = if floor == slow && numerator % denominator != 0 {
        floor + 1
    } else {
        floor
    };
    clamp(rounded, 0, 1_000_000) as i64
}

/// The shape, the pace heat and the pressure index of `race`, scored on the
/// surface of `mode`. The pace heat never exceeds the size of the field, and
/// the index lies between zero and one.
pub fn race_shape(race: &Race, mode: SurfaceMode) -> (r: (Shape, u32, i64))
    requires
        race.horses@.len() <= u32::MAX,
    ensures
        r == race_shape_spec(race@, mode),
        r.0 == shape_of_epi(mode, r.2 as int),
        r.1 == pace_heat_spec(mode, race@.horses),
        r.1 <= field_size_spec(race@),
        0 <= r.2 <= MICRO,
{
    let dist_f = yards_to_furlongs(race.distance);
    let pars = get_pars_for_race(race, dist_f);
    let n: usize = race.horses.len();
    let mut heat: u32 = 0;
    let mut sum: i128 = 0;
    let mut count: u32 = 0;
    let mut i: usize = 0;
    proof {
        assert(race@.horses.take(0) =~= Seq::<HorseView>::empty());
        reveal_with_fuel(Seq::filter, 1);
    }
    while i < n
        invariant
            n == race.horses@.len(),
            n <= u32::MAX,
            i <= n,
            heat == pace_heat_spec(mode, race@.horses.take(i as int)),
            heat <= i,
            count == early_count(race@, mode, i as int),
            count <= i,
            sum == early_sum(race@, mode, i as int),
            0 <= sum <= count * (u32::MAX * MICRO),
        decreases n - i,
    {
        let h = &race.horses[i];
        proof {
            assert(race@.horses[i as int] == h@);
            assert(race@.horses.take(i + 1) =~= race@.horses.take(i as int).push(h@));
            race@.horses.take(i as int).lemma_filter_push(h@, presser_pred(mode));
        }
        if presses_pace(mode, h) {
            heat += 1;
        }
        let rep = representative_figures(h, race, mode);
        match rep.rep_early {
            Some(e) => {
                assert((count + 1) * (u32::MAX * MICRO) == count * (u32::MAX * MICRO) + u32::MAX
                    * MICRO) by (nonlinear_arith);
                assert(count * (u32::MAX * MICRO) <= 0xffff_ffff * (u32::MAX * MICRO))
                    by (nonlinear_arith)
                    requires
                        count <= 0xffff_ffff,
                ;
                sum = sum + e as i128;
                count += 1;
            },
            None => {},
        }
        i += 1;
    }
    proof {
        assert(race@.horses.take(n as int) =~= race@.horses);
    }
    let early_vs_par: i64 = match pars {
        Some(p) => if count > 0 {
            let q = floor_div(sum, count as i128);
            assert(0 <= q <= u32::MAX * MICRO) by (nonlinear_arith)
                requires
                    q == sum as int / count as int,
                    count > 0,
                    0 <= sum <= count * (u32::MAX * MICRO),
            ;
            assert(p.early * MICRO <= u32::MAX * MICRO) by (nonlinear_arith)
                requires
                    p.early <= u32::MAX,
                    MICRO == 1_000_000,
            ;
            q as i64 - (p.early as i64) * 1_000_000
        } else {
            0
        },
        None => 0,
    };
    let field: u32 = if n == 0 {
        1
    } else {
        n as u32
    };
    let epi = pressure_index(mode, heat, field, early_vs_par);
    (classify_shape(mode, epi), heat, epi)
}

/// The shape, the pace heat and the pressure index of `race` under the dirt
/// rules.
pub fn race_shape_dirt(race: &Race) -> (r: (Shape, u32, i64))
    requires
        race.horses@.len() <= u32::MAX,
    ensures
        r == race_shape_spec(race@, SurfaceMode::Dirt),
        r.0 == shape_of_epi(SurfaceMode::Dirt, r.2 as int),
        r.1 == pace_heat_spec(SurfaceMode::Dirt, race@.horses),
        r.1 <= field_size_spec(race@),
        0 <= r.2 <= MICRO,
{
    race_shape(race, SurfaceMode::Dirt)
}

/// The shape, the pace heat and the pressure index of `race` under the turf
/// rules.
pub fn race_shape_turf(race: &Race) -> (r: (Shape, u32, i64))
    requires
        race.horses@.len() <= u32::MAX,
    ensures
        r == race_shape_spec(race@, SurfaceMode::Turf),
        r.0 == shape_of_epi(SurfaceMode::Turf, r.2 as int),
        r.1 == pace_heat_spec(SurfaceMode::Turf, race@.horses),
        r.1 <= field_size_spec(race@),
        0 <= r.2 <= MICRO,
{
    race_shape(race, SurfaceMode::Turf)
}

/// Of every race: the pace heat is at most the size of the field, and the
/// pressure index lies between zero and one.
pub proof fn lemma_shape_bounds(race: RaceView, mode: SurfaceMode)
    ensures
        pace_heat_spec(mode, race.horses) <= field_size_spec(race),
        0 <= race_epi_spec(race, mode) <= MICRO,
{
    race.horses.lemma_filter_len(presser_pred(mode));
}

/// The index before rounding is not below zero, and its denominator is
/// above zero.
proof fn lemma_index_parts(mode: SurfaceMode, heat: int, field: int, early_vs_par: int)
    requires
        0 <= heat,
        1 <= field,
    ensures
        0 <= index_numerator(mode, heat, field, early_vs_par),
        0 < index_denominator(mode, field),
{
    let hw = heat_weight(mode);
    let span = par_span(mode);
    let pressure = par_pressure_spec(mode, early_vs_par);
    assert(0 <= hw * heat * MICRO * span) by (nonlinear_arith)
        requires
            0 <= hw,
            0 <= heat,
            0 <= span,
            MICRO == 1_000_000,
    ;
    assert(0 <= (100 - hw) * pressure * field) by (nonlinear_arith)
        requires
            0 <= 100 - hw,
            0 <= pressure,
            0 <= field,
    ;
    assert(0 < 100 * field * span) by (nonlinear_arith)
        requires
            1 <= field,
            1 <= span,
    ;
}

/// The index that is handed out lies on the same side of every mark as the
/// index before it is brought to whole millionths: the shape read off the
/// one is the shape of the other.
pub proof fn lemma_index_keeps_its_side(
    mode: SurfaceMode,
    heat: int,
    field: int,
    early_vs_par: int,
)
    requires
        0 <= heat,
        1 <= field,
    ensures
        shape_of_epi(mode, epi_spec(mode, heat, field, early_vs_par)) == projected_shape_spec(
            mode,
            heat,
            field,
            early_vs_par,
        ),
{
    let n = index_numerator(mode, heat, field, early_vs_par);
    let d = index_denominator(mode, field);
    lemma_index_parts(mode, heat, field, early_vs_par);
    lemma_fundamental_div_mod(n, d);
    lemma_mark_and_quotient(n, d, meltdown_mark(mode));
    lemma_mark_and_quotient(n, d, fast_mark(mode));
    lemma_mark_and_quotient(n, d, slow_mark(mode));
    lemma_mark_and_quotient(n, d, 0);
    lemma_mark_and_quotient(n, d, MICRO as int);
}

/// A fraction is at least a whole number exactly where its quotient is,
/// and at most that number exactly where its quotient is below it, or on
/// it with nothing left over.
proof fn lemma_mark_and_quotient(n: int, d: int, mark: int)
    requires
        0 < d,
    ensures
        n >= mark * d <==> n / d >= mark,
        n <= mark * d <==> (n / d < mark || (n / d == mark && n % d == 0)),
{
    lemma_fundamental_div_mod(n, d);
    let q = n / d;
    let r = n % d;
    assert(n >= mark * d <==> q >= mark) by (nonlinear_arith)
        requires
            n == d * q + r,
            0 <= r < d,
            0 < d,
    ;
    assert(n <= mark * d <==> (q < mark || (q == mark && r == 0))) by (nonlinear_arith)
        requires
            n == d * q + r,
            0 <= r < d,
            0 < d,
    ;
}

/// The shape of a race is decided by the pressure index that is handed out
/// for it and the surface alone, and it is the shape of the index before
/// it is brought to whole millionths.
pub proof fn lemma_shape_follows_epi(race: RaceView, mode: SurfaceMode)
    ensures
        race_shape_spec(race, mode).0 == shape_of_epi(mode, race_shape_spec(race, mode).2 as int),
        race_shape_spec(race, mode).0 == projected_shape_spec(
            mode,
            pace_heat_spec(mode, race.horses) as int,
            field_size_spec(race),
            early_vs_par_spec(race, mode),
        ),
{
    lemma_shape_bounds(race, mode);
    lemma_index_keeps_its_side(
        mode,
        pace_heat_spec(mode, race.horses) as int,
        field_size_spec(race),
        early_vs_par_spec(race, mode),
    );
}

/// Classifying a race twice gives the same shape, the same pace heat and
/// the same pressure index: they depend on the race and the surface alone.
pub proof fn lemma_shape_repeats(
    race: RaceView,
    mode: SurfaceMode,
    first: (Shape, u32, i64),
    second: (Shape, u32, i64),
)
    requires
        first == race_shape_spec(race, mode),
        second == race_shape_spec(race, mode),
    ensures
        first == second,
{
}

} // verus!
