//! The score of a horse: its representative figures against the pars of the
//! race, weighted by the projected shape, and the adjustments for form and
//! connections.

use vstd::prelude::*;
use vstd::arithmetic::div_mod::lemma_div_is_ordered;
use crate::decimal::{parse_number, parse_number_spec, DECIMAL_CAP};
use crate::figures::{
    furlongs_spec, get_pars_for_race, pars_spec, rep_figs_spec, representative_figures,
    yards_to_furlongs, Pars, RepFigs,
};
use crate::fixed::{clamp, clamp_spec, floor_div, MICRO};
use crate::racecard::{Horse, HorseView, Race, RaceView};
use crate::shape::Shape;
use crate::style::SurfaceMode;
use crate::text::{chars_of, trim, trim_spec};

verus! {

/// The weights, in hundredths, of the speed, early-pace and late-pace
/// margins under a shape.
pub open spec fn shape_weights(mode: SurfaceMode, shape: Shape) -> (int, int, int) {
    match mode {
        SurfaceMode::Dirt => match shape {
            Shape::Honest => (45, 30, 25),
            Shape::Slow => (45, 40, 15),
            Shape::Fast => (45, 25, 30),
            Shape::Meltdown => (40, 15, 45),
        },
        SurfaceMode::Turf => match shape {
            Shape::Honest => (40, 20, 40),
            Shape::Slow => (45, 25, 30),
            Shape::Fast => (40, 15, 45),
            Shape::Meltdown => (35, 10, 55),
        },
    }
}

/// The weighted sum of the margins by which the figures `speed`, `early`
/// and `late`, in millionths, stand above the pars.
pub open spec fn base_score_spec(
    mode: SurfaceMode,
    shape: Shape,
    speed: int,
    early: int,
    late: int,
    pars: Pars,
) -> int {
    let w = shape_weights(mode, shape);
    (w.0 * (speed - pars.speed * MICRO) + w.1 * (early - pars.early * MICRO) + w.2 * (late
        - pars.late * MICRO)) / 100
}

/// What the prime-power rating adds: a tenth of its margin over 100 on
/// dirt, a twelfth on turf; nothing where the rating is missing.
pub open spec fn prime_power_adj_spec(mode: SurfaceMode, rating: Option<i64>) -> int {
    match rating {
        Some(p) => match mode {
            SurfaceMode::Dirt => (p - 100 * MICRO) / 10,
            SurfaceMode::Turf => (p - 100 * MICRO) / 12,
        },
        None => 0,
    }
}

/// What a layoff costs: a sixtieth of a point for each day beyond sixty, at
/// most one and a half points.
pub open spec fn layoff_penalty_spec(days: Option<u32>) -> int {
    match days {
        Some(d) => if d > 60 {
            let raw = ((d - 60) * MICRO) / 60;
            if raw > 1_500_000 {
                1_500_000
            } else {
                raw
            }
        } else {
            0
        },
        None => 0,
    }
}

/// What the trainer-and-jockey return adds: a quarter of it, held to half
/// a point either way.
pub open spec fn connections_adj_spec(roi: Option<i64>) -> int {
    match roi {
        Some(t) => clamp_spec(t / 4, -500_000, 500_000),
        None => 0,
    }
}

/// What a turf-pedigree rating adds: a thirtieth of its margin over 100,
/// held between minus a half and four fifths of a point.
pub open spec fn pedigree_adj_spec(rating: Option<int>) -> int {
    match rating {
        Some(r) => clamp_spec((r - 100 * MICRO) / 30, -500_000, 800_000),
        None => 0,
    }
}

/// Whether a character is no `*`, as a value.
pub open spec fn not_star() -> spec_fn(char) -> bool {
    |c: char| c != '*'
}

/// The turf-pedigree rating that a text gives, in millionths: the number
/// left when every `*` is taken out and the white space at the ends is
/// trimmed; `None` where that is no number.
pub open spec fn turf_pedigree_spec(raw: Seq<char>) -> Option<int> {
    parse_number_spec(trim_spec(raw.filter(not_star())))
}

/// The sum of the adjustments of a horse: on dirt for prime power, layoff
/// and connections, on turf for prime power and turf pedigree.
pub open spec fn adjustments_spec(mode: SurfaceMode, h: HorseView) -> int {
    match mode {
        SurfaceMode::Dirt => prime_power_adj_spec(mode, h.bris_prime_power_rating)
            - layoff_penalty_spec(h.days_since_last_race) + connections_adj_spec(
            h.trainer_jockey_combo_roi_meet,
        ),
        SurfaceMode::Turf => prime_power_adj_spec(mode, h.bris_prime_power_rating)
            + pedigree_adj_spec(turf_pedigree_spec(h.bris_turf_pedigree_rating)),
    }
}

/// The empty set of figures.
pub open spec fn no_figs() -> RepFigs {
    RepFigs { rep_speed: None, rep_early: None, rep_late: None }
}

/// The score of a horse and its figures. Without pars there is no score
/// and no figure; with pars but without one of the three figures there is
/// no score.
pub open spec fn score_spec(h: HorseView, race: RaceView, shape: Shape, mode: SurfaceMode) -> (
    Option<i64>,
    RepFigs,
) {
    match pars_spec(race, furlongs_spec(race.distance)) {
        None => (None, no_figs()),
        Some(pars) => {
            let rep = rep_figs_spec(h, race, mode);
            if rep.rep_speed is Some && rep.rep_early is Some && rep.rep_late is Some {
                (
                    Some(
                        (base_score_spec(
                            mode,
                            shape,
                            rep.rep_speed->0 as int,
                            rep.rep_early->0 as int,
                            rep.rep_late->0 as int,
                            pars,
                        ) + adjustments_spec(mode, h)) as i64,
                    ),
                    rep,
                )
            } else {
                (None, rep)
            }
        },
    }
}

/// The weighted sum of the margins by which the figures stand above the
/// pars, in millionths.
pub fn base_score(
    mode: SurfaceMode,
    shape: Shape,
    speed: i64,
    early: i64,
    late: i64,
    pars: Pars,
) -> (score: i64)
    requires
        0 <= speed <= u32::MAX * MICRO,
        0 <= early <= u32::MAX * MICRO,
        0 <= late <= u32::MAX * MICRO,
    ensures
        score == base_score_spec(mode, shape, speed as int, early as int, late as int, pars),
        -(u32::MAX * MICRO) <= score <= u32::MAX * MICRO,
{
    let (ws, we, wl): (i128, i128, i128) = match mode {
        SurfaceMode::Dirt => match shape {
            Shape::Honest => (45, 30, 25),
            Shape::Slow => (45, 40, 15),
            Shape::Fast => (45, 25, 30),
            Shape::Meltdown => (40, 15, 45),
        },
        SurfaceMode::Turf => match shape {
            Shape::Honest => (40, 20, 40),
            Shape::Slow => (45, 25, 30),
            Shape::Fast => (40, 15, 45),
            Shape::Meltdown => (35, 10, 55),
        },
    };
    let x: i128 = 4_294_967_295_000_000;
    let ds: i128 = speed as i128 - (pars.speed as i128) * 1_000_000;
    let de: i128 = early as i128 - (pars.early as i128) * 1_000_000;
    let dl: i128 = late as i128 - (pars.late as i128) * 1_000_000;
    assert(-x * ws <= ws * ds <= x * ws && -x * we <= we * de <= x * we && -x * wl <= wl * dl <= x
        * wl && x * ws + x * we + x * wl == 100 * x) by (nonlinear_arith)
        requires
            -x <= ds <= x,
            -x <= de <= x,
            -x <= dl <= x,
            ws >= 0,
            we >= 0,
            wl >= 0,
            ws + we + wl == 100,
    ;
    let total: i128 = ws * ds + we * de + wl * dl;
    let q = floor_div(total, 100);
    assert(-x <= q <= x) by (nonlinear_arith)
        requires
            q == total as int / 100,
            -100 * x <= total <= 100 * x,
    ;
    q as i64
}

/// What the prime-power rating `rating`, in millionths, adds to a score.
pub fn prime_power_adjustment(mode: SurfaceMode, rating: Option<i64>) -> (adj: i64)
    ensures
        adj == prime_power_adj_spec(mode, rating),
        -922_337_203_695_477_581 <= adj <= 922_337_203_675_477_581,
{
    match rating {
        Some(p) => {
            let by: i128 = match mode {
                SurfaceMode::Dirt => 10,
                SurfaceMode::Turf => 12,
            };
            let margin: i128 = p as i128 - 100_000_000;
            let q = floor_div(margin, by);
            assert(-922_337_203_695_477_581 <= q <= 922_337_203_675_477_581) by (nonlinear_arith)
                requires
                    q == margin as int / by as int,
                    by == 10 || by == 12,
                    -9_223_372_036_954_775_808 <= margin <= 9_223_372_036_754_775_807,
            ;
            q as i64
        },
        None => 0,
    }
}

/// What a layoff of `days` days costs, in millionths.
pub fn layoff_penalty(days: Option<u32>) -> (penalty: i64)
    ensures
        penalty == layoff_penalty_spec(days),
        0 <= penalty <= 1_500_000,
{
    match days {
        Some(d) => if d > 60 {
            let raw: u64 = ((d - 60) as u64) * 1_000_000 / 60;
            if raw > 1_500_000 {
                1_500_000
            } else {
                raw as i64
            }
        } else {
            0
        },
        None => 0,
    }
}

/// What the trainer-and-jockey return `roi`, in millionths, adds to a
/// score.
pub fn connections_adjustment(roi: Option<i64>) -> (adj: i64)
    ensures
        adj == connections_adj_spec(roi),
        -500_000 <= adj <= 500_000,
{
    match roi {
        Some(t) => clamp(floor_div(t as i128, 4), -500_000, 500_000) as i64,
        None => 0,
    }
}

/// What the turf-pedigree rating `rating`, in millionths, adds to a score.
pub fn pedigree_adjustment(rating: Option<i64>) -> (adj: i64)
    ensures
        adj == pedigree_adj_spec(
            match rating {
                Some(r) => Some(r as int),
                None => None,
            },
        ),
        -500_000 <= adj <= 800_000,
{
    match rating {
        Some(r) => clamp(floor_div(r as i128 - 100_000_000, 30), -500_000, 800_000) as i64,
        None => 0,
    }
}

/// `s` without its `*` characters.
pub fn without_stars(s: &Vec<char>) -> (r: Vec<char>)
    ensures
        r@ == s@.filter(not_star()),
{
    let mut r: Vec<char> = Vec::new();
    let mut i: usize = 0;
    proof {
        assert(s@.take(0) =~= Seq::<char>::empty());
        reveal_with_fuel(Seq::filter, 1);
    }
    while i < s.len()
        invariant
            i <= s@.len(),
            r@ == s@.take(i as int).filter(not_star()),
        decreases s@.len() - i,
    {
        let c = s[i];
        proof {
            assert(s@.take(i + 1) =~= s@.take(i as int).push(c));
            s@.take(i as int).lemma_filter_push(c, not_star());
        }
        if c != '*' {
            r.push(c);
        }
        i += 1;
    }
    proof {
        assert(s@.take(s@.len() as int) =~= s@);
    }
    r
}

/// The turf-pedigree rating that `raw` gives, in millionths, held to the
/// range from `-DECIMAL_CAP` to `DECIMAL_CAP`; `None` exactly where `raw`
/// gives none.
pub fn parse_turf_pedigree(raw: &str) -> (rating: Option<i64>)
    ensures
        rating is Some <==> turf_pedigree_spec(raw@) is Some,
        rating is Some ==> rating->0 == clamp_spec(
            turf_pedigree_spec(raw@)->0,
            -(DECIMAL_CAP as int),
            DECIMAL_CAP as int,
        ),
{
    let chars = chars_of(raw);
    let bare = without_stars(&chars);
    let trimmed = trim(&bare);
    parse_number(&trimmed)
}

/// A rating beyond the cap adds what the cap adds.
proof fn lemma_pedigree_cap(r: int)
    ensures
        pedigree_adj_spec(Some(clamp_spec(r, -(DECIMAL_CAP as int), DECIMAL_CAP as int)))
            == pedigree_adj_spec(Some(r)),
{
    let cap = DECIMAL_CAP as int;
    if r > cap {
        lemma_div_is_ordered(cap - 100 * MICRO, r - 100 * MICRO, 30);
    } else if r < -cap {
        lemma_div_is_ordered(r - 100 * MICRO, -cap - 100 * MICRO, 30);
    }
}

/// The sum of the adjustments of `h` on the surface of `mode`, in
/// millionths.
pub fn adjustments(mode: SurfaceMode, h: &Horse) -> (adj: i64)
    ensures
        adj == adjustments_spec(mode, h@),
        -922_337_203_697_477_581 <= adj <= 922_337_203_676_277_581,
{
    let power = prime_power_adjustment(mode, h.bris_prime_power_rating);
    match mode {
        SurfaceMode::Dirt => {
            let layoff = layoff_penalty(h.days_since_last_race);
            let connections = connections_adjustment(h.trainer_jockey_combo_roi_meet);
            power - layoff + connections
        },
        SurfaceMode::Turf => {
            let rating = parse_turf_pedigree(h.bris_turf_pedigree_rating.as_str());
            proof {
                if rating is Some {
                    lemma_pedigree_cap(turf_pedigree_spec(h@.bris_turf_pedigree_rating)->0);
                }
            }
            power + pedigree_adjustment(rating)
        },
    }
}

/// The score of `h` in `race` under `shape`, in millionths, and the figures
/// it rests on, by the rules of the surface of `mode`.
pub fn score_horse(h: &Horse, race: &Race, shape: Shape, mode: SurfaceMode) -> (r: (
    Option<i64>,
    RepFigs,
))
    ensures
        r == score_spec(h@, race@, shape, mode),
        r.0 is Some <==> pars_spec(race@, furlongs_spec(race@.distance)) is Some
            && r.1.rep_speed is Some && r.1.rep_early is Some && r.1.rep_late is Some,
{
    let dist_f = yards_to_furlongs(race.distance);
    let pars = match get_pars_for_race(race, dist_f) {
        Some(p) => p,
        None => {
            return (None, RepFigs { rep_speed: None, rep_early: None, rep_late: None });
        },
    };
    let rep = representative_figures(h, race, mode);
    match (rep.rep_speed, rep.rep_early, rep.rep_late) {
        (Some(speed), Some(early), Some(late)) => {
            let base = base_score(mode, shape, speed, early, late, pars);
            let adj = adjustments(mode, h);
            (Some(base + adj), rep)
        },
        _ => (None, rep),
    }
}

/// The score of `h` in `race` under `shape` and the figures it rests on, by
/// the dirt rules.
pub fn score_horse_dirt(h: &Horse, race: &Race, shape: Shape) -> (r: (Option<i64>, RepFigs))
    ensures
        r == score_spec(h@, race@, shape, SurfaceMode::Dirt),
{
    score_horse(h, race, shape, SurfaceMode::Dirt)
}

/// The score of `h` in `race` under `shape` and the figures it rests on, by
/// the turf rules.
pub fn score_horse_turf(h: &Horse, race: &Race, shape: Shape) -> (r: (Option<i64>, RepFigs))
    ensures
        r == score_spec(h@, race@, shape, SurfaceMode::Turf),
{
    score_horse(h, race, shape, SurfaceMode::Turf)
}

} // verus!
