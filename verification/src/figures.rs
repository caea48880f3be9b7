//! Representative figures: what a horse's recent starts say of its speed,
//! its early pace and its late pace, and the pars they are measured against.

use vstd::prelude::*;
use crate::fixed::{floor_div, MICRO};
use crate::racecard::{Horse, HorseView, PastPerformance, PastPerformanceView, Race, RaceView};
use crate::style::{surface_matches, surface_matches_spec, SurfaceMode};
use crate::text::{chars_of, trim, trim_spec};

verus! {

/// A horse's weighted-average figures, in millionths. A figure is `None`
/// where no start of the pool has a value for it.
#[derive(Debug, Clone, Copy, PartialEq, Eq)]
pub struct RepFigs {
    pub rep_speed: Option<i64>,
    pub rep_early: Option<i64>,
    pub rep_late: Option<i64>,
}

/// The pars of a race, in whole figure points.
#[derive(Debug, Clone, Copy, PartialEq, Eq)]
pub struct Pars {
    pub speed: u32,
    pub early: u32,
    pub late: u32,
}

/// The most starts that a pool holds.
pub const POOL_CAP: usize = 5;

/// A distance in furlongs, in millionths: a furlong is 220 yards, and a
/// missing distance counts as zero.
pub open spec fn furlongs_spec(yards: Option<i32>) -> int {
    match yards {
        Some(y) => (y * MICRO) / 220,
        None => 0,
    }
}

/// The weight, in hundredths, of the start at position `i` of a pool.
pub open spec fn weight_spec(i: int) -> int {
    if i == 0 {
        55
    } else if i == 1 {
        30
    } else if i == 2 {
        15
    } else if i == 3 {
        8
    } else if i == 4 {
        5
    } else {
        0
    }
}

/// The sum of value times weight over the first `n` positions that hold a
/// value.
pub open spec fn weighted_total(values: Seq<Option<u32>>, n: int) -> int
    decreases n,
{
    if n <= 0 {
        0
    } else {
        weighted_total(values, n - 1) + match values[n - 1] {
            Some(v) => v * weight_spec(n - 1),
            None => 0,
        }
    }
}

/// The sum of the weights of the first `n` positions that hold a value.
pub open spec fn weight_total(values: Seq<Option<u32>>, n: int) -> int
    decreases n,
{
    if n <= 0 {
        0
    } else {
        weight_total(values, n - 1) + match values[n - 1] {
            Some(_) => weight_spec(n - 1),
            None => 0,
        }
    }
}

/// How many positions of `values` take part in the average.
pub open spec fn weighted_len(values: Seq<Option<u32>>) -> int {
    if values.len() > POOL_CAP {
        POOL_CAP as int
    } else {
        values.len() as int
    }
}

/// The weighted average of the values present among the first five, in
/// millionths; `None` where none is present.
pub open spec fn weighted_avg_spec(values: Seq<Option<u32>>) -> Option<i64> {
    let n = weighted_len(values);
    let den = weight_total(values, n);
    if den > 0 {
        Some(((weighted_total(values, n) * MICRO) / den) as i64)
    } else {
        None
    }
}

/// Whether a past start carries a date.
pub open spec fn is_dated(pp: PastPerformanceView) -> bool {
    trim_spec(pp.race_date).len() > 0
}

/// `is_dated`, as a value.
pub open spec fn dated_pred() -> spec_fn(PastPerformanceView) -> bool {
    |pp: PastPerformanceView| is_dated(pp)
}

/// Whether a start was run on the surface of `mode`, as a value.
pub open spec fn surface_pred(mode: SurfaceMode) -> spec_fn(PastPerformanceView) -> bool {
    |pp: PastPerformanceView| surface_matches_spec(mode, pp.surface)
}

/// The dated starts, in their order.
pub open spec fn usable_starts(pps: Seq<PastPerformanceView>) -> Seq<PastPerformanceView> {
    pps.filter(dated_pred())
}

/// The dated starts on the surface of `mode`, in their order.
pub open spec fn same_surface_starts(
    pps: Seq<PastPerformanceView>,
    mode: SurfaceMode,
) -> Seq<PastPerformanceView> {
    usable_starts(pps).filter(surface_pred(mode))
}

/// The first five of `s`, or all of it where it is shorter.
pub open spec fn capped(s: Seq<PastPerformanceView>) -> Seq<PastPerformanceView> {
    if s.len() > POOL_CAP {
        s.take(POOL_CAP as int)
    } else {
        s
    }
}

/// The starts that a horse's figures are drawn from: the same-surface
/// starts where there are at least two, else all dated starts; of those the
/// first five.
pub open spec fn figure_pool(pps: Seq<PastPerformanceView>, mode: SurfaceMode) -> Seq<
    PastPerformanceView,
> {
    let same = same_surface_starts(pps, mode);
    if same.len() >= 2 {
        capped(same)
    } else {
        capped(usable_starts(pps))
    }
}

/// The early-pace figure of a start for a race of `dist_f` millionths of a
/// furlong. Up to five and a half furlongs the two-furlong figure, else the
/// four-furlong one; up to seven and a half the four-furlong figure, else
/// the two-furlong, else the six-furlong one; beyond that, and where the
/// distance is missing (zero), the six-furlong figure, else the four-furlong
/// one.
pub open spec fn early_fig_spec(pp: PastPerformanceView, dist_f: int) -> Option<u32> {
    if dist_f != 0 && dist_f <= 5_500_000 {
        if pp.bris_2f_pace is Some {
            pp.bris_2f_pace
        } else {
            pp.bris_4f_pace
        }
    } else if dist_f != 0 && dist_f <= 7_500_000 {
        if pp.bris_4f_pace is Some {
            pp.bris_4f_pace
        } else if pp.bris_2f_pace is Some {
            pp.bris_2f_pace
        } else {
            pp.bris_6f_pace
        }
    } else {
        if pp.bris_6f_pace is Some {
            pp.bris_6f_pace
        } else {
            pp.bris_4f_pace
        }
    }
}

/// The speed ratings of the starts of a pool, in their order.
pub open spec fn speed_values(pool: Seq<PastPerformanceView>) -> Seq<Option<u32>> {
    Seq::new(pool.len(), |i: int| pool[i].bris_speed_rating)
}

/// The early-pace figures of the starts of a pool, in their order.
pub open spec fn early_values(pool: Seq<PastPerformanceView>, dist_f: int) -> Seq<Option<u32>> {
    Seq::new(pool.len(), |i: int| early_fig_spec(pool[i], dist_f))
}

/// The late-pace figures of the starts of a pool, in their order.
pub open spec fn late_values(pool: Seq<PastPerformanceView>) -> Seq<Option<u32>> {
    Seq::new(pool.len(), |i: int| pool[i].bris_late_pace)
}

/// The representative figures of a horse for a race on the surface of
/// `mode`.
pub open spec fn rep_figs_spec(h: HorseView, race: RaceView, mode: SurfaceMode) -> RepFigs {
    let pool = figure_pool(h.past_performances, mode);
    let dist_f = furlongs_spec(race.distance);
    RepFigs {
        rep_speed: weighted_avg_spec(speed_values(pool)),
        rep_early: weighted_avg_spec(early_values(pool, dist_f)),
        rep_late: weighted_avg_spec(late_values(pool)),
    }
}

/// The early-pace par that a race of `dist_f` millionths of a furlong is
/// held to: the four-furlong par up to seven and a half furlongs, the
/// six-furlong par beyond.
pub open spec fn early_par_spec(race: RaceView, dist_f: int) -> Option<u32> {
    if dist_f <= 7_500_000 {
        race.four_f_bris_pace_par
    } else {
        race.six_f_bris_pace_par
    }
}

/// The pars of a race, where all three are on record.
pub open spec fn pars_spec(race: RaceView, dist_f: int) -> Option<Pars> {
    let early = early_par_spec(race, dist_f);
    if race.bris_speed_for_class is Some && early is Some && race.bris_late_pace_par is Some {
        Some(
            Pars {
                speed: race.bris_speed_for_class->0,
                early: early->0,
                late: race.bris_late_pace_par->0,
            },
        )
    } else {
        None
    }
}

/// A distance in yards as millionths of a furlong.
pub fn yards_to_furlongs(yards: Option<i32>) -> (f: i64)
    ensures
        f == furlongs_spec(yards),
        -9_761_289_309_091 <= f <= 9_761_289_304_545,
{
    match yards {
        Some(y) => {
            let scaled: i128 = (y as i128) * 1_000_000;
            let q = floor_div(scaled, 220);
            assert(-9_761_289_309_091 <= q <= 9_761_289_304_545) by (nonlinear_arith)
                requires
                    q == scaled as int / 220,
                    -2_147_483_648_000_000 <= scaled <= 2_147_483_647_000_000,
            ;
            q as i64
        },
        None => 0,
    }
}

/// The weight, in hundredths, of the start at position `i` of a pool.
pub fn weight_at(i: usize) -> (w: u64)
    ensures
        w == weight_spec(i as int),
{
    if i == 0 {
        55
    } else if i == 1 {
        30
    } else if i == 2 {
        15
    } else if i == 3 {
        8
    } else if i == 4 {
        5
    } else {
        0
    }
}

/// The weighted average of the values present among the first five of
/// `values`, in millionths; `None` exactly where none of them is present.
pub fn weighted_avg(values: &Vec<Option<u32>>) -> (avg: Option<i64>)
    ensures
        avg == weighted_avg_spec(values@),
        avg is Some <==> exists|i: int|
            0 <= i < weighted_len(values@) && (#[trigger] values@[i]) is Some,
        avg is Some ==> 0 <= avg->0 <= u32::MAX * MICRO,
{
    let n: usize = if values.len() > POOL_CAP {
        POOL_CAP
    } else {
        values.len()
    };
    let mut num: u64 = 0;
    let mut den: u64 = 0;
    let mut i: usize = 0;
    while i < n
        invariant
            n == weighted_len(values@),
            i <= n <= 5,
            n <= values@.len(),
            num == weighted_total(values@, i as int),
            den == weight_total(values@, i as int),
            den <= 55 * i,
            num <= u32::MAX * den,
            den > 0 <==> exists|j: int| 0 <= j < i && (#[trigger] values@[j]) is Some,
        decreases n - i,
    {
        let w = weight_at(i);
        match values[i] {
            Some(v) => {
                assert(v * w <= u32::MAX * w) by (nonlinear_arith)
                    requires
                        v <= u32::MAX,
                        0 <= w,
                ;
                num = num + (v as u64) * w;
                den = den + w;
            },
            None => {},
        }
        i += 1;
    }
    if den > 0 {
        let q: u128 = (num as u128) * 1_000_000 / (den as u128);
        assert(q <= u32::MAX * MICRO) by (nonlinear_arith)
            requires
                q == (num * 1_000_000) / (den as int),
                num <= u32::MAX * den,
                den > 0,
                MICRO == 1_000_000,
        ;
        Some(q as i64)
    } else {
        None
    }
}

/// Whether a past start carries a date.
pub fn has_date(pp: &PastPerformance) -> (r: bool)
    ensures
        r == is_dated(pp@),
{
    let chars = chars_of(pp.race_date.as_str());
    let trimmed = trim(&chars);
    trimmed.len() > 0
}

/// The early-pace figure of the start `pp` for a race of `dist_f` millionths
/// of a furlong.
pub fn pick_early_fig(pp: &PastPerformance, dist_f: i64) -> (fig: Option<u32>)
    ensures
        fig == early_fig_spec(pp@, dist_f as int),
{
    if dist_f != 0 && dist_f <= 5_500_000 {
        if pp.bris_2f_pace.is_some() {
            pp.bris_2f_pace
        } else {
            pp.bris_4f_pace
        }
    } else if dist_f != 0 && dist_f <= 7_500_000 {
        if pp.bris_4f_pace.is_some() {
            pp.bris_4f_pace
        } else if pp.bris_2f_pace.is_some() {
            pp.bris_2f_pace
        } else {
            pp.bris_6f_pace
        }
    } else {
        if pp.bris_6f_pace.is_some() {
            pp.bris_6f_pace
        } else {
            pp.bris_4f_pace
        }
    }
}

/// The views of a horse's starts.
pub open spec fn start_views(pps: Seq<PastPerformance>) -> Seq<PastPerformanceView> {
    pps.map_values(|p: PastPerformance| p@)
}

/// Whether `picks` names, in order, the places in `pps` of the starts of
/// `pool`.
pub open spec fn picks_pool(
    picks: Seq<usize>,
    pps: Seq<PastPerformance>,
    pool: Seq<PastPerformanceView>,
) -> bool {
    &&& picks.len() == pool.len()
    &&& forall|j: int|
        0 <= j < picks.len() ==> (#[trigger] picks[j]) < pps.len() && pps[picks[j] as int]@
            == pool[j]
}

/// The places in `pps` of the starts that the figures are drawn from.
pub fn figure_pool_picks(pps: &Vec<PastPerformance>, mode: SurfaceMode) -> (picks: Vec<usize>)
    ensures
        picks_pool(picks@, pps@, figure_pool(start_views(pps@), mode)),
        picks@.len() <= POOL_CAP,
{
    let ghost views = start_views(pps@);
    let mut usable: Vec<usize> = Vec::new();
    let mut same: Vec<usize> = Vec::new();
    let mut i: usize = 0;
    proof {
        assert(views.take(0) =~= Seq::<PastPerformanceView>::empty());
        reveal_with_fuel(Seq::filter, 1);
        assert(usable_starts(views.take(0)) =~= Seq::<PastPerformanceView>::empty());
        assert(same_surface_starts(views.take(0), mode) =~= Seq::<PastPerformanceView>::empty());
    }
    while i < pps.len()
        invariant
            views == start_views(pps@),
            i <= pps@.len(),
            picks_pool(usable@, pps@, capped(usable_starts(views.take(i as int)))),
            picks_pool(same@, pps@, capped(same_surface_starts(views.take(i as int), mode))),
        decreases pps@.len() - i,
    {
        let pp = &pps[i];
        let ghost before = views.take(i as int);
        let ghost u0 = usable_starts(before);
        let ghost s0 = same_surface_starts(before, mode);
        proof {
            assert(views.take(i + 1) =~= before.push(pp@));
            before.lemma_filter_push(pp@, dated_pred());
            u0.lemma_filter_push(pp@, surface_pred(mode));
        }
        if has_date(pp) {
            if usable.len() < POOL_CAP {
                usable.push(i);
            }
            if surface_matches(mode, pp.surface.as_str()) {
                if same.len() < POOL_CAP {
                    same.push(i);
                }
            }
        }
        i += 1;
    }
    proof {
        assert(views.take(pps@.len() as int) =~= views);
    }
    if same.len() >= 2 {
        same
    } else {
        usable
    }
}

/// The representative figures of the horse `h` for `race`, scored on the
/// surface of `mode`.
pub fn representative_figures(h: &Horse, race: &Race, mode: SurfaceMode) -> (rep: RepFigs)
    ensures
        rep == rep_figs_spec(h@, race@, mode),
        rep.rep_speed is Some ==> 0 <= rep.rep_speed->0 <= u32::MAX * MICRO,
        rep.rep_early is Some ==> 0 <= rep.rep_early->0 <= u32::MAX * MICRO,
        rep.rep_late is Some ==> 0 <= rep.rep_late->0 <= u32::MAX * MICRO,
{
    let dist_f = yards_to_furlongs(race.distance);
    let picks = figure_pool_picks(&h.past_performances, mode);
    let ghost pool = figure_pool(h@.past_performances, mode);
    let mut speeds: Vec<Option<u32>> = Vec::new();
    let mut earlies: Vec<Option<u32>> = Vec::new();
    let mut lates: Vec<Option<u32>> = Vec::new();
    let mut j: usize = 0;
    while j < picks.len()
        invariant
            j <= picks@.len(),
            picks_pool(picks@, h.past_performances@, pool),
            speeds@.len() == j,
            earlies@.len() == j,
            lates@.len() == j,
            forall|k: int| 0 <= k < j ==> speeds@[k] == pool[k].bris_speed_rating,
            forall|k: int| 0 <= k < j ==> earlies@[k] == early_fig_spec(pool[k], dist_f as int),
            forall|k: int| 0 <= k < j ==> lates@[k] == pool[k].bris_late_pace,
        decreases picks@.len() - j,
    {
        let pp = &h.past_performances[picks[j]];
        speeds.push(pp.bris_speed_rating);
        earlies.push(pick_early_fig(pp, dist_f));
        lates.push(pp.bris_late_pace);
        j += 1;
    }
    proof {
        assert(speeds@ =~= speed_values(pool));
        assert(earlies@ =~= early_values(pool, dist_f as int));
        assert(lates@ =~= late_values(pool));
    }
    RepFigs {
        rep_speed: weighted_avg(&speeds),
        rep_early: weighted_avg(&earlies),
        rep_late: weighted_avg(&lates),
    }
}

/// The pars of `race`, whose distance is `dist_f` millionths of a furlong:
/// `Some` exactly where the speed par, the early-pace par for that distance
/// and the late-pace par are all on record.
pub fn get_pars_for_race(race: &Race, dist_f: i64) -> (pars: Option<Pars>)
    ensures
        pars == pars_spec(race@, dist_f as int),
{
    let early = if dist_f <= 7_500_000 {
        race.four_f_bris_pace_par
    } else {
        race.six_f_bris_pace_par
    };
    match (race.bris_speed_for_class, early, race.bris_late_pace_par) {
        (Some(s), Some(e), Some(l)) => Some(Pars { speed: s, early: e, late: l }),
        _ => None,
    }
}

/// The totals of the first `n` positions: no weight without a value, and
/// the weighted total between `lo` and `hi` times the weight.
proof fn lemma_totals_bounded(values: Seq<Option<u32>>, n: int, lo: int, hi: int)
    requires
        0 <= n <= weighted_len(values),
        forall|i: int| 0 <= i < n && (#[trigger] values[i]) is Some ==> lo <= values[i]->0 <= hi,
    ensures
        0 <= weight_total(values, n),
        weight_total(values, n) > 0 <==> exists|i: int|
            0 <= i < n && (#[trigger] values[i]) is Some,
        lo * weight_total(values, n) <= weighted_total(values, n) <= hi * weight_total(values, n),
    decreases n,
{
    if n > 0 {
        lemma_totals_bounded(values, n - 1, lo, hi);
        let w = weight_spec(n - 1);
        assert(w > 0);
        match values[n - 1] {
            Some(v) => {
                assert(lo * (weight_total(values, n - 1) + w) == lo * weight_total(values, n - 1)
                    + lo * w) by (nonlinear_arith);
                assert(hi * (weight_total(values, n - 1) + w) == hi * weight_total(values, n - 1)
                    + hi * w) by (nonlinear_arith);
                assert(lo * w <= v * w <= hi * w) by (nonlinear_arith)
                    requires
                        lo <= v <= hi,
                        w > 0,
                ;
            },
            None => {
                if weight_total(values, n) > 0 {
                    let i = choose|i: int| 0 <= i < n - 1 && (#[trigger] values[i]) is Some;
                    assert(0 <= i < n && values[i] is Some);
                }
                if exists|i: int| 0 <= i < n && (#[trigger] values[i]) is Some {
                    let i = choose|i: int| 0 <= i < n && (#[trigger] values[i]) is Some;
                    assert(0 <= i < n - 1 && values[i] is Some);
                }
            },
        }
    }
}

/// A weighted average exists exactly where one of the values that take part
/// in it is present.
pub proof fn lemma_weighted_avg_present(values: Seq<Option<u32>>)
    ensures
        weighted_avg_spec(values) is Some <==> exists|i: int|
            0 <= i < weighted_len(values) && (#[trigger] values[i]) is Some,
{
    lemma_totals_bounded(values, weighted_len(values), 0, u32::MAX as int);
}

/// A weighted average lies between any two bounds that hold all the values
/// that take part in it: it is a convex combination of them.
pub proof fn lemma_weighted_avg_within(values: Seq<Option<u32>>, lo: int, hi: int)
    requires
        weighted_avg_spec(values) is Some,
        forall|i: int|
            0 <= i < weighted_len(values) && (#[trigger] values[i]) is Some ==> lo <= values[i]->0
                <= hi,
    ensures
        lo * MICRO <= weighted_avg_spec(values)->0 <= hi * MICRO,
{
    let n = weighted_len(values);
    lemma_totals_bounded(values, n, 0, u32::MAX as int);
    lemma_totals_bounded(values, n, lo, hi);
    let num = weighted_total(values, n);
    let den = weight_total(values, n);
    let q = (num * MICRO) / den;
    assert(0 <= q <= u32::MAX * MICRO && lo * MICRO <= q <= hi * MICRO) by (nonlinear_arith)
        requires
            q == (num * MICRO) / den,
            den > 0,
            MICRO == 1_000_000,
            0 <= num <= u32::MAX * den,
            lo * den <= num <= hi * den,
    ;
}

/// Each representative figure of a horse is present exactly where a start
/// of its pool has a value for it; a horse with no such start has `None`.
pub proof fn lemma_rep_figs_present(h: HorseView, race: RaceView, mode: SurfaceMode)
    ensures
        ({
            let pool = figure_pool(h.past_performances, mode);
            let dist_f = furlongs_spec(race.distance);
            let rep = rep_figs_spec(h, race, mode);
            &&& rep.rep_speed is Some <==> exists|i: int|
                0 <= i < pool.len() && (#[trigger] pool[i]).bris_speed_rating is Some
            &&& rep.rep_early is Some <==> exists|i: int|
                0 <= i < pool.len() && early_fig_spec(#[trigger] pool[i], dist_f) is Some
            &&& rep.rep_late is Some <==> exists|i: int|
                0 <= i < pool.len() && (#[trigger] pool[i]).bris_late_pace is Some
        }),
{
    let pool = figure_pool(h.past_performances, mode);
    let dist_f = furlongs_spec(race.distance);
    lemma_pool_capped(h.past_performances, mode);
    let sv = speed_values(pool);
    let ev = early_values(pool, dist_f);
    let lv = late_values(pool);
    lemma_weighted_avg_present(sv);
    lemma_weighted_avg_present(ev);
    lemma_weighted_avg_present(lv);
    if exists|i: int| 0 <= i < pool.len() && (#[trigger] pool[i]).bris_speed_rating is Some {
        let i = choose|i: int|
            0 <= i < pool.len() && (#[trigger] pool[i]).bris_speed_rating is Some;
        assert(sv[i] is Some);
    }
    if exists|i: int| 0 <= i < weighted_len(sv) && (#[trigger] sv[i]) is Some {
        let i = choose|i: int| 0 <= i < weighted_len(sv) && (#[trigger] sv[i]) is Some;
        assert(pool[i].bris_speed_rating is Some);
    }
    if exists|i: int| 0 <= i < pool.len() && early_fig_spec(#[trigger] pool[i], dist_f) is Some {
        let i = choose|i: int|
            0 <= i < pool.len() && early_fig_spec(#[trigger] pool[i], dist_f) is Some;
        assert(ev[i] is Some);
    }
    if exists|i: int| 0 <= i < weighted_len(ev) && (#[trigger] ev[i]) is Some {
        let i = choose|i: int| 0 <= i < weighted_len(ev) && (#[trigger] ev[i]) is Some;
        assert(early_fig_spec(pool[i], dist_f) is Some);
    }
    if exists|i: int| 0 <= i < pool.len() && (#[trigger] pool[i]).bris_late_pace is Some {
        let i = choose|i: int| 0 <= i < pool.len() && (#[trigger] pool[i]).bris_late_pace is Some;
        assert(lv[i] is Some);
    }
    if exists|i: int| 0 <= i < weighted_len(lv) && (#[trigger] lv[i]) is Some {
        let i = choose|i: int| 0 <= i < weighted_len(lv) && (#[trigger] lv[i]) is Some;
        assert(pool[i].bris_late_pace is Some);
    }
}

/// A pool holds at most five starts.
pub proof fn lemma_pool_capped(pps: Seq<PastPerformanceView>, mode: SurfaceMode)
    ensures
        figure_pool(pps, mode).len() <= POOL_CAP,
{
}

/// Each representative figure of a horse that is present lies between any
/// two bounds, in whole points, that hold the values which the starts of
/// its pool have for it.
pub proof fn lemma_rep_figs_within(
    h: HorseView,
    race: RaceView,
    mode: SurfaceMode,
    lo: int,
    hi: int,
)
    ensures
        ({
            let pool = figure_pool(h.past_performances, mode);
            let dist_f = furlongs_spec(race.distance);
            let rep = rep_figs_spec(h, race, mode);
            &&& rep.rep_speed is Some && (forall|i: int|
                0 <= i < pool.len() && (#[trigger] pool[i]).bris_speed_rating is Some ==> lo
                    <= pool[i].bris_speed_rating->0 <= hi) ==> lo * MICRO <= rep.rep_speed->0 <= hi
                * MICRO
            &&& rep.rep_early is Some && (forall|i: int|
                0 <= i < pool.len() && early_fig_spec(#[trigger] pool[i], dist_f) is Some ==> lo
                    <= early_fig_spec(pool[i], dist_f)->0 <= hi) ==> lo * MICRO <= rep.rep_early->0
                <= hi * MICRO
            &&& rep.rep_late is Some && (forall|i: int|
                0 <= i < pool.len() && (#[trigger] pool[i]).bris_late_pace is Some ==> lo
                    <= pool[i].bris_late_pace->0 <= hi) ==> lo * MICRO <= rep.rep_late->0 <= hi
                * MICRO
        }),
{
    let pool = figure_pool(h.past_performances, mode);
    let dist_f = furlongs_spec(race.distance);
    let rep = rep_figs_spec(h, race, mode);
    let sv = speed_values(pool);
    let ev = early_values(pool, dist_f);
    let lv = late_values(pool);
    if rep.rep_speed is Some && (forall|i: int|
        0 <= i < pool.len() && (#[trigger] pool[i]).bris_speed_rating is Some ==> lo
            <= pool[i].bris_speed_rating->0 <= hi) {
        assert forall|i: int| 0 <= i < weighted_len(sv) && (#[trigger] sv[i]) is Some implies lo
            <= sv[i]->0 <= hi by {
            assert(pool[i].bris_speed_rating is Some);
        }
        lemma_weighted_avg_within(sv, lo, hi);
    }
    if rep.rep_early is Some && (forall|i: int|
        0 <= i < pool.len() && early_fig_spec(#[trigger] pool[i], dist_f) is Some ==> lo
            <= early_fig_spec(pool[i], dist_f)->0 <= hi) {
        assert forall|i: int| 0 <= i < weighted_len(ev) && (#[trigger] ev[i]) is Some implies lo
            <= ev[i]->0 <= hi by {
            assert(early_fig_spec(pool[i], dist_f) is Some);
        }
        lemma_weighted_avg_within(ev, lo, hi);
    }
    if rep.rep_late is Some && (forall|i: int|
        0 <= i < pool.len() && (#[trigger] pool[i]).bris_late_pace is Some ==> lo
            <= pool[i].bris_late_pace->0 <= hi) {
        assert forall|i: int| 0 <= i < weighted_len(lv) && (#[trigger] lv[i]) is Some implies lo
            <= lv[i]->0 <= hi by {
            assert(pool[i].bris_late_pace is Some);
        }
        lemma_weighted_avg_within(lv, lo, hi);
    }
}

/// Each start of a pool is one of the horse's starts, and carries a date.
pub proof fn lemma_pool_of_dated_starts(pps: Seq<PastPerformanceView>, mode: SurfaceMode, i: int)
    requires
        0 <= i < figure_pool(pps, mode).len(),
    ensures
        is_dated(figure_pool(pps, mode)[i]),
        pps.contains(figure_pool(pps, mode)[i]),
{
    let usable = usable_starts(pps);
    let same = same_surface_starts(pps, mode);
    let x = figure_pool(pps, mode)[i];
    if same.len() >= 2 {
        assert(same[i] == x);
        assert(same.contains(x));
        usable.lemma_filter_contains_rev(surface_pred(mode), x);
    } else {
        assert(usable[i] == x);
        assert(usable.contains(x));
    }
    pps.lemma_filter_contains_rev(dated_pred(), x);
    let k = choose|k: int| 0 <= k < usable.len() && usable[k] == x;
    pps.lemma_filter_pred(dated_pred(), k);
}

/// A horse none of whose dated starts has a value for a figure has `None`
/// for that figure.
pub proof fn lemma_rep_figs_absent(h: HorseView, race: RaceView, mode: SurfaceMode)
    ensures
        ({
            let pps = h.past_performances;
            let dist_f = furlongs_spec(race.distance);
            let rep = rep_figs_spec(h, race, mode);
            &&& (forall|i: int|
                0 <= i < pps.len() && is_dated(#[trigger] pps[i])
                    ==> pps[i].bris_speed_rating is None) ==> rep.rep_speed is None
            &&& (forall|i: int|
                0 <= i < pps.len() && is_dated(#[trigger] pps[i]) ==> early_fig_spec(pps[i], dist_f)
                    is None) ==> rep.rep_early is None
            &&& (forall|i: int|
                0 <= i < pps.len() && is_dated(#[trigger] pps[i]) ==> pps[i].bris_late_pace is None)
                ==> rep.rep_late is None
        }),
{
    let pps = h.past_performances;
    let pool = figure_pool(pps, mode);
    lemma_rep_figs_present(h, race, mode);
    assert forall|j: int| 0 <= j < pool.len() implies is_dated(#[trigger] pool[j]) && pps.contains(
        pool[j],
    ) by {
        lemma_pool_of_dated_starts(pps, mode, j);
    }
}

} // verus!
