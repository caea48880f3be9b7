//! The workout signal: how many recent workouts a horse has on record, how
//! many of them ranked in the top tenth of their day, and the score that
//! the two counts give.

use vstd::prelude::*;
use chrono::{Datelike, NaiveDate};
use crate::fixed::clamp_spec;
use crate::racecard::{Horse, HorseView, Workout, WorkoutView};

verus! {

/// The workout activity of a horse. `score` is in millionths.
#[derive(Debug, Clone, Copy, PartialEq, Eq)]
pub struct WorkoutSig {
    pub recent_works: u32,
    pub top_rank_works: u32,
    pub score: i64,
}

/// The days that a workout may lie before the race, where the caller has no
/// window of its own.
pub const DEFAULT_DAYS_WINDOW: i64 = 21;

/// The day that a text in the form `MM/DD/YYYY` names, counted from the
/// first of January of the year 1 as day 1 of the proleptic Gregorian
/// calendar; `None` where `chrono` does not read the text as such a date.
/// The days from one date to another are the difference of their numbers.
pub uninterp spec fn date_day_number(s: Seq<char>) -> Option<i32>;

/// The day that `s` names. Calls `chrono::NaiveDate::parse_from_str` with
/// the format `%m/%d/%Y` and hands out the date as its day number
/// (`Datelike::num_days_from_ce`); the contract gives the outcome its name
/// and claims nothing else of it.
#[verifier::external_body]
pub(crate) fn parse_mmddyyyy(s: &str) -> (day: Option<i32>)
    ensures
        day == date_day_number(s@),
{
    match NaiveDate::parse_from_str(s, "%m/%d/%Y") {
        Ok(date) => Some(date.num_days_from_ce()),
        Err(_) => None,
    }
}

/// The day of the race, where a date is given and can be read.
pub open spec fn race_day_spec(race_date: Option<Seq<char>>) -> Option<i32> {
    match race_date {
        Some(d) => date_day_number(d),
        None => None,
    }
}

/// Whether a workout of day `work_day` counts for a race of day `race_day`:
/// where both days are known, the workout lies at most `days_window` days
/// before the race and not after it; where either is unknown, always.
pub open spec fn in_window_spec(
    race_day: Option<i32>,
    work_day: Option<i32>,
    days_window: int,
) -> bool {
    match (race_day, work_day) {
        (Some(rd), Some(wd)) => 0 <= rd - wd <= days_window,
        _ => true,
    }
}

/// Whether a workout carries a rank and a positive number of workouts of
/// its day.
pub open spec fn is_ranked(w: WorkoutView) -> bool {
    w.rank is Some && w.workouts_that_day_distance is Some && w.workouts_that_day_distance->0 > 0
}

/// Whether a ranked workout stands in the top tenth of its day: rank
/// divided by the number of workouts is at most 0.10.
pub open spec fn is_top_rank(w: WorkoutView) -> bool {
    is_ranked(w) && 10 * w.rank->0 <= w.workouts_that_day_distance->0
}

/// Whether a workout counts as recent for a race of day `race_day`.
pub open spec fn counts_recent(w: WorkoutView, race_day: Option<i32>, days_window: int) -> bool {
    in_window_spec(race_day, date_day_number(w.date), days_window) && is_ranked(w)
}

/// Whether a workout counts as a top-rank one for a race of day `race_day`.
pub open spec fn counts_top(w: WorkoutView, race_day: Option<i32>, days_window: int) -> bool {
    in_window_spec(race_day, date_day_number(w.date), days_window) && is_top_rank(w)
}

/// `counts_recent` for a race of day `race_day`, as a value.
pub open spec fn recent_pred(race_day: Option<i32>, days_window: int) -> spec_fn(
    WorkoutView,
) -> bool {
    |w: WorkoutView| counts_recent(w, race_day, days_window)
}

/// `counts_top` for a race of day `race_day`, as a value.
pub open spec fn top_pred(race_day: Option<i32>, days_window: int) -> spec_fn(WorkoutView) -> bool {
    |w: WorkoutView| counts_top(w, race_day, days_window)
}

/// The score of `recent` recent workouts of which `top` rank in the top
/// tenth: `clamp(0.10 * recent + 0.60 * top, 0, 3)`.
pub open spec fn workout_score_spec(recent: int, top: int) -> int {
    clamp_spec(recent * 100_000 + top * 600_000, 0, 3_000_000)
}

/// The workout signal of a horse for a race on `race_date`.
pub open spec fn workout_sig_spec(
    h: HorseView,
    race_date: Option<Seq<char>>,
    days_window: int,
) -> WorkoutSig {
    let race_day = race_day_spec(race_date);
    let recent = h.workouts.filter(recent_pred(race_day, days_window)).len();
    let top = h.workouts.filter(top_pred(race_day, days_window)).len();
    WorkoutSig {
        recent_works: recent as u32,
        top_rank_works: top as u32,
        score: workout_score_spec(recent as int, top as int) as i64,
    }
}

/// Whether a workout of day `work_day` counts for a race of day `race_day`
/// with a window of `days_window` days.
pub fn in_window(race_day: Option<i32>, work_day: Option<i32>, days_window: i64) -> (r: bool)
    ensures
        r == in_window_spec(race_day, work_day, days_window as int),
{
    match (race_day, work_day) {
        (Some(rd), Some(wd)) => {
            let age: i64 = rd as i64 - wd as i64;
            0 <= age && age <= days_window
        },
        _ => true,
    }
}

/// Whether the workout `w` carries a rank and a positive number of workouts
/// of its day, and whether it then stands in the top tenth.
pub fn workout_rank(w: &Workout) -> (r: (bool, bool))
    ensures
        r.0 == is_ranked(w@),
        r.1 == is_top_rank(w@),
{
    match (w.rank, w.workouts_that_day_distance) {
        (Some(rank), Some(total)) => {
            if total > 0 {
                (true, 10 * (rank as u64) <= total as u64)
            } else {
                (false, false)
            }
        },
        _ => (false, false),
    }
}

/// The score of `recent` recent workouts of which `top` rank in the top
/// tenth, in millionths.
pub fn workout_score(recent: u32, top: u32) -> (score: i64)
    ensures
        score == workout_score_spec(recent as int, top as int),
        0 <= score <= 3_000_000,
{
    let raw: i64 = (recent as i64) * 100_000 + (top as i64) * 600_000;
    if raw > 3_000_000 {
        3_000_000
    } else {
        raw
    }
}

/// The workout signal of `h` for a race on `race_date_mmddyyyy`, counting
/// the workouts of the `days_window` days before the race.
pub fn workout_signal(
    h: &Horse,
    race_date_mmddyyyy: Option<&str>,
    days_window: i64,
) -> (sig: WorkoutSig)
    requires
        h.workouts@.len() <= u32::MAX,
    ensures
        sig == workout_sig_spec(h@, date_view(race_date_mmddyyyy), days_window as int),
        sig.top_rank_works <= sig.recent_works <= h.workouts@.len(),
        sig.score == workout_score_spec(sig.recent_works as int, sig.top_rank_works as int),
{
    let race_day: Option<i32> = match race_date_mmddyyyy {
        Some(d) => parse_mmddyyyy(d),
        None => None,
    };
    let ghost views = h@.workouts;
    let ghost rp = recent_pred(race_day, days_window as int);
    let ghost tp = top_pred(race_day, days_window as int);
    let n: usize = h.workouts.len();
    let mut recent_works: u32 = 0;
    let mut top_rank_works: u32 = 0;
    let mut i: usize = 0;
    proof {
        assert(views.take(0) =~= Seq::<WorkoutView>::empty());
        reveal_with_fuel(Seq::filter, 1);
    }
    while i < n
        invariant
            n == h.workouts@.len(),
            n <= u32::MAX,
            i <= n,
            views == h@.workouts,
            rp == recent_pred(race_day, days_window as int),
            tp == top_pred(race_day, days_window as int),
            recent_works == views.take(i as int).filter(rp).len(),
            top_rank_works == views.take(i as int).filter(tp).len(),
            top_rank_works <= recent_works <= i,
        decreases n - i,
    {
        let w = &h.workouts[i];
        proof {
            assert(views[i as int] == w@);
            assert(views.take(i + 1) =~= views.take(i as int).push(w@));
            views.take(i as int).lemma_filter_push(w@, rp);
            views.take(i as int).lemma_filter_push(w@, tp);
        }
        let work_day = parse_mmddyyyy(w.date.as_str());
        if in_window(race_day, work_day, days_window) {
            let (ranked, top) = workout_rank(w);
            if ranked {
                recent_works += 1;
                if top {
                    top_rank_works += 1;
                }
            }
        }
        i += 1;
    }
    proof {
        assert(views.take(n as int) =~= views);
    }
    WorkoutSig { recent_works, top_rank_works, score: workout_score(recent_works, top_rank_works) }
}

/// The characters of an optional text.
pub open spec fn date_view(date: Option<&str>) -> Option<Seq<char>> {
    match date {
        Some(d) => Some(d@),
        None => None,
    }
}

/// A workout after the race is outside every window. With a window of no
/// negative length, a workout exactly `days_window` days before the race is
/// inside it, and one a day earlier than that is outside.
pub proof fn lemma_window_edges(race_day: i32, work_day: i32, days_window: int)
    ensures
        work_day > race_day ==> !in_window_spec(Some(race_day), Some(work_day), days_window),
        days_window >= 0 && race_day - work_day == days_window ==> in_window_spec(
            Some(race_day),
            Some(work_day),
            days_window,
        ),
        race_day - work_day == days_window + 1 ==> !in_window_spec(
            Some(race_day),
            Some(work_day),
            days_window,
        ),
{
}

/// A workout whose date is read as a day after the day of the race counts
/// neither as recent nor as a top-rank one, whatever the window.
pub proof fn lemma_later_workout_never_counts(
    w: WorkoutView,
    race_date: Seq<char>,
    days_window: int,
)
    requires
        date_day_number(race_date) is Some,
        date_day_number(w.date) is Some,
        date_day_number(w.date)->0 > date_day_number(race_date)->0,
    ensures
        !counts_recent(w, race_day_spec(Some(race_date)), days_window),
        !counts_top(w, race_day_spec(Some(race_date)), days_window),
{
}

} // verus!
