//! Ranking the field of a race, and the races of a card.

use vstd::prelude::*;
use crate::figures::{furlongs_spec, yards_to_furlongs, RepFigs};
use crate::order::{
    is_ranking, lemma_ranking_unique, outranks, places, ranking_of, stable_ranking, stands_before,
};
use crate::racecard::{Horse, HorseView, Race, RaceView, Racecard, RacecardView};
use crate::score::{score_horse, score_spec};
use crate::shape::{race_shape, race_shape_spec, Shape};
use crate::style::{
    classify_surface, normalize, parse_run_style, run_style_spec, surface_mode_spec, RunStyle,
    SurfaceMode,
};
use crate::workout::{
    date_view, workout_sig_spec, workout_signal, WorkoutSig, DEFAULT_DAYS_WINDOW,
};

verus! {

/// One horse of a ranked field. `score` is in millionths; a horse without a
/// score could not be scored, which is not a score of zero.
#[derive(Debug, Clone)]
pub struct HorseRank {
    pub race_id: i64,
    pub horse_id: i64,
    pub program_number: String,
    pub horse_name: String,
    pub post_position: Option<u32>,
    pub run_style: RunStyle,
    pub quirin: Option<u32>,
    pub shape: Shape,
    pub score: Option<i64>,
    pub rep: RepFigs,
    pub workout: WorkoutSig,
}

/// A ranked horse with its texts as characters.
pub struct HorseRankView {
    pub race_id: i64,
    pub horse_id: i64,
    pub program_number: Seq<char>,
    pub horse_name: Seq<char>,
    pub post_position: Option<u32>,
    pub run_style: RunStyle,
    pub quirin: Option<u32>,
    pub shape: Shape,
    pub score: Option<i64>,
    pub rep: RepFigs,
    pub workout: WorkoutSig,
}

impl View for HorseRank {
    type V = HorseRankView;

    open spec fn view(&self) -> HorseRankView {
        HorseRankView {
            race_id: self.race_id,
            horse_id: self.horse_id,
            program_number: self.program_number@,
            horse_name: self.horse_name@,
            post_position: self.post_position,
            run_style: self.run_style,
            quirin: self.quirin,
            shape: self.shape,
            score: self.score,
            rep: self.rep,
            workout: self.workout,
        }
    }
}

/// A race with its projected shape and its field in ranking order.
/// `distance_f` and `epi` are in millionths.
#[derive(Debug, Clone)]
pub struct RaceRankResult {
    pub racecard_id: i64,
    pub race_id: i64,
    pub race_number: Option<u32>,
    pub surface_mode: SurfaceMode,
    pub distance_f: i64,
    pub shape: Shape,
    pub pace_heat: u32,
    pub epi: i64,
    pub horses: Vec<HorseRank>,
}

/// A ranked race with its field as a sequence.
pub struct RaceRankResultView {
    pub racecard_id: i64,
    pub race_id: i64,
    pub race_number: Option<u32>,
    pub surface_mode: SurfaceMode,
    pub distance_f: i64,
    pub shape: Shape,
    pub pace_heat: u32,
    pub epi: i64,
    pub horses: Seq<HorseRankView>,
}

impl View for RaceRankResult {
    type V = RaceRankResultView;

    open spec fn view(&self) -> RaceRankResultView {
        RaceRankResultView {
            racecard_id: self.racecard_id,
            race_id: self.race_id,
            race_number: self.race_number,
            surface_mode: self.surface_mode,
            distance_f: self.distance_f,
            shape: self.shape,
            pace_heat: self.pace_heat,
            epi: self.epi,
            horses: self.horses@.map_values(|h: HorseRank| h@),
        }
    }
}

/// The ranked races of a card.
#[derive(Debug, Clone)]
pub struct CardAnalysis {
    pub racecard_id: i64,
    pub track: String,
    pub date: String,
    pub races: Vec<RaceRankResult>,
}

/// An analysis with its texts as characters and its races as a sequence.
pub struct CardAnalysisView {
    pub racecard_id: i64,
    pub track: Seq<char>,
    pub date: Seq<char>,
    pub races: Seq<RaceRankResultView>,
}

impl View for CardAnalysis {
    type V = CardAnalysisView;

    open spec fn view(&self) -> CardAnalysisView {
        CardAnalysisView {
            racecard_id: self.racecard_id,
            track: self.track@,
            date: self.date@,
            races: self.races@.map_values(|r: RaceRankResult| r@),
        }
    }
}

/// Whether the counts of a race fit the 32 bits that a result holds them
/// in: the size of the field, and each horse's number of workouts.
pub open spec fn race_in_bounds(race: RaceView) -> bool {
    &&& race.horses.len() <= u32::MAX
    &&& forall|i: int|
        0 <= i < race.horses.len() ==> (#[trigger] race.horses[i]).workouts.len() <= u32::MAX
}

/// The scores of the field, in the order of entry.
pub open spec fn field_scores(race: RaceView, shape: Shape, mode: SurfaceMode) -> Seq<Option<i64>> {
    Seq::new(race.horses.len(), |i: int| score_spec(race.horses[i], race, shape, mode).0)
}

/// What the ranking says of one horse.
pub open spec fn horse_rank_spec(
    h: HorseView,
    race: RaceView,
    racecard_date: Option<Seq<char>>,
    shape: Shape,
    mode: SurfaceMode,
) -> HorseRankView {
    let scored = score_spec(h, race, shape, mode);
    HorseRankView {
        race_id: race.id,
        horse_id: h.id,
        program_number: h.program_number,
        horse_name: h.horse_name,
        post_position: h.post_position,
        run_style: run_style_spec(h.bris_run_style),
        quirin: h.quirin_speed_points,
        shape,
        score: scored.0,
        rep: scored.1,
        workout: workout_sig_spec(h, racecard_date, DEFAULT_DAYS_WINDOW as int),
    }
}

/// The ranked field of a race scored on the surface of `mode`: the shape of
/// the race, and its horses from the highest score to the lowest, those
/// without a score last, ties in the order of entry.
pub open spec fn rank_race_spec(
    race: RaceView,
    racecard_date: Option<Seq<char>>,
    mode: SurfaceMode,
) -> RaceRankResultView {
    let shaped = race_shape_spec(race, mode);
    let order = ranking_of(field_scores(race, shaped.0, mode));
    RaceRankResultView {
        racecard_id: race.racecard_id,
        race_id: race.id,
        race_number: race.race_number,
        surface_mode: mode,
        distance_f: furlongs_spec(race.distance) as i64,
        shape: shaped.0,
        pace_heat: shaped.1,
        epi: shaped.2,
        horses: Seq::new(
            race.horses.len(),
            |k: int| horse_rank_spec(race.horses[order[k]], race, racecard_date, shaped.0, mode),
        ),
    }
}

/// The ranked field of a race, by the rules of the surface that its
/// surface code names.
pub open spec fn rank_race_auto_spec(
    race: RaceView,
    racecard_date: Option<Seq<char>>,
) -> RaceRankResultView {
    rank_race_spec(race, racecard_date, surface_mode_spec(race.surface))
}

/// The analysis of a card: each of its races ranked, in the order of the
/// card, with the date of the card as the day of each race.
pub open spec fn analyze_spec(card: RacecardView) -> CardAnalysisView {
    CardAnalysisView {
        racecard_id: card.id,
        track: card.track,
        date: card.date,
        races: Seq::new(
            card.races.len(),
            |i: int| rank_race_auto_spec(card.races[i], Some(card.date)),
        ),
    }
}

/// What the ranking says of the horse `h`, whose score and figures are
/// `scored`.
fn horse_rank(
    h: &Horse,
    race: &Race,
    racecard_date: Option<&str>,
    shape: Shape,
    mode: SurfaceMode,
    scored: (Option<i64>, RepFigs),
) -> (rank: HorseRank)
    requires
        h.workouts@.len() <= u32::MAX,
        scored == score_spec(h@, race@, shape, mode),
    ensures
        rank@ == horse_rank_spec(h@, race@, date_view(racecard_date), shape, mode),
{
    HorseRank {
        race_id: race.id,
        horse_id: h.id,
        program_number: h.program_number.clone(),
        horse_name: h.horse_name.clone(),
        post_position: h.post_position,
        run_style: parse_run_style(h.bris_run_style.as_str()),
        quirin: h.quirin_speed_points,
        shape,
        score: scored.0,
        rep: scored.1,
        workout: workout_signal(h, racecard_date, DEFAULT_DAYS_WINDOW),
    }
}

/// The score and the figures of each horse of the field, in the order of
/// entry.
fn score_field(race: &Race, shape: Shape, mode: SurfaceMode) -> (scored: Vec<
    (Option<i64>, RepFigs),
>)
    ensures
        scored@.len() == race@.horses.len(),
        forall|k: int|
            0 <= k < scored@.len() ==> #[trigger] scored@[k] == score_spec(
                race@.horses[k],
                race@,
                shape,
                mode,
            ),
{
    let n: usize = race.horses.len();
    let mut scored: Vec<(Option<i64>, RepFigs)> = Vec::new();
    let mut i: usize = 0;
    while i < n
        invariant
            n == race.horses@.len(),
            i <= n,
            scored@.len() == i,
            forall|k: int|
                0 <= k < i ==> #[trigger] scored@[k] == score_spec(
                    race@.horses[k],
                    race@,
                    shape,
                    mode,
                ),
        decreases n - i,
    {
        let h = &race.horses[i];
        assert(race@.horses[i as int] == h@);
        scored.push(score_horse(h, race, shape, mode));
        i += 1;
    }
    scored
}

/// The scores of the field, in the order of entry.
fn scores_of(scored: &Vec<(Option<i64>, RepFigs)>) -> (scores: Vec<Option<i64>>)
    ensures
        scores@.len() == scored@.len(),
        forall|k: int| 0 <= k < scores@.len() ==> #[trigger] scores@[k] == scored@[k].0,
{
    let mut scores: Vec<Option<i64>> = Vec::new();
    let mut i: usize = 0;
    while i < scored.len()
        invariant
            i <= scored@.len(),
            scores@.len() == i,
            forall|k: int| 0 <= k < i ==> #[trigger] scores@[k] == scored@[k].0,
        decreases scored@.len() - i,
    {
        let entry = scored[i];
        scores.push(entry.0);
        i += 1;
    }
    scores
}

/// The horses of the field in the order that `order` lists their places
/// in.
fn ranked_field(
    race: &Race,
    racecard_date: Option<&str>,
    shape: Shape,
    mode: SurfaceMode,
    scored: &Vec<(Option<i64>, RepFigs)>,
    order: &Vec<usize>,
) -> (horses: Vec<HorseRank>)
    requires
        race_in_bounds(race@),
        scored@.len() == race@.horses.len(),
        order@.len() == race@.horses.len(),
        forall|k: int| 0 <= k < order@.len() ==> (#[trigger] order@[k]) < race@.horses.len(),
        forall|k: int|
            0 <= k < scored@.len() ==> #[trigger] scored@[k] == score_spec(
                race@.horses[k],
                race@,
                shape,
                mode,
            ),
    ensures
        horses@.len() == order@.len(),
        forall|j: int|
            0 <= j < horses@.len() ==> (#[trigger] horses@[j])@ == horse_rank_spec(
                race@.horses[order@[j] as int],
                race@,
                date_view(racecard_date),
                shape,
                mode,
            ),
{
    let n: usize = order.len();
    let mut horses: Vec<HorseRank> = Vec::new();
    let mut k: usize = 0;
    while k < n
        invariant
            n == order@.len(),
            n == race.horses@.len(),
            n == scored@.len(),
            race_in_bounds(race@),
            k <= n,
            forall|j: int| 0 <= j < n ==> (#[trigger] order@[j]) < n,
            forall|j: int|
                0 <= j < n ==> #[trigger] scored@[j] == score_spec(
                    race@.horses[j],
                    race@,
                    shape,
                    mode,
                ),
            horses@.len() == k,
            forall|j: int|
                0 <= j < k ==> (#[trigger] horses@[j])@ == horse_rank_spec(
                    race@.horses[order@[j] as int],
                    race@,
                    date_view(racecard_date),
                    shape,
                    mode,
                ),
        decreases n - k,
    {
        let place: usize = order[k];
        let h = &race.horses[place];
        assert(race@.horses[place as int] == h@);
        let rank = horse_rank(h, race, racecard_date, shape, mode, scored[place]);
        horses.push(rank);
        k += 1;
    }
    horses
}

/// Horses listed by the ranking of their scores are the ranked field, and
/// none of them is outranked by one listed after it.
proof fn lemma_field_in_order(
    horses: Seq<HorseRankView>,
    race: RaceView,
    racecard_date: Option<Seq<char>>,
    mode: SurfaceMode,
    ranking: Seq<int>,
)
    requires
        is_ranking(ranking, field_scores(race, race_shape_spec(race, mode).0, mode)),
        horses.len() == race.horses.len(),
        forall|j: int|
            0 <= j < horses.len() ==> #[trigger] horses[j] == horse_rank_spec(
                race.horses[ranking[j]],
                race,
                racecard_date,
                race_shape_spec(race, mode).0,
                mode,
            ),
    ensures
        horses == rank_race_spec(race, racecard_date, mode).horses,
        forall|a: int, b: int|
            0 <= a < b < horses.len() ==> !outranks(
                (#[trigger] horses[b]).score,
                (#[trigger] horses[a]).score,
            ),
{
    let shape = race_shape_spec(race, mode).0;
    let scores = field_scores(race, shape, mode);
    lemma_ranking_unique(ranking, ranking_of(scores), scores);
    assert(horses =~= rank_race_spec(race, racecard_date, mode).horses);
    assert forall|a: int, b: int| 0 <= a < b < horses.len() implies !outranks(
        (#[trigger] horses[b]).score,
        (#[trigger] horses[a]).score,
    ) by {
        assert(stands_before(scores, ranking[a], ranking[b]));
        assert(horses[a].score == scores[ranking[a]]);
        assert(horses[b].score == scores[ranking[b]]);
    }
}

/// The ranked field of `race`, scored on the surface of `mode`, with
/// `racecard_date` as the day of the race. No horse of the result is
/// outranked by one that stands after it.
pub fn rank_race_in_mode(
    race: &Race,
    racecard_date: Option<&str>,
    mode: SurfaceMode,
) -> (r: RaceRankResult)
    requires
        race_in_bounds(race@),
    ensures
        r@ == rank_race_spec(race@, date_view(racecard_date), mode),
        r@.horses.len() == race@.horses.len(),
        forall|a: int, b: int|
            0 <= a < b < r@.horses.len() ==> !outranks(
                (#[trigger] r@.horses[b]).score,
                (#[trigger] r@.horses[a]).score,
            ),
{
    let dist_f = yards_to_furlongs(race.distance);
    let (shape, pace_heat, epi) = race_shape(race, mode);
    let scored = score_field(race, shape, mode);
    let scores = scores_of(&scored);
    let order = stable_ranking(&scores);
    proof {
        assert(scores@ =~= field_scores(race@, shape, mode));
        assert forall|k: int| 0 <= k < order@.len() implies (#[trigger] order@[k])
            < race@.horses.len() by {
            assert(places(order@)[k] == order@[k]);
        }
    }
    let horses = ranked_field(race, racecard_date, shape, mode, &scored, &order);
    let r = RaceRankResult {
        racecard_id: race.racecard_id,
        race_id: race.id,
        race_number: race.race_number,
        surface_mode: mode,
        distance_f: dist_f,
        shape,
        pace_heat,
        epi,
        horses,
    };
    proof {
        let ranking = places(order@);
        assert forall|j: int| 0 <= j < r@.horses.len() implies #[trigger] r@.horses[j]
            == horse_rank_spec(
            race@.horses[ranking[j]],
            race@,
            date_view(racecard_date),
            shape,
            mode,
        ) by {
            assert(r@.horses[j] == r.horses@[j]@);
            assert(ranking[j] == order@[j]);
        }
        lemma_field_in_order(r@.horses, race@, date_view(racecard_date), mode, ranking);
    }
    r
}

/// The ranked field of `race` by the dirt rules.
pub fn rank_race_dirt(race: &Race, racecard_date: Option<&str>) -> (r: RaceRankResult)
    requires
        race_in_bounds(race@),
    ensures
        r@ == rank_race_spec(race@, date_view(racecard_date), SurfaceMode::Dirt),
        r@.horses.len() == race@.horses.len(),
        forall|a: int, b: int|
            0 <= a < b < r@.horses.len() ==> !outranks(
                (#[trigger] r@.horses[b]).score,
                (#[trigger] r@.horses[a]).score,
            ),
{
    rank_race_in_mode(race, racecard_date, SurfaceMode::Dirt)
}

/// The ranked field of `race` by the turf rules.
pub fn rank_race_turf(race: &Race, racecard_date: Option<&str>) -> (r: RaceRankResult)
    requires
        race_in_bounds(race@),
    ensures
        r@ == rank_race_spec(race@, date_view(racecard_date), SurfaceMode::Turf),
        r@.horses.len() == race@.horses.len(),
        forall|a: int, b: int|
            0 <= a < b < r@.horses.len() ==> !outranks(
                (#[trigger] r@.horses[b]).score,
                (#[trigger] r@.horses[a]).score,
            ),
{
    rank_race_in_mode(race, racecard_date, SurfaceMode::Turf)
}

/// The surface mode that a race with the surface code `surface` is ranked
/// in: turf for `T`, dirt for every other code.
pub fn surface_mode_of(surface: &str) -> (mode: SurfaceMode)
    ensures
        mode == surface_mode_spec(surface@),
{
    let code = normalize(surface);
    if classify_surface(SurfaceMode::Turf, &code) {
        SurfaceMode::Turf
    } else {
        SurfaceMode::Dirt
    }
}

/// The ranked field of `race`, by the turf rules where its surface code is
/// `T` and by the dirt rules otherwise.
pub fn rank_race_auto(race: &Race, racecard_date: Option<&str>) -> (r: RaceRankResult)
    requires
        race_in_bounds(race@),
    ensures
        r@ == rank_race_auto_spec(race@, date_view(racecard_date)),
        r@.horses.len() == race@.horses.len(),
        forall|a: int, b: int|
            0 <= a < b < r@.horses.len() ==> !outranks(
                (#[trigger] r@.horses[b]).score,
                (#[trigger] r@.horses[a]).score,
            ),
{
    let mode = surface_mode_of(race.surface.as_str());
    rank_race_in_mode(race, racecard_date, mode)
}

/// Whether the counts of every race of a card fit.
pub open spec fn card_in_bounds(card: RacecardView) -> bool {
    forall|i: int| 0 <= i < card.races.len() ==> race_in_bounds(#[trigger] card.races[i])
}

/// The analysis of `card`: every race ranked, in the order of the card.
pub fn analyze_racecard(card: &Racecard) -> (analysis: CardAnalysis)
    requires
        card_in_bounds(card@),
    ensures
        analysis@ == analyze_spec(card@),
{
    let n: usize = card.races.len();
    let mut races: Vec<RaceRankResult> = Vec::new();
    let mut i: usize = 0;
    while i < n
        invariant
            n == card.races@.len(),
            card_in_bounds(card@),
            i <= n,
            races@.len() == i,
            forall|j: int|
                0 <= j < i ==> (#[trigger] races@[j])@ == rank_race_auto_spec(
                    card@.races[j],
                    Some(card@.date),
                ),
        decreases n - i,
    {
        let race = &card.races[i];
        assert(card@.races[i as int] == race@);
        let ranked = rank_race_auto(race, Some(card.date.as_str()));
        races.push(ranked);
        i += 1;
    }
    let analysis = CardAnalysis {
        racecard_id: card.id,
        track: card.track.clone(),
        date: card.date.clone(),
        races,
    };
    proof {
        assert(analysis@.races =~= analyze_spec(card@).races);
    }
    analysis
}

} // verus!
