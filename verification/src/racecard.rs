//! The records of a race card that the scoring engine reads, each with the
//! mathematical view that the contracts of this crate speak of.
//!
//! Ratings that carry decimals (`bris_prime_power_rating`,
//! `trainer_jockey_combo_roi_meet`) are held in millionths.

use vstd::prelude::*;

verus! {

/// One earlier start of a horse.
#[derive(Debug, Clone)]
pub struct PastPerformance {
    /// `MM/DD/YYYY`; blank where the start has no date.
    pub race_date: String,
    pub surface: String,
    pub bris_2f_pace: Option<u32>,
    pub bris_4f_pace: Option<u32>,
    pub bris_6f_pace: Option<u32>,
    pub bris_late_pace: Option<u32>,
    pub bris_speed_rating: Option<u32>,
}

/// An earlier start with its texts as characters.
pub struct PastPerformanceView {
    pub race_date: Seq<char>,
    pub surface: Seq<char>,
    pub bris_2f_pace: Option<u32>,
    pub bris_4f_pace: Option<u32>,
    pub bris_6f_pace: Option<u32>,
    pub bris_late_pace: Option<u32>,
    pub bris_speed_rating: Option<u32>,
}

impl View for PastPerformance {
    type V = PastPerformanceView;

    open spec fn view(&self) -> PastPerformanceView {
        PastPerformanceView {
            race_date: self.race_date@,
            surface: self.surface@,
            bris_2f_pace: self.bris_2f_pace,
            bris_4f_pace: self.bris_4f_pace,
            bris_6f_pace: self.bris_6f_pace,
            bris_late_pace: self.bris_late_pace,
            bris_speed_rating: self.bris_speed_rating,
        }
    }
}

/// One timed workout of a horse.
#[derive(Debug, Clone)]
pub struct Workout {
    /// `MM/DD/YYYY`.
    pub date: String,
    /// The horse's rank among the workouts of that day at that distance.
    pub rank: Option<u32>,
    /// How many workouts were recorded that day at that distance.
    pub workouts_that_day_distance: Option<u32>,
}

/// A workout with its date as characters.
pub struct WorkoutView {
    pub date: Seq<char>,
    pub rank: Option<u32>,
    pub workouts_that_day_distance: Option<u32>,
}

impl View for Workout {
    type V = WorkoutView;

    open spec fn view(&self) -> WorkoutView {
        WorkoutView {
            date: self.date@,
            rank: self.rank,
            workouts_that_day_distance: self.workouts_that_day_distance,
        }
    }
}

/// One entrant of a race.
#[derive(Debug, Clone)]
pub struct Horse {
    pub id: i64,
    pub program_number: String,
    pub horse_name: String,
    pub post_position: Option<u32>,
    pub bris_run_style: String,
    pub quirin_speed_points: Option<u32>,
    pub days_since_last_race: Option<u32>,
    /// In millionths.
    pub bris_prime_power_rating: Option<i64>,
    /// In millionths.
    pub trainer_jockey_combo_roi_meet: Option<i64>,
    /// A number as text, possibly followed by `*`.
    pub bris_turf_pedigree_rating: String,
    /// Most recent first.
    pub past_performances: Vec<PastPerformance>,
    pub workouts: Vec<Workout>,
}

/// An entrant with its texts as characters and its lists as sequences.
pub struct HorseView {
    pub id: i64,
    pub program_number: Seq<char>,
    pub horse_name: Seq<char>,
    pub post_position: Option<u32>,
    pub bris_run_style: Seq<char>,
    pub quirin_speed_points: Option<u32>,
    pub days_since_last_race: Option<u32>,
    pub bris_prime_power_rating: Option<i64>,
    pub trainer_jockey_combo_roi_meet: Option<i64>,
    pub bris_turf_pedigree_rating: Seq<char>,
    pub past_performances: Seq<PastPerformanceView>,
    pub workouts: Seq<WorkoutView>,
}

impl View for Horse {
    type V = HorseView;

    open spec fn view(&self) -> HorseView {
        HorseView {
            id: self.id,
            program_number: self.program_number@,
            horse_name: self.horse_name@,
            post_position: self.post_position,
            bris_run_style: self.bris_run_style@,
            quirin_speed_points: self.quirin_speed_points,
            days_since_last_race: self.days_since_last_race,
            bris_prime_power_rating: self.bris_prime_power_rating,
            trainer_jockey_combo_roi_meet: self.trainer_jockey_combo_roi_meet,
            bris_turf_pedigree_rating: self.bris_turf_pedigree_rating@,
            past_performances: self.past_performances@.map_values(|p: PastPerformance| p@),
            workouts: self.workouts@.map_values(|w: Workout| w@),
        }
    }
}

/// One race of a card, with its class pars and its field.
#[derive(Debug, Clone)]
pub struct Race {
    pub id: i64,
    pub racecard_id: i64,
    pub race_number: Option<u32>,
    /// In yards.
    pub distance: Option<i32>,
    pub surface: String,
    pub four_f_bris_pace_par: Option<u32>,
    pub six_f_bris_pace_par: Option<u32>,
    pub bris_speed_for_class: Option<u32>,
    pub bris_late_pace_par: Option<u32>,
    pub horses: Vec<Horse>,
}

/// A race with its texts as characters and its field as a sequence.
pub struct RaceView {
    pub id: i64,
    pub racecard_id: i64,
    pub race_number: Option<u32>,
    pub distance: Option<i32>,
    pub surface: Seq<char>,
    pub four_f_bris_pace_par: Option<u32>,
    pub six_f_bris_pace_par: Option<u32>,
    pub bris_speed_for_class: Option<u32>,
    pub bris_late_pace_par: Option<u32>,
    pub horses: Seq<HorseView>,
}

impl View for Race {
    type V = RaceView;

    open spec fn view(&self) -> RaceView {
        RaceView {
            id: self.id,
            racecard_id: self.racecard_id,
            race_number: self.race_number,
            distance: self.distance,
            surface: self.surface@,
            four_f_bris_pace_par: self.four_f_bris_pace_par,
            six_f_bris_pace_par: self.six_f_bris_pace_par,
            bris_speed_for_class: self.bris_speed_for_class,
            bris_late_pace_par: self.bris_late_pace_par,
            horses: self.horses@.map_values(|h: Horse| h@),
        }
    }
}

/// The races of one track on one day.
#[derive(Debug, Clone)]
pub struct Racecard {
    pub id: i64,
    pub track: String,
    /// `MM/DD/YYYY`.
    pub date: String,
    pub races: Vec<Race>,
}

/// A card with its texts as characters and its races as a sequence.
pub struct RacecardView {
    pub id: i64,
    pub track: Seq<char>,
    pub date: Seq<char>,
    pub races: Seq<RaceView>,
}

impl View for Racecard {
    type V = RacecardView;

    open spec fn view(&self) -> RacecardView {
        RacecardView {
            id: self.id,
            track: self.track@,
            date: self.date@,
            races: self.races@.map_values(|r: Race| r@),
        }
    }
}

} // verus!
