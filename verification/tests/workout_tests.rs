use railbreaker::racecard::{Horse, Workout};
use railbreaker::workout::{
    in_window, workout_rank, workout_score, workout_signal, WorkoutSig, DEFAULT_DAYS_WINDOW,
};

fn work(date: &str, rank: Option<u32>, total: Option<u32>) -> Workout {
    Workout { date: date.to_string(), rank, workouts_that_day_distance: total }
}

fn horse_with(workouts: Vec<Workout>) -> Horse {
    Horse {
        id: 1,
        program_number: "1".to_string(),
        horse_name: "Sample".to_string(),
        post_position: None,
        bris_run_style: String::new(),
        quirin_speed_points: None,
        days_since_last_race: None,
        bris_prime_power_rating: None,
        trainer_jockey_combo_roi_meet: None,
        bris_turf_pedigree_rating: String::new(),
        past_performances: Vec::new(),
        workouts,
    }
}

#[test]
fn default_window_is_three_weeks() {
    assert_eq!(DEFAULT_DAYS_WINDOW, 21);
}

#[test]
fn window_on_day_numbers() {
    assert!(in_window(Some(100), Some(100), 21));
    assert!(in_window(Some(100), Some(79), 21));
    assert!(!in_window(Some(100), Some(78), 21));
    assert!(!in_window(Some(100), Some(101), 21));
    assert!(in_window(Some(100), Some(100), 0));
    assert!(!in_window(Some(100), Some(99), 0));
    assert!(!in_window(Some(100), Some(100), -1));
    assert!(in_window(None, Some(5), 21));
    assert!(in_window(Some(5), None, 21));
    assert!(in_window(None, None, 21));
    assert!(in_window(Some(i32::MAX), Some(i32::MIN), i64::MAX));
    assert!(!in_window(Some(i32::MIN), Some(i32::MAX), i64::MAX));
}

#[test]
fn ranks_of_a_workout() {
    assert_eq!(workout_rank(&work("", Some(1), Some(20))), (true, true));
    assert_eq!(workout_rank(&work("", Some(2), Some(20))), (true, true));
    assert_eq!(workout_rank(&work("", Some(3), Some(20))), (true, false));
    assert_eq!(workout_rank(&work("", Some(1), Some(9))), (true, false));
    assert_eq!(workout_rank(&work("", Some(1), Some(10))), (true, true));
    assert_eq!(workout_rank(&work("", Some(0), Some(1))), (true, true));
    assert_eq!(workout_rank(&work("", Some(1), Some(0))), (false, false));
    assert_eq!(workout_rank(&work("", None, Some(20))), (false, false));
    assert_eq!(workout_rank(&work("", Some(1), None)), (false, false));
    assert_eq!(workout_rank(&work("", Some(u32::MAX), Some(u32::MAX))), (true, false));
}

#[test]
fn score_of_the_counts() {
    assert_eq!(workout_score(0, 0), 0);
    assert_eq!(workout_score(1, 0), 100_000);
    assert_eq!(workout_score(1, 1), 700_000);
    // 0.10 * 3 + 0.60 * 2
    assert_eq!(workout_score(3, 2), 1_500_000);
    assert_eq!(workout_score(6, 4), 3_000_000);
    assert_eq!(workout_score(10, 5), 3_000_000);
    assert_eq!(workout_score(u32::MAX, u32::MAX), 3_000_000);
}

#[test]
fn workouts_inside_and_outside_the_window() {
    let h = horse_with(vec![
        // The day of the race.
        work("06/30/2024", Some(5), Some(20)),
        // 21 days before: the last day inside.
        work("06/09/2024", Some(1), Some(20)),
        // 22 days before.
        work("06/08/2024", Some(1), Some(20)),
        // The day after the race.
        work("07/01/2024", Some(1), Some(20)),
    ]);
    let sig = workout_signal(&h, Some("06/30/2024"), 21);
    assert_eq!(sig, WorkoutSig { recent_works: 2, top_rank_works: 1, score: 800_000 });
    let wide = workout_signal(&h, Some("06/30/2024"), 22);
    assert_eq!(wide, WorkoutSig { recent_works: 3, top_rank_works: 2, score: 1_500_000 });
    let none = workout_signal(&h, Some("06/30/2024"), 0);
    assert_eq!(none, WorkoutSig { recent_works: 1, top_rank_works: 0, score: 100_000 });
}

#[test]
fn window_counts_days_across_months_and_leap_years() {
    let h = horse_with(vec![
        work("02/28/2024", Some(1), Some(10)),
        work("02/29/2024", Some(1), Some(10)),
        work("12/31/2023", Some(1), Some(10)),
    ]);
    // From the first of March 2024 the 28th of February lies two days back.
    assert_eq!(workout_signal(&h, Some("03/01/2024"), 1).recent_works, 1);
    assert_eq!(workout_signal(&h, Some("03/01/2024"), 2).recent_works, 2);
    assert_eq!(workout_signal(&h, Some("03/01/2024"), 60).recent_works, 2);
    assert_eq!(workout_signal(&h, Some("03/01/2024"), 61).recent_works, 3);
}

#[test]
fn a_date_that_cannot_be_read_sets_no_limit() {
    let h = horse_with(vec![
        work("not a date", Some(1), Some(20)),
        work("", Some(4), Some(20)),
        work("2024-06-29", Some(4), Some(20)),
        work("01/01/1990", Some(1), Some(20)),
    ]);
    let sig = workout_signal(&h, Some("06/30/2024"), 21);
    assert_eq!(sig, WorkoutSig { recent_works: 3, top_rank_works: 1, score: 900_000 });
    // Without a race date, or with one that cannot be read, every workout
    // counts.
    let all = WorkoutSig { recent_works: 4, top_rank_works: 2, score: 1_600_000 };
    assert_eq!(workout_signal(&h, None, 21), all);
    assert_eq!(workout_signal(&h, Some("30/06/2024"), 21), all);
    assert_eq!(workout_signal(&h, Some(""), 21), all);
}

#[test]
fn workouts_without_rank_or_count_are_not_counted() {
    let h = horse_with(vec![
        work("06/29/2024", None, Some(20)),
        work("06/29/2024", Some(1), None),
        work("06/29/2024", Some(1), Some(0)),
        work("06/29/2024", Some(3), Some(20)),
    ]);
    let sig = workout_signal(&h, Some("06/30/2024"), 21);
    assert_eq!(sig, WorkoutSig { recent_works: 1, top_rank_works: 0, score: 100_000 });
    let empty = workout_signal(&horse_with(Vec::new()), Some("06/30/2024"), 21);
    assert_eq!(empty, WorkoutSig { recent_works: 0, top_rank_works: 0, score: 0 });
}

#[test]
fn score_is_capped_at_three() {
    let mut works = Vec::new();
    for _ in 0..8 {
        works.push(work("06/29/2024", Some(1), Some(50)));
    }
    let sig = workout_signal(&horse_with(works), Some("06/30/2024"), 21);
    assert_eq!(sig, WorkoutSig { recent_works: 8, top_rank_works: 8, score: 3_000_000 });
}
