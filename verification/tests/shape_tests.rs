use railbreaker::racecard::{Horse, PastPerformance, Race};
use railbreaker::shape::{
    classify_shape, presses_pace, pressure_index, race_shape, race_shape_dirt, race_shape_turf,
    Shape,
};
use railbreaker::style::SurfaceMode;

fn start_with_early(four_f: u32) -> PastPerformance {
    PastPerformance {
        race_date: "01/01/2024".to_string(),
        surface: "D".to_string(),
        bris_2f_pace: None,
        bris_4f_pace: Some(four_f),
        bris_6f_pace: None,
        bris_late_pace: None,
        bris_speed_rating: None,
    }
}

fn entrant(style: &str, quirin: Option<u32>, starts: Vec<PastPerformance>) -> Horse {
    Horse {
        id: 1,
        program_number: "1".to_string(),
        horse_name: "Sample".to_string(),
        post_position: None,
        bris_run_style: style.to_string(),
        quirin_speed_points: quirin,
        days_since_last_race: None,
        bris_prime_power_rating: None,
        trainer_jockey_combo_roi_meet: None,
        bris_turf_pedigree_rating: String::new(),
        past_performances: starts,
        workouts: Vec::new(),
    }
}

fn race_of(horses: Vec<Horse>, four_f_par: Option<u32>) -> Race {
    Race {
        id: 10,
        racecard_id: 100,
        race_number: Some(1),
        distance: Some(1320),
        surface: "D".to_string(),
        four_f_bris_pace_par: four_f_par,
        six_f_bris_pace_par: Some(1),
        bris_speed_for_class: Some(90),
        bris_late_pace_par: Some(80),
        horses,
    }
}

#[test]
fn pace_pressers_on_dirt() {
    let d = SurfaceMode::Dirt;
    assert!(presses_pace(d, &entrant("E", None, Vec::new())));
    assert!(presses_pace(d, &entrant(" e ", Some(0), Vec::new())));
    assert!(presses_pace(d, &entrant("S", Some(6), Vec::new())));
    assert!(presses_pace(d, &entrant("", Some(8), Vec::new())));
    assert!(!presses_pace(d, &entrant("EP", Some(5), Vec::new())));
    assert!(!presses_pace(d, &entrant("E/P", Some(5), Vec::new())));
    assert!(presses_pace(d, &entrant("E/P", Some(6), Vec::new())));
    assert!(presses_pace(d, &entrant("E/8", Some(0), Vec::new())));
    assert!(!presses_pace(d, &entrant("P", None, Vec::new())));
}

#[test]
fn pace_pressers_on_turf() {
    let t = SurfaceMode::Turf;
    assert!(presses_pace(t, &entrant("E", None, Vec::new())));
    assert!(presses_pace(t, &entrant("EP", Some(5), Vec::new())));
    assert!(presses_pace(t, &entrant("e/p", Some(5), Vec::new())));
    assert!(!presses_pace(t, &entrant("E/P", Some(4), Vec::new())));
    assert!(!presses_pace(t, &entrant("EP", Some(4), Vec::new())));
    assert!(!presses_pace(t, &entrant("EP", None, Vec::new())));
    assert!(!presses_pace(t, &entrant("P", Some(6), Vec::new())));
    assert!(presses_pace(t, &entrant("P", Some(7), Vec::new())));
}

#[test]
fn pressure_index_blends_heat_and_margin() {
    let d = SurfaceMode::Dirt;
    let t = SurfaceMode::Turf;
    // 0.70 * 2/4 + 0.30 * (0 + 6)/12
    assert_eq!(pressure_index(d, 2, 4, 0), 500_000);
    // 0.60 * 2/4 + 0.40 * (0 + 4)/10
    assert_eq!(pressure_index(t, 2, 4, 0), 460_000);
    // 0.70 + 0.30 * 11/12
    assert_eq!(pressure_index(d, 1, 1, 5_000_000), 975_000);
    // 0.60 + 0.40 * 9/10
    assert_eq!(pressure_index(t, 1, 1, 5_000_000), 960_000);
    // 0.70 / 3 + 0.30 * 4/12
    assert_eq!(pressure_index(d, 1, 3, -2_000_000), 333_333);
    // 0.60 / 3 + 0.40 * 2/10
    assert_eq!(pressure_index(t, 1, 3, -2_000_000), 280_000);
    // 0.60 * 5/7 + 0.40 * 0.0000001
    assert_eq!(pressure_index(t, 5, 7, -3_999_999), 428_571);
}

#[test]
fn pressure_index_holds_the_margin_to_its_window() {
    let d = SurfaceMode::Dirt;
    assert_eq!(pressure_index(d, 3, 4, 100_000_000), 825_000);
    assert_eq!(pressure_index(d, 3, 4, 6_000_000), 825_000);
    assert_eq!(pressure_index(d, 1, 7, -100_000_000), 100_000);
    assert_eq!(pressure_index(d, 1, 7, -6_000_000), 100_000);
    assert_eq!(pressure_index(d, u32::MAX, u32::MAX, i64::MAX), 1_000_000);
    assert_eq!(pressure_index(d, 0, u32::MAX, i64::MIN), 0);
}

#[test]
fn pressure_index_never_leaves_zero_to_one() {
    assert_eq!(pressure_index(SurfaceMode::Dirt, 5, 2, 0), 1_000_000);
    assert_eq!(pressure_index(SurfaceMode::Turf, u32::MAX, 1, i64::MAX), 1_000_000);
}

#[test]
fn shape_marks_on_dirt() {
    let d = SurfaceMode::Dirt;
    assert_eq!(classify_shape(d, 1_000_000), Shape::Meltdown);
    assert_eq!(classify_shape(d, 880_000), Shape::Meltdown);
    assert_eq!(classify_shape(d, 879_999), Shape::Fast);
    assert_eq!(classify_shape(d, 750_000), Shape::Fast);
    assert_eq!(classify_shape(d, 749_999), Shape::Honest);
    assert_eq!(classify_shape(d, 250_001), Shape::Honest);
    assert_eq!(classify_shape(d, 250_000), Shape::Slow);
    assert_eq!(classify_shape(d, 0), Shape::Slow);
}

#[test]
fn shape_marks_on_turf() {
    let t = SurfaceMode::Turf;
    assert_eq!(classify_shape(t, 820_000), Shape::Meltdown);
    assert_eq!(classify_shape(t, 819_999), Shape::Fast);
    assert_eq!(classify_shape(t, 680_000), Shape::Fast);
    assert_eq!(classify_shape(t, 679_999), Shape::Honest);
    assert_eq!(classify_shape(t, 220_001), Shape::Honest);
    assert_eq!(classify_shape(t, 220_000), Shape::Slow);
}

#[test]
fn shape_of_an_empty_race() {
    let race = race_of(Vec::new(), Some(75));
    // The field counts as one; no horse has a figure, so the margin is zero.
    assert_eq!(race_shape_dirt(&race), (Shape::Slow, 0, 150_000));
    assert_eq!(race_shape_turf(&race), (Shape::Slow, 0, 160_000));
}

#[test]
fn shape_without_pars_takes_the_margin_as_zero() {
    let horses = vec![
        entrant("E", None, vec![start_with_early(99)]),
        entrant("E", None, vec![start_with_early(99)]),
        entrant("P", None, Vec::new()),
        entrant("S", None, Vec::new()),
    ];
    let race = race_of(horses, None);
    assert_eq!(race_shape_dirt(&race), (Shape::Honest, 2, 500_000));
    assert_eq!(race_shape_turf(&race), (Shape::Honest, 2, 460_000));
}

#[test]
fn shape_measures_the_mean_early_figure_against_par() {
    // Early figures 78 and 82 (mean 80) and one horse without a figure,
    // against a par of 75: a margin of five points.
    let horses = vec![
        entrant("E", None, vec![start_with_early(78)]),
        entrant("EP", Some(6), vec![start_with_early(82)]),
        entrant("E", Some(2), Vec::new()),
    ];
    let race = race_of(horses, Some(75));
    assert_eq!(race_shape(&race, SurfaceMode::Dirt), (Shape::Meltdown, 3, 975_000));
    assert_eq!(race_shape(&race, SurfaceMode::Turf), (Shape::Meltdown, 3, 960_000));
}

#[test]
fn shape_is_the_same_on_every_call() {
    let horses = vec![
        entrant("E", None, vec![start_with_early(71)]),
        entrant("P", Some(3), vec![start_with_early(80)]),
    ];
    let race = race_of(horses, Some(77));
    assert_eq!(race_shape_dirt(&race), race_shape_dirt(&race));
    assert_eq!(race_shape_turf(&race), race_shape_turf(&race));
    let (shape, heat, epi) = race_shape_dirt(&race);
    assert_eq!(shape, classify_shape(SurfaceMode::Dirt, epi));
    assert!(heat <= 2);
    assert!(0 <= epi && epi <= 1_000_000);
}

fn shape_at(mode: SurfaceMode, heat: u32, field: u32, margin: i64) -> (Shape, i64) {
    let epi = pressure_index(mode, heat, field, margin);
    (classify_shape(mode, epi), epi)
}

#[test]
fn the_index_lies_on_the_side_of_the_slow_mark_that_the_fraction_lies_on() {
    let d = SurfaceMode::Dirt;
    // 0.70 / 7 + 0.30 * 6 / 12 is 0.25 on the mark: slow.
    assert_eq!(shape_at(d, 1, 7, 0), (Shape::Slow, 250_000));
    // A millionth of a point more of margin puts the index at 0.250000025,
    // above the mark: it is handed out as the next millionth, and the race
    // is honest.
    assert_eq!(shape_at(d, 1, 7, 1), (Shape::Honest, 250_001));
    assert_eq!(shape_at(d, 0, 1, 4_000_001), (Shape::Honest, 250_001));
    assert_eq!(shape_at(d, 0, 1, 4_000_027), (Shape::Honest, 250_001));
    assert_eq!(shape_at(d, 0, 1, 4_000_040), (Shape::Honest, 250_001));
    assert_eq!(shape_at(d, 0, 1, 4_000_041), (Shape::Honest, 250_001));
    assert_eq!(shape_at(d, 0, 1, 4_000_000), (Shape::Slow, 250_000));
    // Below the mark by a hair.
    assert_eq!(shape_at(d, 1, 7, -1), (Shape::Slow, 249_999));
    let t = SurfaceMode::Turf;
    // 0.60 * 0 + 0.40 * 5.5 / 10 is 0.22 on the mark.
    assert_eq!(shape_at(t, 0, 3, 1_500_000), (Shape::Slow, 220_000));
    assert_eq!(shape_at(t, 0, 3, 1_500_001), (Shape::Honest, 220_001));
    assert_eq!(shape_at(t, 0, 4, 1_500_020), (Shape::Honest, 220_001));
    assert_eq!(shape_at(t, 0, 4, 1_499_999), (Shape::Slow, 219_999));
}

#[test]
fn the_upper_marks_are_met_by_the_index_rounded_down() {
    let d = SurfaceMode::Dirt;
    // 0.70 * 3/4 + 0.30 is 0.825.
    assert_eq!(shape_at(d, 3, 4, 6_000_000), (Shape::Fast, 825_000));
    // 0.70 + 0.30 * 0.6 is 0.88 on the mark.
    assert_eq!(shape_at(d, 1, 1, 1_200_000), (Shape::Meltdown, 880_000));
    assert_eq!(shape_at(d, 1, 1, 1_199_999), (Shape::Fast, 879_999));
    // 0.70 * 5/7 + 0.30 * 10 / 12 is 0.75 on the mark.
    assert_eq!(shape_at(d, 5, 7, 4_000_000), (Shape::Fast, 750_000));
    assert_eq!(shape_at(d, 5, 7, 3_999_999), (Shape::Honest, 749_999));
}

#[test]
fn the_shape_of_a_race_is_the_shape_of_its_index() {
    // Three horses that do not press, with early figures whose mean lies
    // 4.000027 above par: the index is 0.250000675.
    let figures: [&[u32]; 3] = [&[73, 73, 73, 73, 82], &[76, 73, 73, 74], &[74]];
    let horses = figures
        .iter()
        .map(|f| entrant("S", None, f.iter().map(|v| start_with_early(*v)).collect()))
        .collect();
    let race = race_of(horses, Some(70));
    let (shape, heat, epi) = race_shape_dirt(&race);
    assert_eq!((shape, heat, epi), (Shape::Honest, 0, 250_001));
    assert_eq!(shape, classify_shape(SurfaceMode::Dirt, epi));
}
