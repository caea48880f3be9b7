use railbreaker::figures::{
    figure_pool_picks, get_pars_for_race, has_date, pick_early_fig, representative_figures,
    weighted_avg, yards_to_furlongs, Pars, RepFigs,
};
use railbreaker::racecard::{Horse, PastPerformance, Race};
use railbreaker::style::SurfaceMode;

fn start(date: &str, surface: &str, figs: [Option<u32>; 5]) -> PastPerformance {
    PastPerformance {
        race_date: date.to_string(),
        surface: surface.to_string(),
        bris_2f_pace: figs[0],
        bris_4f_pace: figs[1],
        bris_6f_pace: figs[2],
        bris_late_pace: figs[3],
        bris_speed_rating: figs[4],
    }
}

fn horse_with(starts: Vec<PastPerformance>) -> Horse {
    Horse {
        id: 1,
        program_number: "1".to_string(),
        horse_name: "Sample".to_string(),
        post_position: Some(1),
        bris_run_style: "P".to_string(),
        quirin_speed_points: None,
        days_since_last_race: None,
        bris_prime_power_rating: None,
        trainer_jockey_combo_roi_meet: None,
        bris_turf_pedigree_rating: String::new(),
        past_performances: starts,
        workouts: Vec::new(),
    }
}

fn race_of(distance: Option<i32>, pars: [Option<u32>; 4]) -> Race {
    Race {
        id: 10,
        racecard_id: 100,
        race_number: Some(1),
        distance,
        surface: "D".to_string(),
        four_f_bris_pace_par: pars[0],
        six_f_bris_pace_par: pars[1],
        bris_speed_for_class: pars[2],
        bris_late_pace_par: pars[3],
        horses: Vec::new(),
    }
}

#[test]
fn furlongs_from_yards() {
    assert_eq!(yards_to_furlongs(Some(1320)), 6_000_000);
    assert_eq!(yards_to_furlongs(Some(1210)), 5_500_000);
    assert_eq!(yards_to_furlongs(Some(1650)), 7_500_000);
    assert_eq!(yards_to_furlongs(Some(1)), 4_545);
    assert_eq!(yards_to_furlongs(Some(0)), 0);
    assert_eq!(yards_to_furlongs(None), 0);
    assert_eq!(yards_to_furlongs(Some(-1)), -4_546);
    assert_eq!(yards_to_furlongs(Some(i32::MAX)), 9_761_289_304_545);
    assert_eq!(yards_to_furlongs(Some(i32::MIN)), -9_761_289_309_091);
}

#[test]
fn weighted_avg_of_one_value_is_the_value() {
    assert_eq!(weighted_avg(&vec![Some(100)]), Some(100_000_000));
    assert_eq!(weighted_avg(&vec![None, None, Some(7)]), Some(7_000_000));
    assert_eq!(weighted_avg(&vec![Some(0)]), Some(0));
    assert_eq!(weighted_avg(&vec![Some(u32::MAX)]), Some(4_294_967_295_000_000));
}

#[test]
fn weighted_avg_weighs_by_position() {
    // (90 * 55 + 80 * 30) / 85
    assert_eq!(weighted_avg(&vec![Some(90), Some(80)]), Some(86_470_588));
    // (80 * 30 + 60 * 8) / 38
    assert_eq!(weighted_avg(&vec![None, Some(80), None, Some(60)]), Some(75_789_473));
    // (5500 + 2700 + 1200 + 560 + 300) / 113
    assert_eq!(
        weighted_avg(&vec![Some(100), Some(90), Some(80), Some(70), Some(60)]),
        Some(90_796_460)
    );
}

#[test]
fn weighted_avg_reads_five_values_at_most() {
    assert_eq!(
        weighted_avg(&vec![Some(100), Some(90), Some(80), Some(70), Some(60), Some(1)]),
        Some(90_796_460)
    );
    assert_eq!(weighted_avg(&vec![None, None, None, None, None, Some(50)]), None);
}

#[test]
fn weighted_avg_of_nothing_is_none() {
    assert_eq!(weighted_avg(&Vec::new()), None);
    assert_eq!(weighted_avg(&vec![None, None]), None);
}

#[test]
fn weighted_avg_lies_between_its_values() {
    let values = vec![Some(71), None, Some(93), Some(88), Some(79)];
    let avg = weighted_avg(&values).unwrap();
    assert!(71_000_000 <= avg && avg <= 93_000_000);
}

#[test]
fn early_figure_follows_the_distance() {
    let all = start("01/01/2024", "D", [Some(2), Some(4), Some(6), None, None]);
    assert_eq!(pick_early_fig(&all, 5_000_000), Some(2));
    assert_eq!(pick_early_fig(&all, 5_500_000), Some(2));
    assert_eq!(pick_early_fig(&all, 5_500_001), Some(4));
    assert_eq!(pick_early_fig(&all, 7_500_000), Some(4));
    assert_eq!(pick_early_fig(&all, 7_500_001), Some(6));
    assert_eq!(pick_early_fig(&all, 9_000_000), Some(6));
}

#[test]
fn early_figure_falls_back() {
    let no2 = start("01/01/2024", "D", [None, Some(4), Some(6), None, None]);
    let no4 = start("01/01/2024", "D", [Some(2), None, Some(6), None, None]);
    let only6 = start("01/01/2024", "D", [None, None, Some(6), None, None]);
    let only2 = start("01/01/2024", "D", [Some(2), None, None, None, None]);
    assert_eq!(pick_early_fig(&no2, 5_000_000), Some(4));
    assert_eq!(pick_early_fig(&only6, 5_000_000), None);
    assert_eq!(pick_early_fig(&no4, 6_000_000), Some(2));
    assert_eq!(pick_early_fig(&only6, 6_000_000), Some(6));
    assert_eq!(pick_early_fig(&no2, 8_000_000), Some(6));
    assert_eq!(pick_early_fig(&only2, 8_000_000), None);
    assert_eq!(pick_early_fig(&no4, 8_000_000), Some(6));
}

#[test]
fn early_figure_for_a_missing_distance_is_the_long_one() {
    let all = start("01/01/2024", "D", [Some(2), Some(4), Some(6), None, None]);
    let no6 = start("01/01/2024", "D", [Some(2), Some(4), None, None, None]);
    assert_eq!(pick_early_fig(&all, 0), Some(6));
    assert_eq!(pick_early_fig(&no6, 0), Some(4));
}

#[test]
fn a_start_without_a_date_is_not_usable() {
    assert!(has_date(&start("01/01/2024", "D", [None; 5])));
    assert!(has_date(&start("x", "D", [None; 5])));
    assert!(!has_date(&start("", "D", [None; 5])));
    assert!(!has_date(&start("  \t", "D", [None; 5])));
}

#[test]
fn pool_prefers_two_starts_on_the_surface() {
    let starts = vec![
        start("03/01/2024", "D", [None; 5]),
        start("02/01/2024", "T", [None; 5]),
        start("01/01/2024", "d", [None; 5]),
    ];
    assert_eq!(figure_pool_picks(&starts, SurfaceMode::Dirt), vec![0, 2]);
    assert_eq!(figure_pool_picks(&starts, SurfaceMode::Turf), vec![0, 1, 2]);
}

#[test]
fn pool_skips_undated_starts_and_stops_at_five() {
    let mut starts = Vec::new();
    for i in 0..8 {
        let date = if i == 1 { "" } else { "01/01/2024" };
        starts.push(start(date, "T", [None; 5]));
    }
    assert_eq!(figure_pool_picks(&starts, SurfaceMode::Turf), vec![0, 2, 3, 4, 5]);
    assert_eq!(figure_pool_picks(&starts, SurfaceMode::Dirt), vec![0, 2, 3, 4, 5]);
    assert_eq!(figure_pool_picks(&Vec::new(), SurfaceMode::Dirt), Vec::<usize>::new());
}

#[test]
fn pool_counts_an_undated_start_on_the_surface_for_nothing() {
    let starts = vec![
        start("03/01/2024", "D", [None; 5]),
        start("", "D", [None; 5]),
        start("01/01/2024", "T", [None; 5]),
    ];
    assert_eq!(figure_pool_picks(&starts, SurfaceMode::Dirt), vec![0, 2]);
}

#[test]
fn representative_figures_of_a_sprinter() {
    let h = horse_with(vec![
        start("03/01/2024", "D", [Some(90), Some(88), None, Some(70), Some(85)]),
        start("02/01/2024", "D", [None, Some(80), None, None, Some(80)]),
        start("01/01/2024", "T", [Some(99), Some(99), Some(99), Some(99), Some(99)]),
    ]);
    // Six furlongs: the four-furlong figure comes first.
    let race = race_of(Some(1320), [None; 4]);
    let rep = representative_figures(&h, &race, SurfaceMode::Dirt);
    // The turf start is left out: two dirt starts make the pool.
    assert_eq!(
        rep,
        RepFigs {
            // (85 * 55 + 80 * 30) / 85
            rep_speed: Some(83_235_294),
            // (88 * 55 + 80 * 30) / 85
            rep_early: Some(85_176_470),
            // 70 alone
            rep_late: Some(70_000_000),
        }
    );
    // Five furlongs: the two-furlong figure comes first.
    let dash = race_of(Some(1100), [None; 4]);
    let rep = representative_figures(&h, &dash, SurfaceMode::Dirt);
    // (90 * 55 + 80 * 30) / 85
    assert_eq!(rep.rep_early, Some(86_470_588));
}

#[test]
fn representative_figures_without_usable_values_are_none() {
    let h = horse_with(vec![
        start("03/01/2024", "D", [None, None, None, None, Some(85)]),
        start("", "D", [Some(1), Some(2), Some(3), Some(4), Some(5)]),
    ]);
    let race = race_of(Some(1320), [None; 4]);
    let rep = representative_figures(&h, &race, SurfaceMode::Dirt);
    assert_eq!(rep, RepFigs { rep_speed: Some(85_000_000), rep_early: None, rep_late: None });
    let none = representative_figures(&horse_with(Vec::new()), &race, SurfaceMode::Dirt);
    assert_eq!(none, RepFigs { rep_speed: None, rep_early: None, rep_late: None });
}

#[test]
fn pars_need_all_three_figures() {
    let full = race_of(Some(1320), [Some(75), Some(77), Some(90), Some(80)]);
    assert_eq!(get_pars_for_race(&full, 6_000_000), Some(Pars { speed: 90, early: 75, late: 80 }));
    assert_eq!(get_pars_for_race(&full, 7_500_000), Some(Pars { speed: 90, early: 75, late: 80 }));
    assert_eq!(get_pars_for_race(&full, 7_500_001), Some(Pars { speed: 90, early: 77, late: 80 }));
    assert_eq!(get_pars_for_race(&full, 0), Some(Pars { speed: 90, early: 75, late: 80 }));
    let no_speed = race_of(Some(1320), [Some(75), Some(77), None, Some(80)]);
    assert_eq!(get_pars_for_race(&no_speed, 6_000_000), None);
    let no_late = race_of(Some(1320), [Some(75), Some(77), Some(90), None]);
    assert_eq!(get_pars_for_race(&no_late, 6_000_000), None);
    let no_four = race_of(Some(1320), [None, Some(77), Some(90), Some(80)]);
    assert_eq!(get_pars_for_race(&no_four, 6_000_000), None);
    assert_eq!(get_pars_for_race(&no_four, 8_000_000), Some(Pars { speed: 90, early: 77, late: 80 }));
    let no_six = race_of(Some(1320), [Some(75), None, Some(90), Some(80)]);
    assert_eq!(get_pars_for_race(&no_six, 8_000_000), None);
}

#[test]
fn a_figure_outside_the_pool_does_not_count() {
    // Two dirt starts without a speed rating make the pool; the rating of
    // the turf start is not looked at.
    let h = horse_with(vec![
        start("03/01/2024", "D", [None, Some(80), None, Some(70), None]),
        start("02/01/2024", "D", [None, Some(82), None, Some(72), None]),
        start("01/01/2024", "T", [None, None, None, None, Some(90)]),
    ]);
    let race = race_of(Some(1320), [None; 4]);
    let rep = representative_figures(&h, &race, SurfaceMode::Dirt);
    assert_eq!(rep.rep_speed, None);
    assert!(rep.rep_early.is_some());
    // On turf only one start is on the surface, so all three make the pool.
    let rep = representative_figures(&h, &race, SurfaceMode::Turf);
    assert_eq!(rep.rep_speed, Some(90_000_000));
    // A sixth start is never looked at.
    let mut starts = vec![start("03/01/2024", "D", [None; 5]); 5];
    starts.push(start("01/01/2024", "D", [None, None, None, None, Some(90)]));
    let rep = representative_figures(&horse_with(starts), &race, SurfaceMode::Dirt);
    assert_eq!(rep.rep_speed, None);
}
