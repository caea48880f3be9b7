use railbreaker::order::{exec_outranks, stable_ranking};

#[test]
fn a_score_ranks_above_a_lower_one_and_above_none() {
    assert!(exec_outranks(Some(2), Some(1)));
    assert!(exec_outranks(Some(-5), None));
    assert!(exec_outranks(Some(i64::MIN), None));
    assert!(!exec_outranks(Some(1), Some(1)));
    assert!(!exec_outranks(Some(1), Some(2)));
}

#[test]
fn none_never_ranks_above_anything() {
    assert!(!exec_outranks(None, Some(i64::MIN)));
    assert!(!exec_outranks(None, Some(0)));
    assert!(!exec_outranks(None, None));
}

#[test]
fn ranking_goes_from_high_to_low() {
    assert_eq!(stable_ranking(&vec![Some(1), Some(3), Some(2)]), vec![1, 2, 0]);
    assert_eq!(stable_ranking(&vec![Some(-1), Some(0), Some(-2)]), vec![1, 0, 2]);
    assert_eq!(stable_ranking(&vec![Some(5)]), vec![0]);
    assert_eq!(stable_ranking(&Vec::new()), Vec::<usize>::new());
}

#[test]
fn ranking_keeps_ties_in_the_order_of_entry() {
    assert_eq!(stable_ranking(&vec![Some(1), Some(1), Some(1)]), vec![0, 1, 2]);
    assert_eq!(stable_ranking(&vec![Some(1), Some(2), Some(1), Some(2)]), vec![1, 3, 0, 2]);
}

#[test]
fn ranking_puts_horses_without_a_score_last() {
    assert_eq!(
        stable_ranking(&vec![Some(1), None, Some(3), Some(1), None, Some(2)]),
        vec![2, 5, 0, 3, 1, 4]
    );
    assert_eq!(stable_ranking(&vec![None, Some(i64::MIN)]), vec![1, 0]);
    assert_eq!(stable_ranking(&vec![None, None, None]), vec![0, 1, 2]);
}

#[test]
fn ranking_lists_every_place_once() {
    let scores: Vec<Option<i64>> =
        (0..50).map(|i| if i % 7 == 0 { None } else { Some((i * 37 % 11) as i64) }).collect();
    let order = stable_ranking(&scores);
    let mut seen = order.clone();
    seen.sort();
    assert_eq!(seen, (0..50).collect::<Vec<usize>>());
    for pair in order.windows(2) {
        let (a, b) = (scores[pair[0]], scores[pair[1]]);
        assert!(!exec_outranks(b, a));
        if a == b {
            assert!(pair[0] < pair[1]);
        }
    }
}
