use psi_tests::metrics::PSIResultValues;
use psi_tests::rational::Rat;
use psi_tests::statistics::{
    calculate_confidence_interval, calculate_deviation, calculate_mean, confidence_interval, mean,
    median, single_page_stats, std_deviation, variance,
};
use psi_tests::PsiError;

fn set_of(scores: Vec<i64>) -> PSIResultValues {
    PSIResultValues {
        cumulative_layout_shift: scores.clone(),
        first_contentful_paint: scores.clone(),
        js_execution_time: scores.clone(),
        largest_contentful_paint: scores.clone(),
        speed_index: scores.clone(),
        time_to_interactive: scores.clone(),
        total_blocking_time: scores.clone(),
        score: scores,
    }
}

#[test]
fn mean_of_single_sample_is_the_sample() {
    for x in [0i64, 1, 42, -17, 1_000_000_000] {
        let m = mean(&vec![x]).unwrap();
        assert!(m.eq_rat(&Rat::new(x as i128, 1)));
    }
}

#[test]
fn mean_of_one_two_three_is_two() {
    let m = mean(&vec![1, 2, 3]).unwrap();
    assert_eq!(m.num, 6);
    assert_eq!(m.den, 3);
    assert!(m.eq_rat(&Rat::new(2, 1)));
}

#[test]
fn variance_of_one_two_three_around_two_is_two_thirds() {
    let v = variance(&vec![1, 2, 3], Rat::new(2, 1)).unwrap();
    assert!(v.eq_rat(&Rat::new(2, 3)));
}

#[test]
fn median_of_odd_length_list() {
    let m = median(&vec![1, 3, 5]).unwrap();
    assert!(m.eq_rat(&Rat::new(3, 1)));
    let m = median(&vec![5, 1, 3]).unwrap();
    assert!(m.eq_rat(&Rat::new(3, 1)));
}

#[test]
fn median_of_even_length_list_averages_mid_and_mid_plus_one() {
    // For [1, 2, 3, 4]: mid = 4 / 2 = 2, so (sorted[2] + sorted[3]) / 2.
    let m = median(&vec![1, 2, 3, 4]).unwrap();
    assert!(m.eq_rat(&Rat::new(7, 2)));
    let m = median(&vec![4, 3, 2, 1]).unwrap();
    assert!(m.eq_rat(&Rat::new(7, 2)));
}

#[test]
fn confidence_interval_mean_ten_dev_two_n_twenty_five() {
    let (lo, hi) = confidence_interval(Rat::new(10, 1), Rat::new(2, 1), 25).unwrap();
    // (10 - 1.96 * 2 / 5, 10 + 1.96 * 2 / 5) == (9.216, 10.784)
    assert!(lo.eq_rat(&Rat::new(9216, 1000)));
    assert!(hi.eq_rat(&Rat::new(10784, 1000)));
}

#[test]
fn std_deviation_of_one_two_three() {
    // Variance is 2/3; scaled by 10^12 and rounded down this is
    // 666_666_666_666, whose integer square root is 816_496. The standard
    // deviation is that root over 10^6.
    let d = std_deviation(&vec![1, 2, 3], Rat::new(2, 1)).unwrap();
    assert_eq!(d.num, 816_496);
    assert_eq!(d.den, 1_000_000);
}

#[test]
fn empty_samples_are_insufficient_data() {
    assert_eq!(mean(&vec![]), Err(PsiError::InsufficientData));
    assert_eq!(variance(&vec![], Rat::new(0, 1)), Err(PsiError::InsufficientData));
    assert_eq!(std_deviation(&vec![], Rat::new(0, 1)), Err(PsiError::InsufficientData));
    assert_eq!(median(&vec![]), Err(PsiError::InsufficientData));
    assert_eq!(
        confidence_interval(Rat::new(1, 1), Rat::new(1, 1), 0),
        Err(PsiError::InsufficientData)
    );
}

#[test]
fn calculate_mean_keeps_every_metric() {
    let set = PSIResultValues {
        cumulative_layout_shift: vec![1, 3],
        first_contentful_paint: vec![2, 4],
        js_execution_time: vec![3, 5],
        largest_contentful_paint: vec![4, 6],
        speed_index: vec![5, 7],
        time_to_interactive: vec![6, 8],
        total_blocking_time: vec![7, 9],
        score: vec![8, 10],
    };
    let st = calculate_mean(&set).unwrap();
    assert!(st.cumulative_layout_shift.eq_rat(&Rat::new(2, 1)));
    assert!(st.first_contentful_paint.eq_rat(&Rat::new(3, 1)));
    assert!(st.js_execution_time.eq_rat(&Rat::new(4, 1)));
    assert!(st.largest_contentful_paint.eq_rat(&Rat::new(5, 1)));
    assert!(st.speed_index.eq_rat(&Rat::new(6, 1)));
    assert!(st.time_to_interactive.eq_rat(&Rat::new(7, 1)));
    assert!(st.total_blocking_time.eq_rat(&Rat::new(8, 1)));
    assert!(st.score.eq_rat(&Rat::new(9, 1)));
}

#[test]
fn calculate_mean_of_empty_set_is_insufficient_data() {
    let set = set_of(vec![]);
    assert!(matches!(calculate_mean(&set), Err(PsiError::InsufficientData)));
}

#[test]
fn calculate_deviation_and_interval_follow_the_scalar_functions() {
    let set = set_of(vec![1, 2, 3]);
    let m = calculate_mean(&set).unwrap();
    let d = calculate_deviation(&set, &m).unwrap();
    assert_eq!(d.score.num, 816_496);
    assert_eq!(d.score.den, 1_000_000);
    let ci = calculate_confidence_interval(&m, &d, 3).unwrap();
    let (lo, hi) = ci.score;
    // Every metric of the set is identical, so every entry matches score.
    assert_eq!(ci.cumulative_layout_shift, ci.score);
    assert!(lo.num < hi.num && lo.den == hi.den);
}

#[test]
fn single_page_stats_uses_the_actual_run_count() {
    let set = set_of(vec![100, 200, 300, 400, 500]);
    let t = single_page_stats(&set).unwrap();
    assert_eq!(t.success_runs, 5);
    assert!(t.page_mean.score.eq_rat(&Rat::new(300, 1)));
    let (lo, hi) = t.page_confidence_interval.score;
    assert!(lo.num < hi.num);
}

#[test]
fn single_page_stats_of_empty_set_is_insufficient_data() {
    let set = set_of(vec![]);
    assert!(matches!(single_page_stats(&set), Err(PsiError::InsufficientData)));
}

#[test]
fn identical_samples_have_zero_deviation_and_a_point_interval() {
    let samples = vec![250, 250, 250, 250];
    let m = mean(&samples).unwrap();
    assert!(m.eq_rat(&Rat::new(250, 1)));
    let v = variance(&samples, m).unwrap();
    assert!(v.eq_rat(&Rat::new(0, 1)));
    let d = std_deviation(&samples, m).unwrap();
    assert_eq!(d.num, 0);
    let (lo, hi) = confidence_interval(m, d, 4).unwrap();
    assert!(lo.eq_rat(&hi));
    assert!(lo.eq_rat(&Rat::new(250, 1)));
}
