use psi_tests::metrics::PSIResultValues;
use psi_tests::orchestrator::{batch_row, batch_test_success, remaining_failures, retry_order};
use psi_tests::rational::Rat;
use psi_tests::PsiError;

fn set_of(scores: Vec<i64>) -> PSIResultValues {
    PSIResultValues {
        cumulative_layout_shift: scores.clone(),
        first_contentful_paint: scores.clone(),
        js_execution_time: scores.clone(),
        largest_contentful_paint: scores.clone(),
        speed_index: scores.clone(),
        time_to_interactive: scores.clone(),
        total_blocking_time: scores.clone(),
        score: scores,
    }
}

/// How many summary rows a batch run emits for `url`: one per pass in which
/// its test succeeded.
fn rows_for(url: &str, passes: &[(Vec<String>, Vec<bool>)]) -> usize {
    let mut rows = 0;
    for (urls, outcomes) in passes {
        for (u, ok) in urls.iter().zip(outcomes.iter()) {
            if u == url && *ok {
                rows += 1;
            }
        }
    }
    rows
}

#[test]
fn url_recovering_in_second_retry_pass_is_removed_and_reported_once() {
    let urls = vec!["https://a.example".to_string(), "https://b.example".to_string()];
    let initial = vec![false, true];
    let f0 = remaining_failures(&urls, &initial);
    assert_eq!(f0, vec!["https://a.example".to_string()]);

    let pass1 = vec![false];
    let f1 = remaining_failures(&f0, &pass1);
    assert_eq!(f1, vec!["https://a.example".to_string()]);

    let pass2 = vec![true];
    let f2 = remaining_failures(&f1, &pass2);
    assert!(f2.is_empty());

    let passes = [(urls, initial), (f0, pass1), (f1, pass2)];
    assert_eq!(rows_for("https://a.example", &passes), 1);
    assert_eq!(rows_for("https://b.example", &passes), 1);
}

#[test]
fn url_failing_all_attempts_stays_in_the_failed_report_once() {
    let urls = vec!["https://a.example".to_string(), "https://b.example".to_string()];
    let initial = vec![false, true];
    let f0 = remaining_failures(&urls, &initial);
    let pass1 = vec![false];
    let f1 = remaining_failures(&f0, &pass1);
    let pass2 = vec![false];
    let f2 = remaining_failures(&f1, &pass2);
    assert_eq!(f2, vec!["https://a.example".to_string()]);

    let passes = [(urls, initial), (f0, pass1), (f1, pass2)];
    assert_eq!(rows_for("https://a.example", &passes), 0);
}

#[test]
fn retry_passes_walk_the_failed_list_in_reverse() {
    let failed = vec!["a".to_string(), "b".to_string(), "c".to_string()];
    let order = retry_order(&failed);
    assert_eq!(order, vec!["c".to_string(), "b".to_string(), "a".to_string()]);
}

#[test]
fn batch_test_succeeds_only_with_full_runs_on_both_strategies() {
    let full = set_of(vec![1, 2, 3]);
    let partial = set_of(vec![1, 2]);
    assert!(batch_test_success(&full, &full, 3));
    assert!(!batch_test_success(&full, &partial, 3));
    assert!(!batch_test_success(&partial, &full, 3));
    assert!(!batch_test_success(&full, &full, 4));
}

#[test]
fn batch_row_reports_score_mean_and_median_per_strategy() {
    let mobile = set_of(vec![1, 2, 3]);
    let desktop = set_of(vec![4, 5, 6]);
    let row = batch_row("https://a.example", &mobile, &desktop).unwrap();
    assert_eq!(row.url, "https://a.example");
    assert!(row.m_mean.eq_rat(&Rat::new(2, 1)));
    assert!(row.m_median.eq_rat(&Rat::new(2, 1)));
    assert!(row.d_mean.eq_rat(&Rat::new(5, 1)));
    assert!(row.d_median.eq_rat(&Rat::new(5, 1)));
}

#[test]
fn batch_row_with_no_successful_runs_is_insufficient_data() {
    let empty = set_of(vec![]);
    let full = set_of(vec![1, 2, 3]);
    assert!(matches!(
        batch_row("https://a.example", &empty, &full),
        Err(PsiError::InsufficientData)
    ));
}
