use convnext_trading::metrics::{Metrics, Ratio, Sign};

fn value(r: Ratio) -> f64 {
    r.numerator as f64 / r.denominator as f64
}

fn sign_of(x: f64) -> Sign {
    if x > 0.0 {
        Sign::Positive
    } else if x < 0.0 {
        Sign::Negative
    } else if x == 0.0 {
        Sign::Zero
    } else {
        Sign::Unordered
    }
}

fn signs(xs: &[f64]) -> Vec<Sign> {
    xs.iter().map(|&x| sign_of(x)).collect()
}

#[test]
fn test_accuracy() {
    let predictions = vec![0, 1, 2, 0, 1];
    let targets = vec![0, 1, 1, 0, 2];
    let acc = Metrics::accuracy(&predictions, &targets);
    assert!((value(acc) - 0.6).abs() < 1e-6);
}

#[test]
fn test_precision_recall() {
    let predictions = vec![0, 0, 1, 1, 1];
    let targets = vec![0, 1, 1, 1, 0];

    let precision = Metrics::precision(&predictions, &targets, 1);
    assert!((value(precision) - 2.0 / 3.0).abs() < 1e-6);

    let recall = Metrics::recall(&predictions, &targets, 1);
    assert!((value(recall) - 2.0 / 3.0).abs() < 1e-6);
}

#[test]
fn test_confusion_matrix() {
    let predictions = vec![0, 0, 1, 1, 2, 2];
    let targets = vec![0, 1, 1, 2, 2, 0];

    let cm = Metrics::confusion_matrix(&predictions, &targets, 3);

    assert_eq!(cm.get(0, 0), 1); // True class 0, predicted 0
    assert_eq!(cm.get(1, 0), 1); // True class 1, predicted 0
    assert_eq!(cm.get(1, 1), 1); // True class 1, predicted 1
}

#[test]
fn test_direction_accuracy() {
    let predictions = signs(&[0.1, -0.2, 0.3, -0.1, 0.0]);
    let targets = signs(&[0.2, -0.1, 0.1, 0.1, 0.0]);
    let acc = Metrics::direction_accuracy(&predictions, &targets);
    assert!((value(acc) - 0.8).abs() < 1e-6);
}

#[test]
fn test_hit_rate() {
    let signals = vec![1, -1, 1, -1, 0];
    let outcomes = signs(&[0.01, 0.02, -0.01, -0.02, 0.01]);
    // long on a rise: hit; short on a rise: miss; long on a fall: miss;
    // short on a fall: hit; hold: ignored
    let hr = Metrics::hit_rate(&signals, &outcomes);
    assert!((value(hr) - 0.5).abs() < 1e-6);
}

#[test]
fn accuracy_exact_ratio() {
    let acc = Metrics::accuracy(&vec![0, 1, 2, 0, 1], &vec![0, 1, 1, 0, 2]);
    assert_eq!(acc, Ratio { numerator: 3, denominator: 5 });
}

#[test]
fn accuracy_of_mismatched_or_empty_inputs_is_zero() {
    assert_eq!(Metrics::accuracy(&vec![0, 1], &vec![0]), Ratio { numerator: 0, denominator: 1 });
    assert_eq!(Metrics::accuracy(&vec![], &vec![]), Ratio { numerator: 0, denominator: 1 });
}

#[test]
fn precision_counts_all_predictions_but_only_shared_positions() {
    // the third prediction has no target: it is a predicted positive, never a true positive
    let precision = Metrics::precision(&vec![1, 1, 1], &vec![1, 0], 1);
    assert_eq!(precision, Ratio { numerator: 1, denominator: 3 });
    let recall = Metrics::recall(&vec![1], &vec![1, 1], 1);
    assert_eq!(recall, Ratio { numerator: 1, denominator: 2 });
}

#[test]
fn precision_and_recall_without_positives_are_zero() {
    assert_eq!(Metrics::precision(&vec![0, 0], &vec![1, 1], 1), Ratio { numerator: 0, denominator: 1 });
    assert_eq!(Metrics::recall(&vec![1, 1], &vec![0, 0], 1), Ratio { numerator: 0, denominator: 1 });
}

#[test]
fn confusion_matrix_full_table_and_laws() {
    let predictions = vec![0, 0, 1, 1, 2, 2];
    let targets = vec![0, 1, 1, 2, 2, 0];
    let cm = Metrics::confusion_matrix(&predictions, &targets, 3);
    assert_eq!(cm.num_classes(), 3);
    let expected = [[1, 0, 1], [1, 1, 0], [0, 1, 1]];
    for t in 0..3 {
        for p in 0..3 {
            assert_eq!(cm.get(t, p), expected[t][p]);
        }
    }
    // diagonal = true positives; row sums = actual positives; column sums = predicted positives
    for c in 0..3 {
        assert_eq!(cm.get(c, c), Metrics::precision(&predictions, &targets, c).numerator);
        let row: usize = (0..3).map(|p| cm.get(c, p)).sum();
        assert_eq!(row, Metrics::recall(&predictions, &targets, c).denominator);
        let column: usize = (0..3).map(|t| cm.get(t, c)).sum();
        assert_eq!(column, Metrics::precision(&predictions, &targets, c).denominator);
    }
    let trace: usize = (0..3).map(|c| cm.get(c, c)).sum();
    assert_eq!(trace, Metrics::accuracy(&predictions, &targets).numerator);
}

#[test]
fn confusion_matrix_ignores_labels_out_of_range() {
    let cm = Metrics::confusion_matrix(&vec![0, 5, 1], &vec![0, 1, 7], 2);
    assert_eq!(cm.get(0, 0), 1);
    assert_eq!(cm.get(0, 1), 0);
    assert_eq!(cm.get(1, 0), 0);
    assert_eq!(cm.get(1, 1), 0);
}

#[test]
fn direction_accuracy_unordered_never_agrees() {
    let acc = Metrics::direction_accuracy(&signs(&[f64::NAN, 0.0]), &signs(&[f64::NAN, -0.0]));
    assert_eq!(acc, Ratio { numerator: 1, denominator: 2 });
}

#[test]
fn hit_rate_without_trades_is_zero() {
    assert_eq!(Metrics::hit_rate(&vec![0, 0], &signs(&[0.1, -0.1])), Ratio { numerator: 0, denominator: 1 });
    assert_eq!(Metrics::hit_rate(&vec![1], &signs(&[0.1, -0.1])), Ratio { numerator: 0, denominator: 1 });
    assert_eq!(Metrics::hit_rate(&vec![1, -1], &signs(&[0.0, 0.5])), Ratio { numerator: 0, denominator: 2 });
}
