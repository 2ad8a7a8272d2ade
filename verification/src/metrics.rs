//! Evaluation metrics for class predictions and for predicted directions.
//!
//! Every rate is returned as an exact [`Ratio`] of two counts; the floating-point
//! value of a rate is `numerator as f64 / denominator as f64`.
use vstd::prelude::*;

use crate::counting::{
    count_upto, keyed, keyed_below, lemma_count_upto_agree, lemma_count_upto_all, lemma_count_upto_bounded, lemma_count_upto_implies,
    lemma_count_upto_prefix, lemma_count_upto_step, lemma_count_upto_zero, lemma_sum_keyed_counts, sum_keyed_counts,
};

verus! {

/// An exact rate `numerator / denominator`.
#[derive(Clone, Copy, Debug, PartialEq, Eq, Structural)]
pub struct Ratio {
    pub numerator: usize,
    pub denominator: usize,
}

impl Ratio {
    /// The rate of an empty or undefined measurement: `0 / 1`.
    pub open spec fn spec_zero() -> Ratio {
        Ratio { numerator: 0, denominator: 1 }
    }

    /// A proper rate: a fraction in `[0, 1]` with a positive denominator.
    pub open spec fn is_proper(self) -> bool {
        &&& 0 < self.denominator
        &&& self.numerator <= self.denominator
    }
}

/// The sign of a real value as the metrics read it; `Unordered` stands for a
/// value that is not comparable with zero (NaN).
#[derive(Clone, Copy, Debug, PartialEq, Eq, Structural)]
pub enum Sign {
    Negative,
    Zero,
    Positive,
    Unordered,
}

/// The prediction at `i` equals the target at `i`.
pub open spec fn label_match(predictions: Seq<usize>, targets: Seq<usize>) -> spec_fn(int) -> bool {
    |i: int| predictions[i] == targets[i]
}

/// Both the prediction and the target at `i` are `class`.
pub open spec fn true_positive(predictions: Seq<usize>, targets: Seq<usize>, class: usize) -> spec_fn(int) -> bool {
    |i: int| predictions[i] == class && targets[i] == class
}

/// The label at `i` is `class`.
pub open spec fn label_is(labels: Seq<usize>, class: usize) -> spec_fn(int) -> bool {
    |i: int| labels[i] == class
}

/// The target at `i` is `target` and the prediction at `i` is `predicted`.
pub open spec fn pair_is(predictions: Seq<usize>, targets: Seq<usize>, target: int, predicted: int) -> spec_fn(int) -> bool {
    |i: int| targets[i] == target && predictions[i] == predicted
}

/// The predicted sign at `i` equals the actual sign at `i`, both positive,
/// both negative or both zero.
pub open spec fn same_direction(predictions: Seq<Sign>, targets: Seq<Sign>) -> spec_fn(int) -> bool {
    |i: int| {
        ||| (predictions[i] == Sign::Positive && targets[i] == Sign::Positive)
        ||| (predictions[i] == Sign::Negative && targets[i] == Sign::Negative)
        ||| (predictions[i] == Sign::Zero && targets[i] == Sign::Zero)
    }
}

/// The signal at `i` is a trade whose direction agrees with the sign of the return at `i`.
pub open spec fn profitable_signal(signals: Seq<i32>, outcomes: Seq<Sign>) -> spec_fn(int) -> bool {
    |i: int| {
        ||| (signals[i] > 0 && outcomes[i] == Sign::Positive)
        ||| (signals[i] < 0 && outcomes[i] == Sign::Negative)
    }
}

/// The signal at `i` is a trade (not hold).
pub open spec fn is_trade(signals: Seq<i32>) -> spec_fn(int) -> bool {
    |i: int| signals[i] != 0
}

/// The sign as a number: `1` positive, `-1` negative, `0` zero; an unordered value
/// is neither above nor below zero and counts as `0`.
pub open spec fn sign_value(s: Sign) -> int {
    match s {
        Sign::Positive => 1,
        Sign::Negative => -1,
        Sign::Zero => 0,
        Sign::Unordered => 0,
    }
}

/// The signal at `i` times the sign of the return at `i` is positive.
pub open spec fn positive_product(signals: Seq<i32>, outcomes: Seq<Sign>) -> spec_fn(int) -> bool {
    |i: int| signals[i] * sign_value(outcomes[i]) > 0
}

/// Prediction and target at `i` have the same sign, and it is an ordered one.
pub open spec fn equal_ordered_sign(predictions: Seq<Sign>, targets: Seq<Sign>) -> spec_fn(int) -> bool {
    |i: int| predictions[i] == targets[i] && predictions[i] != Sign::Unordered
}

/// A signal is a hit exactly when the signal times the return is positive: a long
/// on a rise or a short on a fall; a flat or unordered return is never a hit.
pub proof fn lemma_hit_is_positive_product(signals: Seq<i32>, outcomes: Seq<Sign>, n: int)
    requires
        n <= signals.len(),
        n <= outcomes.len(),
    ensures
        count_upto(n, profitable_signal(signals, outcomes)) == count_upto(n, positive_product(signals, outcomes)),
        forall|i: int|
            0 <= i < n ==> (#[trigger] profitable_signal(signals, outcomes)(i) <==> signals[i] * sign_value(outcomes[i]) > 0),
{
    assert forall|i: int| 0 <= i < n implies #[trigger] profitable_signal(signals, outcomes)(i) == positive_product(
        signals,
        outcomes,
    )(i) by {
        let s = signals[i] as int;
        match outcomes[i] {
            Sign::Positive => {
                assert(s * 1 == s);
            },
            Sign::Negative => {
                assert(s * -1 == -s);
            },
            _ => {
                assert(s * 0 == 0);
            },
        }
    }
    lemma_count_upto_agree(n, profitable_signal(signals, outcomes), positive_product(signals, outcomes));
}

/// A position agrees in direction exactly when prediction and target have the same
/// sign and that sign is ordered: a positive prediction never agrees with a
/// negative or zero target.
pub proof fn lemma_direction_agreement_is_equal_sign(predictions: Seq<Sign>, targets: Seq<Sign>, n: int)
    requires
        n <= predictions.len(),
        n <= targets.len(),
    ensures
        count_upto(n, same_direction(predictions, targets)) == count_upto(n, equal_ordered_sign(predictions, targets)),
        forall|i: int|
            0 <= i < n ==> (#[trigger] same_direction(predictions, targets)(i) <==> (predictions[i] == targets[i]
                && predictions[i] != Sign::Unordered)),
{
    assert forall|i: int| 0 <= i < n implies #[trigger] same_direction(predictions, targets)(i) == equal_ordered_sign(
        predictions,
        targets,
    )(i) by {}
    lemma_count_upto_agree(n, same_direction(predictions, targets), equal_ordered_sign(predictions, targets));
}

/// The smaller of two lengths.
pub open spec fn min_len(a: int, b: int) -> int {
    if a <= b { a } else { b }
}

/// Position of the cell `(row, column)` in a row-major `n`-by-`n` table.
pub open spec fn flat_index(n: int, row: int, column: int) -> int {
    row * n + column
}

/// Cells of an `n`-by-`n` table lie inside its `n * n` entries.
pub proof fn lemma_flat_index_bounds(n: int, row: int, column: int)
    requires
        0 <= row < n,
        0 <= column < n,
    ensures
        0 <= flat_index(n, row, column) < n * n,
{
    assert(0 <= row * n + column < n * n) by (nonlinear_arith)
        requires
            0 <= row < n,
            0 <= column < n,
    ;
}

/// Distinct cells of an `n`-by-`n` table have distinct positions.
pub proof fn lemma_flat_index_injective(n: int, r1: int, c1: int, r2: int, c2: int)
    requires
        0 <= r1 < n,
        0 <= c1 < n,
        0 <= r2 < n,
        0 <= c2 < n,
        flat_index(n, r1, c1) == flat_index(n, r2, c2),
    ensures
        r1 == r2,
        c1 == c2,
{
    if r1 < r2 {
        assert(r1 * n + c1 < r2 * n + c2) by (nonlinear_arith)
            requires
                0 <= r1 < r2,
                0 <= c1 < n,
                0 <= c2,
        ;
    } else if r2 < r1 {
        assert(r2 * n + c2 < r1 * n + c1) by (nonlinear_arith)
            requires
                0 <= r2 < r1,
                0 <= c2 < n,
                0 <= c1,
        ;
    }
}

/// Counts of (target, predicted) class pairs: row `t`, column `p` holds how many
/// positions have target `t` and prediction `p`.
pub struct ConfusionMatrix {
    num_classes: usize,
    counts: Vec<usize>,
}

impl ConfusionMatrix {
    #[verifier::type_invariant]
    spec fn well_formed(self) -> bool {
        self.counts.len() == self.num_classes * self.num_classes
    }

    /// Number of classes: the matrix has this many rows and columns.
    pub closed spec fn classes(self) -> nat {
        self.num_classes as nat
    }

    /// The count in row `target`, column `predicted`.
    pub closed spec fn cell(self, target: int, predicted: int) -> nat {
        self.counts@[flat_index(self.num_classes as int, target, predicted)] as nat
    }

    /// Number of classes.
    pub fn num_classes(&self) -> (r: usize)
        ensures
            r == self.classes(),
    {
        self.num_classes
    }

    /// The count of positions with true class `target` predicted as `predicted`.
    pub fn get(&self, target: usize, predicted: usize) -> (r: usize)
        requires
            target < self.classes(),
            predicted < self.classes(),
        ensures
            r == self.cell(target as int, predicted as int),
    {
        proof {
            use_type_invariant(self);
            lemma_flat_index_bounds(self.num_classes as int, target as int, predicted as int);
        }
        self.counts[target * self.num_classes + predicted]
    }
}

/// Metrics calculator for model evaluation.
pub struct Metrics;

impl Metrics {
    /// Accuracy: the fraction of positions where the prediction equals the target.
    /// Inputs of different lengths, or empty inputs, give `0 / 1`.
    pub fn accuracy(predictions: &Vec<usize>, targets: &Vec<usize>) -> (r: Ratio)
        ensures
            r.is_proper(),
            predictions.len() != targets.len() || predictions.len() == 0 ==> r == Ratio::spec_zero(),
            predictions.len() == targets.len() && predictions.len() > 0 ==> r == (Ratio {
                numerator: count_upto(predictions.len() as int, label_match(predictions@, targets@)) as usize,
                denominator: predictions.len(),
            }),
    {
        if predictions.len() != targets.len() || predictions.len() == 0 {
            return Ratio { numerator: 0, denominator: 1 };
        }
        let n = predictions.len();
        let ghost f = label_match(predictions@, targets@);
        let mut correct: usize = 0;
        proof {
            lemma_count_upto_zero(f);
        }
        let mut i: usize = 0;
        while i < n
            invariant
                n == predictions.len(),
                n == targets.len(),
                i <= n,
                f == label_match(predictions@, targets@),
                correct == count_upto(i as int, f),
            decreases n - i,
        {
            proof {
                lemma_count_upto_bounded(i as int, f);
                lemma_count_upto_step(i as int, f);
            }
            if predictions[i] == targets[i] {
                correct = correct + 1;
            }
            i = i + 1;
        }
        proof {
            lemma_count_upto_bounded(n as int, f);
        }
        Ratio { numerator: correct, denominator: n }
    }

    /// Precision for `class`: among the positions where `class` is predicted, the
    /// fraction where the target is `class` too. True positives are counted over the
    /// positions both inputs have; predicted positives over all predictions. No
    /// predicted positive gives `0 / 1`.
    pub fn precision(predictions: &Vec<usize>, targets: &Vec<usize>, class: usize) -> (r: Ratio)
        ensures
            r.is_proper(),
            ({
                let tp = count_upto(min_len(predictions.len() as int, targets.len() as int), true_positive(predictions@, targets@, class));
                let pp = count_upto(predictions.len() as int, label_is(predictions@, class));
                &&& pp == 0 ==> r == Ratio::spec_zero()
                &&& pp > 0 ==> r == (Ratio { numerator: tp as usize, denominator: pp as usize })
            }),
    {
        let tp = Self::count_true_positives(predictions, targets, class);
        let pp = Self::count_label(predictions, class);
        proof {
            let m = min_len(predictions.len() as int, targets.len() as int);
            lemma_count_upto_implies(m, true_positive(predictions@, targets@, class), label_is(predictions@, class));
            lemma_count_upto_prefix(m, predictions.len() as int, label_is(predictions@, class));
        }
        if pp == 0 {
            Ratio { numerator: 0, denominator: 1 }
        } else {
            Ratio { numerator: tp, denominator: pp }
        }
    }

    /// Recall for `class`: among the positions whose target is `class`, the fraction
    /// where `class` is predicted too. True positives are counted over the positions
    /// both inputs have; actual positives over all targets. No actual positive gives `0 / 1`.
    pub fn recall(predictions: &Vec<usize>, targets: &Vec<usize>, class: usize) -> (r: Ratio)
        ensures
            r.is_proper(),
            ({
                let tp = count_upto(min_len(predictions.len() as int, targets.len() as int), true_positive(predictions@, targets@, class));
                let ap = count_upto(targets.len() as int, label_is(targets@, class));
                &&& ap == 0 ==> r == Ratio::spec_zero()
                &&& ap > 0 ==> r == (Ratio { numerator: tp as usize, denominator: ap as usize })
            }),
    {
        let tp = Self::count_true_positives(predictions, targets, class);
        let ap = Self::count_label(targets, class);
        proof {
            let m = min_len(predictions.len() as int, targets.len() as int);
            lemma_count_upto_implies(m, true_positive(predictions@, targets@, class), label_is(targets@, class));
            lemma_count_upto_prefix(m, targets.len() as int, label_is(targets@, class));
        }
        if ap == 0 {
            Ratio { numerator: 0, denominator: 1 }
        } else {
            Ratio { numerator: tp, denominator: ap }
        }
    }

    /// Confusion matrix over `num_classes` classes: row is the true class, column the
    /// predicted class. Positions both inputs have are counted; a position whose
    /// prediction or target is not below `num_classes` is left out.
    pub fn confusion_matrix(predictions: &Vec<usize>, targets: &Vec<usize>, num_classes: usize) -> (r: ConfusionMatrix)
        requires
            num_classes * num_classes <= usize::MAX,
        ensures
            is_confusion_matrix_of(r, predictions@, targets@, num_classes as int),
    {
        let n = num_classes;
        let size = n * n;
        let mut counts: Vec<usize> = Vec::new();
        let mut j: usize = 0;
        while j < size
            invariant
                size == n * n,
                j <= size,
                counts.len() == j,
                forall|k: int| 0 <= k < j ==> counts@[k] == 0,
            decreases size - j,
        {
            counts.push(0);
            j = j + 1;
        }
        let m = if predictions.len() <= targets.len() { predictions.len() } else { targets.len() };
        proof {
            assert forall|t: int, p: int| 0 <= t < n && 0 <= p < n implies #[trigger] counts@[flat_index(n as int, t, p)]
                == count_upto(0, pair_is(predictions@, targets@, t, p)) by {
                lemma_flat_index_bounds(n as int, t, p);
                lemma_count_upto_zero(pair_is(predictions@, targets@, t, p));
            }
        }
        let mut i: usize = 0;
        while i < m
            invariant
                m == min_len(predictions.len() as int, targets.len() as int),
                i <= m,
                counts.len() == n * n,
                forall|t: int, p: int|
                    0 <= t < n && 0 <= p < n ==> #[trigger] counts@[flat_index(n as int, t, p)] == count_upto(
                        i as int,
                        pair_is(predictions@, targets@, t, p),
                    ),
            decreases m - i,
        {
            let tg = targets[i];
            let pr = predictions[i];
            let ghost before = counts@;
            if pr < n && tg < n {
                proof {
                    lemma_flat_index_bounds(n as int, tg as int, pr as int);
                    lemma_count_upto_bounded(i as int, pair_is(predictions@, targets@, tg as int, pr as int));
                }
                let idx = tg * n + pr;
                let c = counts[idx];
                counts.set(idx, c + 1);
            }
            proof {
                assert forall|t: int, p: int| 0 <= t < n && 0 <= p < n implies #[trigger] counts@[flat_index(n as int, t, p)]
                    == count_upto(i + 1, pair_is(predictions@, targets@, t, p)) by {
                    lemma_flat_index_bounds(n as int, t, p);
                    lemma_count_upto_step(i as int, pair_is(predictions@, targets@, t, p));
                    assert(before[flat_index(n as int, t, p)] == count_upto(i as int, pair_is(predictions@, targets@, t, p)));
                    if pr < n && tg < n && flat_index(n as int, t, p) == flat_index(n as int, tg as int, pr as int) {
                        lemma_flat_index_injective(n as int, t, p, tg as int, pr as int);
                    }
                }
            }
            i = i + 1;
        }
        ConfusionMatrix { num_classes: n, counts }
    }

    /// Direction accuracy: the fraction of positions where the predicted sign equals
    /// the actual sign (both positive, both negative or both zero; an unordered value
    /// never agrees). Inputs of different lengths, or empty inputs, give `0 / 1`.
    pub fn direction_accuracy(predictions: &Vec<Sign>, targets: &Vec<Sign>) -> (r: Ratio)
        ensures
            r.is_proper(),
            predictions.len() != targets.len() || predictions.len() == 0 ==> r == Ratio::spec_zero(),
            predictions.len() == targets.len() && predictions.len() > 0 ==> r == (Ratio {
                numerator: count_upto(predictions.len() as int, same_direction(predictions@, targets@)) as usize,
                denominator: predictions.len(),
            }),
            predictions.len() == targets.len() && predictions.len() > 0 ==> r.numerator == count_upto(
                predictions.len() as int,
                equal_ordered_sign(predictions@, targets@),
            ),
    {
        proof {
            if predictions.len() == targets.len() {
                lemma_direction_agreement_is_equal_sign(predictions@, targets@, predictions.len() as int);
            }
        }
        if predictions.len() != targets.len() || predictions.len() == 0 {
            return Ratio { numerator: 0, denominator: 1 };
        }
        let n = predictions.len();
        let ghost f = same_direction(predictions@, targets@);
        let mut correct: usize = 0;
        proof {
            lemma_count_upto_zero(f);
        }
        let mut i: usize = 0;
        while i < n
            invariant
                n == predictions.len(),
                n == targets.len(),
                i <= n,
                f == same_direction(predictions@, targets@),
                correct == count_upto(i as int, f),
            decreases n - i,
        {
            proof {
                lemma_count_upto_bounded(i as int, f);
                lemma_count_upto_step(i as int, f);
            }
            let hit = match (predictions[i], targets[i]) {
                (Sign::Positive, Sign::Positive) => true,
                (Sign::Negative, Sign::Negative) => true,
                (Sign::Zero, Sign::Zero) => true,
                _ => false,
            };
            if hit {
                correct = correct + 1;
            }
            i = i + 1;
        }
        proof {
            lemma_count_upto_bounded(n as int, f);
        }
        Ratio { numerator: correct, denominator: n }
    }

    /// Hit rate: among the positions whose signal is a trade (non-zero), the fraction
    /// where the signal's direction agrees with the sign of the return. Inputs of
    /// different lengths, empty inputs, or no trade give `0 / 1`.
    pub fn hit_rate(signals: &Vec<i32>, outcomes: &Vec<Sign>) -> (r: Ratio)
        ensures
            r.is_proper(),
            ({
                let hits = count_upto(signals.len() as int, profitable_signal(signals@, outcomes@));
                let trades = count_upto(signals.len() as int, is_trade(signals@));
                &&& (signals.len() != outcomes.len() || signals.len() == 0 || trades == 0) ==> r == Ratio::spec_zero()
                &&& (signals.len() == outcomes.len() && trades > 0) ==> r == (Ratio {
                    numerator: hits as usize,
                    denominator: trades as usize,
                })
            }),
            signals.len() == outcomes.len() ==> r.numerator == count_upto(
                signals.len() as int,
                positive_product(signals@, outcomes@),
            ),
    {
        proof {
            if signals.len() == outcomes.len() {
                lemma_hit_is_positive_product(signals@, outcomes@, signals.len() as int);
            }
        }
        if signals.len() != outcomes.len() || signals.len() == 0 {
            proof {
                lemma_count_upto_zero(is_trade(signals@));
                lemma_count_upto_zero(positive_product(signals@, outcomes@));
            }
            return Ratio { numerator: 0, denominator: 1 };
        }
        let n = signals.len();
        let ghost f = profitable_signal(signals@, outcomes@);
        let ghost g = is_trade(signals@);
        let mut hits: usize = 0;
        let mut trades: usize = 0;
        proof {
            lemma_count_upto_zero(f);
            lemma_count_upto_zero(g);
        }
        let mut i: usize = 0;
        while i < n
            invariant
                n == signals.len(),
                n == outcomes.len(),
                i <= n,
                f == profitable_signal(signals@, outcomes@),
                g == is_trade(signals@),
                hits == count_upto(i as int, f),
                trades == count_upto(i as int, g),
            decreases n - i,
        {
            proof {
                lemma_count_upto_bounded(i as int, f);
                lemma_count_upto_bounded(i as int, g);
                lemma_count_upto_step(i as int, f);
                lemma_count_upto_step(i as int, g);
            }
            let s = signals[i];
            let hit = match outcomes[i] {
                Sign::Positive => s > 0,
                Sign::Negative => s < 0,
                _ => false,
            };
            if hit {
                hits = hits + 1;
            }
            if s != 0 {
                trades = trades + 1;
            }
            i = i + 1;
        }
        proof {
            lemma_count_upto_implies(n as int, f, g);
        }
        if trades == 0 {
            Ratio { numerator: 0, denominator: 1 }
        } else {
            Ratio { numerator: hits, denominator: trades }
        }
    }

    /// Positions, among those both inputs have, where prediction and target are both `class`.
    fn count_true_positives(predictions: &Vec<usize>, targets: &Vec<usize>, class: usize) -> (r: usize)
        ensures
            r == count_upto(min_len(predictions.len() as int, targets.len() as int), true_positive(predictions@, targets@, class)),
    {
        let n = if predictions.len() <= targets.len() { predictions.len() } else { targets.len() };
        let ghost f = true_positive(predictions@, targets@, class);
        let mut count: usize = 0;
        proof {
            lemma_count_upto_zero(f);
        }
        let mut i: usize = 0;
        while i < n
            invariant
                n == min_len(predictions.len() as int, targets.len() as int),
                i <= n,
                f == true_positive(predictions@, targets@, class),
                count == count_upto(i as int, f),
            decreases n - i,
        {
            proof {
                lemma_count_upto_bounded(i as int, f);
                lemma_count_upto_step(i as int, f);
            }
            if predictions[i] == class && targets[i] == class {
                count = count + 1;
            }
            i = i + 1;
        }
        count
    }

    /// Positions of `labels` that hold `class`.
    fn count_label(labels: &Vec<usize>, class: usize) -> (r: usize)
        ensures
            r == count_upto(labels.len() as int, label_is(labels@, class)),
    {
        let n = labels.len();
        let ghost f = label_is(labels@, class);
        let mut count: usize = 0;
        proof {
            lemma_count_upto_zero(f);
        }
        let mut i: usize = 0;
        while i < n
            invariant
                n == labels.len(),
                i <= n,
                f == label_is(labels@, class),
                count == count_upto(i as int, f),
            decreases n - i,
        {
            proof {
                lemma_count_upto_bounded(i as int, f);
                lemma_count_upto_step(i as int, f);
            }
            if labels[i] == class {
                count = count + 1;
            }
            i = i + 1;
        }
        count
    }
}

/// `cm` is the confusion matrix of `predictions` against `targets` over `num_classes` classes.
pub open spec fn is_confusion_matrix_of(cm: ConfusionMatrix, predictions: Seq<usize>, targets: Seq<usize>, num_classes: int) -> bool {
    &&& cm.classes() == num_classes
    &&& forall|t: int, p: int|
        0 <= t < num_classes && 0 <= p < num_classes ==> #[trigger] cm.cell(t, p) == count_upto(
            min_len(predictions.len() as int, targets.len() as int),
            pair_is(predictions, targets, t, p),
        )
}

/// Sum of the first `k` cells of row `target`.
#[verifier::opaque]
pub open spec fn row_total(cm: ConfusionMatrix, target: int, k: int) -> nat
    decreases k,
{
    if k <= 0 {
        0
    } else {
        row_total(cm, target, k - 1) + cm.cell(target, k - 1)
    }
}

/// Sum of the first `k` cells of column `predicted`.
#[verifier::opaque]
pub open spec fn column_total(cm: ConfusionMatrix, predicted: int, k: int) -> nat
    decreases k,
{
    if k <= 0 {
        0
    } else {
        column_total(cm, predicted, k - 1) + cm.cell(k - 1, predicted)
    }
}

/// Sum of the first `k` diagonal cells.
#[verifier::opaque]
pub open spec fn trace(cm: ConfusionMatrix, k: int) -> nat
    decreases k,
{
    if k <= 0 {
        0
    } else {
        trace(cm, k - 1) + cm.cell(k - 1, k - 1)
    }
}

/// The label at `i`, as an integer.
pub open spec fn label_at(labels: Seq<usize>) -> spec_fn(int) -> int {
    |i: int| labels[i] as int
}

/// The diagonal cell of a class is the true-positive count of that class, the
/// numerator of both its precision and its recall.
pub proof fn lemma_confusion_diagonal(cm: ConfusionMatrix, predictions: Seq<usize>, targets: Seq<usize>, num_classes: int, class: usize)
    requires
        is_confusion_matrix_of(cm, predictions, targets, num_classes),
        class < num_classes,
    ensures
        cm.cell(class as int, class as int) == count_upto(
            min_len(predictions.len() as int, targets.len() as int),
            true_positive(predictions, targets, class),
        ),
{
    let m = min_len(predictions.len() as int, targets.len() as int);
    assert(cm.cell(class as int, class as int) == count_upto(m, pair_is(predictions, targets, class as int, class as int)));
    lemma_count_upto_agree(m, pair_is(predictions, targets, class as int, class as int), true_positive(predictions, targets, class));
}

/// When predictions and targets have the same length and every prediction is a
/// class of the matrix, the row of class `target` adds up to the number of targets
/// equal to `target`: the denominator of the recall of `target`.
pub proof fn lemma_confusion_row_total(cm: ConfusionMatrix, predictions: Seq<usize>, targets: Seq<usize>, num_classes: int, target: usize)
    requires
        is_confusion_matrix_of(cm, predictions, targets, num_classes),
        predictions.len() == targets.len(),
        forall|i: int| 0 <= i < predictions.len() ==> #[trigger] predictions[i] < num_classes,
        target < num_classes,
    ensures
        row_total(cm, target as int, num_classes) == count_upto(targets.len() as int, label_is(targets, target)),
{
    let m = targets.len() as int;
    let cond = label_is(targets, target);
    let key = label_at(predictions);
    lemma_row_partial(cm, predictions, targets, num_classes, target, num_classes);
    lemma_sum_keyed_counts(m, cond, key, num_classes);
    lemma_all_keys_below(m, cond, predictions, num_classes);
}

proof fn lemma_row_partial(cm: ConfusionMatrix, predictions: Seq<usize>, targets: Seq<usize>, num_classes: int, target: usize, k: int)
    requires
        is_confusion_matrix_of(cm, predictions, targets, num_classes),
        target < num_classes,
        0 <= k <= num_classes,
    ensures
        row_total(cm, target as int, k) == sum_keyed_counts(
            min_len(predictions.len() as int, targets.len() as int),
            label_is(targets, target),
            label_at(predictions),
            k,
        ),
    decreases k,
{
    reveal(row_total);
    reveal(sum_keyed_counts);
    if k > 0 {
        let m = min_len(predictions.len() as int, targets.len() as int);
        lemma_row_partial(cm, predictions, targets, num_classes, target, k - 1);
        assert(cm.cell(target as int, k - 1) == count_upto(m, pair_is(predictions, targets, target as int, k - 1)));
        lemma_count_upto_agree(
            m,
            pair_is(predictions, targets, target as int, k - 1),
            keyed(label_is(targets, target), label_at(predictions), k - 1),
        );
    }
}

/// When predictions and targets have the same length and every target is a class
/// of the matrix, the column of class `predicted` adds up to the number of
/// predictions equal to `predicted`: the denominator of the precision of `predicted`.
pub proof fn lemma_confusion_column_total(cm: ConfusionMatrix, predictions: Seq<usize>, targets: Seq<usize>, num_classes: int, predicted: usize)
    requires
        is_confusion_matrix_of(cm, predictions, targets, num_classes),
        predictions.len() == targets.len(),
        forall|i: int| 0 <= i < targets.len() ==> #[trigger] targets[i] < num_classes,
        predicted < num_classes,
    ensures
        column_total(cm, predicted as int, num_classes) == count_upto(predictions.len() as int, label_is(predictions, predicted)),
{
    let m = predictions.len() as int;
    let cond = label_is(predictions, predicted);
    let key = label_at(targets);
    lemma_column_partial(cm, predictions, targets, num_classes, predicted, num_classes);
    lemma_sum_keyed_counts(m, cond, key, num_classes);
    lemma_all_keys_below(m, cond, targets, num_classes);
}

proof fn lemma_column_partial(cm: ConfusionMatrix, predictions: Seq<usize>, targets: Seq<usize>, num_classes: int, predicted: usize, k: int)
    requires
        is_confusion_matrix_of(cm, predictions, targets, num_classes),
        predicted < num_classes,
        0 <= k <= num_classes,
    ensures
        column_total(cm, predicted as int, k) == sum_keyed_counts(
            min_len(predictions.len() as int, targets.len() as int),
            label_is(predictions, predicted),
            label_at(targets),
            k,
        ),
    decreases k,
{
    reveal(column_total);
    reveal(sum_keyed_counts);
    if k > 0 {
        let m = min_len(predictions.len() as int, targets.len() as int);
        lemma_column_partial(cm, predictions, targets, num_classes, predicted, k - 1);
        assert(cm.cell(k - 1, predicted as int) == count_upto(m, pair_is(predictions, targets, k - 1, predicted as int)));
        lemma_count_upto_agree(
            m,
            pair_is(predictions, targets, k - 1, predicted as int),
            keyed(label_is(predictions, predicted), label_at(targets), k - 1),
        );
    }
}

/// When predictions and targets have the same length and every target is a class
/// of the matrix, the diagonal adds up to the number of correct predictions: the
/// numerator of the accuracy.
pub proof fn lemma_confusion_trace(cm: ConfusionMatrix, predictions: Seq<usize>, targets: Seq<usize>, num_classes: int)
    requires
        is_confusion_matrix_of(cm, predictions, targets, num_classes),
        predictions.len() == targets.len(),
        forall|i: int| 0 <= i < targets.len() ==> #[trigger] targets[i] < num_classes,
        0 <= num_classes,
    ensures
        trace(cm, num_classes) == count_upto(predictions.len() as int, label_match(predictions, targets)),
{
    let m = predictions.len() as int;
    let cond = label_match(predictions, targets);
    let key = label_at(targets);
    lemma_trace_partial(cm, predictions, targets, num_classes, num_classes);
    lemma_sum_keyed_counts(m, cond, key, num_classes);
    lemma_all_keys_below(m, cond, targets, num_classes);
}

proof fn lemma_trace_partial(cm: ConfusionMatrix, predictions: Seq<usize>, targets: Seq<usize>, num_classes: int, k: int)
    requires
        is_confusion_matrix_of(cm, predictions, targets, num_classes),
        0 <= k <= num_classes,
    ensures
        trace(cm, k) == sum_keyed_counts(
            min_len(predictions.len() as int, targets.len() as int),
            label_match(predictions, targets),
            label_at(targets),
            k,
        ),
    decreases k,
{
    reveal(trace);
    reveal(sum_keyed_counts);
    if k > 0 {
        let m = min_len(predictions.len() as int, targets.len() as int);
        lemma_trace_partial(cm, predictions, targets, num_classes, k - 1);
        assert(cm.cell(k - 1, k - 1) == count_upto(m, pair_is(predictions, targets, k - 1, k - 1)));
        lemma_count_upto_agree(
            m,
            pair_is(predictions, targets, k - 1, k - 1),
            keyed(label_match(predictions, targets), label_at(targets), k - 1),
        );
    }
}

proof fn lemma_all_keys_below(n: int, cond: spec_fn(int) -> bool, labels: Seq<usize>, num_classes: int)
    requires
        n <= labels.len(),
        forall|i: int| 0 <= i < labels.len() ==> #[trigger] labels[i] < num_classes,
    ensures
        count_upto(n, keyed_below(cond, label_at(labels), num_classes)) == count_upto(n, cond),
{
    let below = keyed_below(cond, label_at(labels), num_classes);
    assert forall|i: int| 0 <= i < n implies #[trigger] below(i) == cond(i) by {
        assert(labels[i] < num_classes);
    }
    lemma_count_upto_agree(n, below, cond);
}

/// Predictions equal to their targets are all correct: accuracy `n / n`; and for
/// every class, the true positives are exactly the positions labelled with it, so
/// precision and recall share their numerator with their denominators.
pub proof fn lemma_perfect_predictions(labels: Seq<usize>, class: usize)
    ensures
        count_upto(labels.len() as int, label_match(labels, labels)) == labels.len(),
        count_upto(labels.len() as int, true_positive(labels, labels, class)) == count_upto(
            labels.len() as int,
            label_is(labels, class),
        ),
{
    let n = labels.len() as int;
    assert forall|i: int| 0 <= i < n implies #[trigger] label_match(labels, labels)(i) by {}
    lemma_count_upto_all(n, label_match(labels, labels));
    assert forall|i: int| 0 <= i < n implies #[trigger] true_positive(labels, labels, class)(i) == label_is(labels, class)(i) by {}
    lemma_count_upto_agree(n, true_positive(labels, labels, class), label_is(labels, class));
}

} // verus!
