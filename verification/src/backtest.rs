//! Trade statistics of a backtest: counts, win and loss streaks and durations.
use vstd::prelude::*;

use crate::counting::{count_upto, lemma_count_upto_nonpositive, lemma_count_upto_prefix, lemma_count_upto_step, lemma_count_upto_zero};

verus! {

/// What the statistics read of a closed trade: its entry and exit times in
/// milliseconds and whether it made a profit.
#[derive(Clone, Copy, Debug, PartialEq, Eq, Structural)]
pub struct TradeRecord {
    pub entry_time: i64,
    pub exit_time: i64,
    pub is_win: bool,
}

/// Positions `start..end` of `trades` all have outcome `win`.
pub open spec fn is_streak(trades: Seq<TradeRecord>, win: bool, start: int, end: int) -> bool {
    &&& 0 <= start <= end <= trades.len()
    &&& forall|i: int| start <= i < end ==> #[trigger] trades[i].is_win == win
}

/// `len` is the length of the longest run of consecutive trades with outcome `win`.
pub open spec fn is_longest_streak(trades: Seq<TradeRecord>, win: bool, len: int) -> bool {
    &&& exists|a: int| #[trigger] is_streak(trades, win, a, a + len)
    &&& forall|a: int, b: int| #[trigger] is_streak(trades, win, a, b) ==> b - a <= len
}

/// Longest run of consecutive wins and longest run of consecutive losses.
pub fn calculate_streaks(trades: &Vec<TradeRecord>) -> (r: (usize, usize))
    ensures
        is_longest_streak(trades@, true, r.0 as int),
        is_longest_streak(trades@, false, r.1 as int),
{
    let n = trades.len();
    let mut max_wins: usize = 0;
    let mut max_losses: usize = 0;
    let mut current_wins: usize = 0;
    let mut current_losses: usize = 0;
    let mut k: usize = 0;
    proof {
        assert(is_streak(trades@, true, 0, 0 + max_wins));
        assert(is_streak(trades@, false, 0, 0 + max_losses));
    }
    while k < n
        invariant
            n == trades.len(),
            k <= n,
            current_wins <= max_wins <= k,
            current_losses <= max_losses <= k,
            is_streak(trades@, true, k - current_wins, k as int),
            current_wins < k ==> !trades@[k - current_wins - 1].is_win,
            is_streak(trades@, false, k - current_losses, k as int),
            current_losses < k ==> trades@[k - current_losses - 1].is_win,
            exists|a: int| a + max_wins <= k && #[trigger] is_streak(trades@, true, a, a + max_wins),
            exists|a: int| a + max_losses <= k && #[trigger] is_streak(trades@, false, a, a + max_losses),
            forall|a: int, b: int| b <= k && #[trigger] is_streak(trades@, true, a, b) ==> b - a <= max_wins,
            forall|a: int, b: int| b <= k && #[trigger] is_streak(trades@, false, a, b) ==> b - a <= max_losses,
        decreases n - k,
    {
        let ghost old_wins = current_wins;
        let ghost old_losses = current_losses;
        let ghost old_max_wins = max_wins;
        let ghost old_max_losses = max_losses;
        let win = trades[k].is_win;
        if win {
            current_wins = current_wins + 1;
            current_losses = 0;
            if current_wins > max_wins {
                max_wins = current_wins;
            }
        } else {
            current_losses = current_losses + 1;
            current_wins = 0;
            if current_losses > max_losses {
                max_losses = current_losses;
            }
        }
        proof {
            let k1 = k + 1;
            assert(is_streak(trades@, true, k1 - current_wins, k1));
            assert(is_streak(trades@, false, k1 - current_losses, k1));
            if win {
                let a0 = choose|a: int| a + old_max_losses <= k && #[trigger] is_streak(trades@, false, a, a + old_max_losses);
                assert(is_streak(trades@, false, a0, a0 + max_losses));
                if current_wins > old_max_wins {
                    assert(is_streak(trades@, true, k1 - current_wins, (k1 - current_wins) + max_wins));
                } else {
                    let a1 = choose|a: int| a + old_max_wins <= k && #[trigger] is_streak(trades@, true, a, a + old_max_wins);
                    assert(is_streak(trades@, true, a1, a1 + max_wins));
                }
            } else {
                let a0 = choose|a: int| a + old_max_wins <= k && #[trigger] is_streak(trades@, true, a, a + old_max_wins);
                assert(is_streak(trades@, true, a0, a0 + max_wins));
                if current_losses > old_max_losses {
                    assert(is_streak(trades@, false, k1 - current_losses, (k1 - current_losses) + max_losses));
                } else {
                    let a1 = choose|a: int| a + old_max_losses <= k && #[trigger] is_streak(trades@, false, a, a + old_max_losses);
                    assert(is_streak(trades@, false, a1, a1 + max_losses));
                }
            }
            assert forall|a: int, b: int| b <= k1 && #[trigger] is_streak(trades@, true, a, b) implies b - a <= max_wins by {
                if b == k1 && a < b {
                    assert(trades@[k as int].is_win == true);
                    if a < k1 - current_wins {
                        let j = k - old_wins - 1;
                        assert(a <= j < b);
                        assert(trades@[j].is_win == true);
                    }
                } else if b < k1 {
                    assert(is_streak(trades@, true, a, b));
                }
            }
            assert forall|a: int, b: int| b <= k1 && #[trigger] is_streak(trades@, false, a, b) implies b - a <= max_losses by {
                if b == k1 && a < b {
                    assert(trades@[k as int].is_win == false);
                    if a < k1 - current_losses {
                        let j = k - old_losses - 1;
                        assert(a <= j < b);
                        assert(trades@[j].is_win == false);
                    }
                } else if b < k1 {
                    assert(is_streak(trades@, false, a, b));
                }
            }
        }
        k = k + 1;
    }
    (max_wins, max_losses)
}

impl TradeRecord {
    /// The span from entry to exit in milliseconds, or zero when the exit does not
    /// come after the entry.
    pub open spec fn spec_duration_ms(self) -> int {
        if self.exit_time - self.entry_time > 0 {
            self.exit_time - self.entry_time
        } else {
            0
        }
    }

    /// The span between entry and exit can be taken without overflow.
    pub open spec fn span_fits(self) -> bool {
        i64::MIN <= self.exit_time - self.entry_time <= i64::MAX
    }

    /// Trade duration in milliseconds; an exit at or before the entry gives zero.
    pub fn duration_ms(&self) -> (r: u64)
        requires
            self.span_fits(),
        ensures
            r == self.spec_duration_ms(),
            self.exit_time > self.entry_time ==> r == self.exit_time - self.entry_time,
            self.exit_time <= self.entry_time ==> r == 0,
    {
        let span = self.exit_time - self.entry_time;
        if span > 0 {
            span as u64
        } else {
            0
        }
    }
}

/// The trade at `i` has outcome `win`.
pub open spec fn has_outcome(trades: Seq<TradeRecord>, win: bool) -> spec_fn(int) -> bool {
    |i: int| trades[i].is_win == win
}

/// Sum of the durations of the first `k` trades, in milliseconds.
pub open spec fn total_duration_ms(trades: Seq<TradeRecord>, k: int) -> int
    decreases k,
{
    if k <= 0 {
        0
    } else {
        total_duration_ms(trades, k - 1) + trades[k - 1].spec_duration_ms()
    }
}

/// A trade's duration is the time from entry to exit when the exit comes later,
/// and zero otherwise.
pub proof fn lemma_duration_is_elapsed_time(trade: TradeRecord)
    ensures
        trade.exit_time > trade.entry_time ==> trade.spec_duration_ms() == trade.exit_time - trade.entry_time,
        trade.exit_time <= trade.entry_time ==> trade.spec_duration_ms() == 0,
{
}

/// The total duration of no trades is zero, and each further trade adds the time
/// from its entry to its exit, or nothing when it exits no later than it entered.
pub proof fn lemma_total_duration_adds_elapsed_time(trades: Seq<TradeRecord>, k: int)
    requires
        0 <= k < trades.len(),
    ensures
        total_duration_ms(trades, 0) == 0,
        total_duration_ms(trades, k + 1) == total_duration_ms(trades, k) + if trades[k].exit_time > trades[k].entry_time {
            trades[k].exit_time - trades[k].entry_time
        } else {
            0
        },
{
}

/// Integer statistics of a list of closed trades.
#[derive(Clone, Copy, Debug, PartialEq, Eq, Structural)]
pub struct TradeStatistics {
    /// Total number of trades.
    pub total_trades: usize,
    /// Number of trades that made a profit.
    pub winning_trades: usize,
    /// Number of trades that did not.
    pub losing_trades: usize,
    /// Longest run of consecutive winning trades.
    pub max_consecutive_wins: usize,
    /// Longest run of consecutive losing trades.
    pub max_consecutive_losses: usize,
    /// Sum of the trade durations in milliseconds.
    pub total_duration_ms: u128,
}

/// Counts, streaks and total duration of `trades`.
pub fn trade_statistics(trades: &Vec<TradeRecord>) -> (r: TradeStatistics)
    requires
        forall|i: int| 0 <= i < trades.len() ==> (#[trigger] trades@[i]).span_fits(),
    ensures
        r.total_trades == trades.len(),
        r.winning_trades == count_upto(trades.len() as int, has_outcome(trades@, true)),
        r.losing_trades == count_upto(trades.len() as int, has_outcome(trades@, false)),
        r.winning_trades + r.losing_trades == r.total_trades,
        is_longest_streak(trades@, true, r.max_consecutive_wins as int),
        is_longest_streak(trades@, false, r.max_consecutive_losses as int),
        r.total_duration_ms == total_duration_ms(trades@, trades.len() as int),
{
    let n = trades.len();
    let ghost fw = has_outcome(trades@, true);
    let ghost fl = has_outcome(trades@, false);
    let mut wins: usize = 0;
    let mut losses: usize = 0;
    let mut total: u128 = 0;
    let mut i: usize = 0;
    proof {
        lemma_count_upto_zero(fw);
        lemma_count_upto_zero(fl);
    }
    while i < n
        invariant
            n == trades.len(),
            i <= n,
            forall|j: int| 0 <= j < trades.len() ==> (#[trigger] trades@[j]).span_fits(),
            fw == has_outcome(trades@, true),
            fl == has_outcome(trades@, false),
            wins == count_upto(i as int, fw),
            losses == count_upto(i as int, fl),
            wins + losses == i,
            total == total_duration_ms(trades@, i as int),
            0 <= total_duration_ms(trades@, i as int) <= i * 0x8000_0000_0000_0000,
        decreases n - i,
    {
        proof {
            lemma_count_upto_step(i as int, fw);
            lemma_count_upto_step(i as int, fl);
        }
        let t = trades[i];
        if t.is_win {
            wins = wins + 1;
        } else {
            losses = losses + 1;
        }
        let d = t.duration_ms();
        total = total + d as u128;
        i = i + 1;
    }
    let (max_wins, max_losses) = calculate_streaks(trades);
    TradeStatistics {
        total_trades: n,
        winning_trades: wins,
        losing_trades: losses,
        max_consecutive_wins: max_wins,
        max_consecutive_losses: max_losses,
        total_duration_ms: total,
    }
}

/// Every trade of a streak is counted among the trades with its outcome.
proof fn lemma_streak_counted(trades: Seq<TradeRecord>, win: bool, a: int, b: int)
    requires
        is_streak(trades, win, a, b),
    ensures
        count_upto(b, has_outcome(trades, win)) == count_upto(a, has_outcome(trades, win)) + (b - a),
    decreases b - a,
{
    if a < b {
        assert(is_streak(trades, win, a, b - 1));
        lemma_streak_counted(trades, win, a, b - 1);
        lemma_count_upto_step(b - 1, has_outcome(trades, win));
    }
}

/// The longest streak of an outcome is never longer than the number of trades with
/// that outcome: the longest run of wins is at most the number of winning trades,
/// and likewise for losses.
pub proof fn lemma_streak_at_most_count(trades: Seq<TradeRecord>, win: bool, len: int)
    requires
        is_longest_streak(trades, win, len),
    ensures
        len <= count_upto(trades.len() as int, has_outcome(trades, win)),
{
    let a = choose|a: int| #[trigger] is_streak(trades, win, a, a + len);
    lemma_streak_counted(trades, win, a, a + len);
    lemma_count_upto_prefix(a + len, trades.len() as int, has_outcome(trades, win));
    lemma_count_upto_prefix(0, a, has_outcome(trades, win));
    lemma_count_upto_zero(has_outcome(trades, win));
}

/// The longest streak of an outcome is zero exactly when no trade has that outcome.
pub proof fn lemma_streak_zero_iff_none(trades: Seq<TradeRecord>, win: bool, len: int)
    requires
        is_longest_streak(trades, win, len),
    ensures
        (len == 0) <==> (count_upto(trades.len() as int, has_outcome(trades, win)) == 0),
{
    let a = choose|a: int| #[trigger] is_streak(trades, win, a, a + len);
    assert(len >= 0);
    lemma_streak_at_most_count(trades, win, len);
    if count_upto(trades.len() as int, has_outcome(trades, win)) > 0 {
        let i = lemma_some_counted(trades.len() as int, trades, win);
        assert(is_streak(trades, win, i, i + 1));
    }
}

/// A positive count has a witness.
proof fn lemma_some_counted(n: int, trades: Seq<TradeRecord>, win: bool) -> (i: int)
    requires
        count_upto(n, has_outcome(trades, win)) > 0,
    ensures
        0 <= i < n,
        trades[i].is_win == win,
    decreases n,
{
    if n <= 0 {
        lemma_count_upto_nonpositive(n, has_outcome(trades, win));
        0
    } else {
        lemma_count_upto_step(n - 1, has_outcome(trades, win));
        if trades[n - 1].is_win == win {
            n - 1
        } else {
            lemma_some_counted(n - 1, trades, win)
        }
    }
}

/// The longest streak is determined by the trades: two lengths that are both the
/// longest are equal.
pub proof fn lemma_longest_streak_unique(trades: Seq<TradeRecord>, win: bool, l1: int, l2: int)
    requires
        is_longest_streak(trades, win, l1),
        is_longest_streak(trades, win, l2),
    ensures
        l1 == l2,
{
    let a1 = choose|a: int| #[trigger] is_streak(trades, win, a, a + l1);
    let a2 = choose|a: int| #[trigger] is_streak(trades, win, a, a + l2);
    assert(l1 <= l2);
    assert(l2 <= l1);
}

} // verus!
