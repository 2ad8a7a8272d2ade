use convnext_trading::backtest::{calculate_streaks, trade_statistics, TradeRecord};

fn trade(entry_time: i64, exit_time: i64, is_win: bool) -> TradeRecord {
    TradeRecord { entry_time, exit_time, is_win }
}

#[test]
fn test_metrics_calculation() {
    let trades = vec![trade(0, 3600000, true), trade(3600000, 7200000, false)];
    let stats = trade_statistics(&trades);

    assert_eq!(stats.total_trades, 2);
    assert_eq!(stats.winning_trades, 1);
    assert_eq!(stats.losing_trades, 1);
    let win_rate = stats.winning_trades as f64 / stats.total_trades as f64;
    assert!((win_rate - 0.5).abs() < 1e-6);
}

#[test]
fn streaks_are_longest_runs() {
    let outcomes = [true, true, false, true, true, true, false, false];
    let trades: Vec<TradeRecord> = outcomes.iter().map(|&w| trade(0, 1, w)).collect();
    assert_eq!(calculate_streaks(&trades), (3, 2));
    let stats = trade_statistics(&trades);
    assert_eq!(stats.max_consecutive_wins, 3);
    assert_eq!(stats.max_consecutive_losses, 2);
    assert!(stats.max_consecutive_wins <= stats.winning_trades);
    assert!(stats.max_consecutive_losses <= stats.losing_trades);
}

#[test]
fn streaks_of_no_trades_are_zero() {
    assert_eq!(calculate_streaks(&vec![]), (0, 0));
    let all_wins = vec![trade(0, 1, true), trade(1, 2, true)];
    assert_eq!(calculate_streaks(&all_wins), (2, 0));
}

#[test]
fn durations_sum_and_clamp_at_zero() {
    assert_eq!(trade(1000, 4000, true).duration_ms(), 3000);
    assert_eq!(trade(5000, 4000, true).duration_ms(), 0);
    let trades = vec![trade(0, 3600000, true), trade(3600000, 7200000, false), trade(10, 5, false)];
    assert_eq!(trade_statistics(&trades).total_duration_ms, 7200000);
}

#[test]
fn extreme_durations_do_not_overflow_the_total() {
    let trades = vec![trade(i64::MIN / 2, i64::MAX / 2, true); 3];
    let d = (i64::MAX / 2 - i64::MIN / 2) as u128;
    assert_eq!(trade_statistics(&trades).total_duration_ms, 3 * d);
}
