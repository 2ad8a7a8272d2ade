# convnext_trading

A ConvNeXt model for trading on candle data, with a backtest engine and
evaluation metrics.

- `src/` is the verified library (Verus): convolution geometry and the stage
  layout of the network, signal directions and position sides, trade statistics
  (counts, longest win and loss streaks, durations), and the classification
  metrics (accuracy, precision, recall, direction accuracy, hit rate as exact
  ratios; the confusion matrix) with the laws that tie them together.
- `app/` is ordinary Rust on top of it: the floating-point network layers, the
  model, the strategy, the backtest loop and the floating-point metrics, which
  call the library for everything that is integer logic.
- `tests/` runs the library on concrete values.
