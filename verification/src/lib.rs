//! ConvNeXt trading library.
//!
//! - `geometry`: how the convolutions of a ConvNeXt network change tensor
//!   lengths, and how its stages and blocks are laid out.
//! - `trading`: directions of trading signals and sides of positions.
//! - `backtest`: counts, win/loss streaks and durations of closed trades.
//! - `metrics`: classification and direction metrics as exact ratios, and the
//!   confusion matrix.
use vstd::prelude::*;

pub mod backtest;
pub mod counting;
pub mod geometry;
pub mod metrics;
pub mod trading;

verus! {

/// Library version.
pub const VERSION: &'static str = "0.1.0";

} // verus!
