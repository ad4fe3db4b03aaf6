//! Warm-up requirements of the technical indicators: the first index at
//! which each indicator has a value, so that no feature reads the future.
use vstd::prelude::*;

verus! {

/// The number of earlier rows an indicator needs: a value exists at index
/// `idx` exactly when `idx >= required`.
#[derive(Debug, Clone, Copy, PartialEq, Eq, Structural)]
pub struct Lookback {
    pub required: usize,
}

impl Lookback {
    /// A lookback of `required` rows.
    pub fn new(required: usize) -> (l: Self)
        ensures
            l.required == required,
    {
        Lookback { required }
    }

    /// Whether the indicator has a value at row `idx`.
    pub fn ok_at(&self, idx: usize) -> (ok: bool)
        ensures
            ok == (idx >= self.required),
    {
        idx >= self.required
    }
}

/// An EMA of `period` first has a value at row `period - 1` (its seed is
/// the mean of the first `period` values).
pub fn ema_lookback(period: usize) -> (l: Lookback)
    ensures
        l.required == (if period == 0 { 0 } else { period - 1 }),
{
    Lookback::new(period.saturating_sub(1))
}

/// An RSI of `period` first has a value at row `period` (it needs `period`
/// differences).
pub fn rsi_lookback(period: usize) -> (l: Lookback)
    ensures
        l.required == period,
{
    Lookback::new(period)
}

/// An ATR of `period` first has a value at row `period - 1`.
pub fn atr_lookback(period: usize) -> (l: Lookback)
    ensures
        l.required == (if period == 0 { 0 } else { period - 1 }),
{
    Lookback::new(period.saturating_sub(1))
}

/// Availability is monotone: once an indicator has a value, every later
/// row has one too.
pub proof fn lemma_lookback_monotone(l: Lookback, i: usize, j: usize)
    requires
        i <= j,
        i >= l.required,
    ensures
        j >= l.required,
{
}

/// For a positive period, an EMA's first value needs exactly `period`
/// rows of history (rows `0..=period-1`), and no earlier row has one.
pub proof fn lemma_ema_needs_full_window(period: usize, idx: usize)
    requires
        period > 0,
    ensures
        (idx >= (period - 1) as usize) <==> idx + 1 >= period,
{
}

} // verus!
