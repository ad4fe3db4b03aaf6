//! The first generation of market screeners, which file their signals under
//! the screener's name.
use vstd::prelude::*;

verus! {

/// The trend screener.
#[derive(Debug, Clone, Copy, Default)]
pub struct TrendScreener;

impl TrendScreener {
    /// The screener's name, "trend", which is also the family of its signals.
    pub fn name(&self) -> (r: &'static str)
        ensures
            r@ == "trend"@,
    {
        "trend"
    }
}

/// The breakout screener.
#[derive(Debug, Clone, Copy, Default)]
pub struct BreakoutScreener;

impl BreakoutScreener {
    /// The screener's name, "breakout", which is also the family of its signals.
    pub fn name(&self) -> (r: &'static str)
        ensures
            r@ == "breakout"@,
    {
        "breakout"
    }
}

/// The mean reversion screener.
#[derive(Debug, Clone, Copy, Default)]
pub struct MeanReversionScreener;

impl MeanReversionScreener {
    /// The screener's name, "mean_reversion", which is also the family of its signals.
    pub fn name(&self) -> (r: &'static str)
        ensures
            r@ == "mean_reversion"@,
    {
        "mean_reversion"
    }
}

/// The volatility expansion screener.
#[derive(Debug, Clone, Copy, Default)]
pub struct VolatilityExpansionScreener;

impl VolatilityExpansionScreener {
    /// The screener's name, "volatility_expansion", which is also the family of its signals.
    pub fn name(&self) -> (r: &'static str)
        ensures
            r@ == "volatility_expansion"@,
    {
        "volatility_expansion"
    }
}

/// The volume surge screener.
#[derive(Debug, Clone, Copy, Default)]
pub struct VolumeSurgeScreener;

impl VolumeSurgeScreener {
    /// The screener's name, "volume_surge", which is also the family of its signals.
    pub fn name(&self) -> (r: &'static str)
        ensures
            r@ == "volume_surge"@,
    {
        "volume_surge"
    }
}

/// The momentum divergence screener.
#[derive(Debug, Clone, Copy, Default)]
pub struct MomentumDivergenceScreener;

impl MomentumDivergenceScreener {
    /// The screener's name, "momentum_divergence", which is also the family of its signals.
    pub fn name(&self) -> (r: &'static str)
        ensures
            r@ == "momentum_divergence"@,
    {
        "momentum_divergence"
    }
}

/// The support resistance bounce screener.
#[derive(Debug, Clone, Copy, Default)]
pub struct SupportResistanceBounceScreener;

impl SupportResistanceBounceScreener {
    /// The screener's name, "support_resistance_bounce", which is also the family of its signals.
    pub fn name(&self) -> (r: &'static str)
        ensures
            r@ == "support_resistance_bounce"@,
    {
        "support_resistance_bounce"
    }
}

} // verus!
