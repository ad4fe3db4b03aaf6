//! The market screeners: each has a stable name, under which its signals
//! are filed, and the signal family it reports.
use vstd::prelude::*;
use crate::domain::SignalFamily;

verus! {

/// The trend screener.
#[derive(Debug, Clone, Copy, Default)]
pub struct TrendScreener;

impl TrendScreener {
    /// The screener's name, "trend".
    pub fn name(&self) -> (r: &'static str)
        ensures
            r@ == "trend"@,
    {
        "trend"
    }

    /// The family of the signals it raises.
    pub fn family(&self) -> (f: SignalFamily)
        ensures
            f == SignalFamily::Trend,
    {
        SignalFamily::Trend
    }
}

/// The breakout screener.
#[derive(Debug, Clone, Copy, Default)]
pub struct BreakoutScreener;

impl BreakoutScreener {
    /// The screener's name, "breakout".
    pub fn name(&self) -> (r: &'static str)
        ensures
            r@ == "breakout"@,
    {
        "breakout"
    }

    /// The family of the signals it raises.
    pub fn family(&self) -> (f: SignalFamily)
        ensures
            f == SignalFamily::Breakout,
    {
        SignalFamily::Breakout
    }
}

/// The mean reversion screener.
#[derive(Debug, Clone, Copy, Default)]
pub struct MeanReversionScreener;

impl MeanReversionScreener {
    /// The screener's name, "mean_reversion".
    pub fn name(&self) -> (r: &'static str)
        ensures
            r@ == "mean_reversion"@,
    {
        "mean_reversion"
    }

    /// The family of the signals it raises.
    pub fn family(&self) -> (f: SignalFamily)
        ensures
            f == SignalFamily::MeanReversion,
    {
        SignalFamily::MeanReversion
    }
}

/// The volatility expansion screener.
#[derive(Debug, Clone, Copy, Default)]
pub struct VolatilityExpansionScreener;

impl VolatilityExpansionScreener {
    /// The screener's name, "volatility_expansion".
    pub fn name(&self) -> (r: &'static str)
        ensures
            r@ == "volatility_expansion"@,
    {
        "volatility_expansion"
    }

    /// The family of the signals it raises.
    pub fn family(&self) -> (f: SignalFamily)
        ensures
            f == SignalFamily::VolatilityExpansion,
    {
        SignalFamily::VolatilityExpansion
    }
}

/// The volume surge screener.
#[derive(Debug, Clone, Copy, Default)]
pub struct VolumeSurgeScreener;

impl VolumeSurgeScreener {
    /// The screener's name, "volume_surge".
    pub fn name(&self) -> (r: &'static str)
        ensures
            r@ == "volume_surge"@,
    {
        "volume_surge"
    }

    /// The family of the signals it raises.
    pub fn family(&self) -> (f: SignalFamily)
        ensures
            f == SignalFamily::VolumeSurge,
    {
        SignalFamily::VolumeSurge
    }
}

/// The momentum divergence screener.
#[derive(Debug, Clone, Copy, Default)]
pub struct MomentumDivergenceScreener;

impl MomentumDivergenceScreener {
    /// The screener's name, "momentum_divergence".
    pub fn name(&self) -> (r: &'static str)
        ensures
            r@ == "momentum_divergence"@,
    {
        "momentum_divergence"
    }

    /// The family of the signals it raises.
    pub fn family(&self) -> (f: SignalFamily)
        ensures
            f == SignalFamily::MomentumDivergence,
    {
        SignalFamily::MomentumDivergence
    }
}

/// The support resistance bounce screener.
#[derive(Debug, Clone, Copy, Default)]
pub struct SupportResistanceBounceScreener;

impl SupportResistanceBounceScreener {
    /// The screener's name, "support_resistance_bounce".
    pub fn name(&self) -> (r: &'static str)
        ensures
            r@ == "support_resistance_bounce"@,
    {
        "support_resistance_bounce"
    }

    /// The family of the signals it raises.
    pub fn family(&self) -> (f: SignalFamily)
        ensures
            f == SignalFamily::SupportResistanceBounce,
    {
        SignalFamily::SupportResistanceBounce
    }
}

/// The momentum screener.
#[derive(Debug, Clone, Copy, Default)]
pub struct MomentumScreener;

impl MomentumScreener {
    /// The screener's name, "momentum".
    pub fn name(&self) -> (r: &'static str)
        ensures
            r@ == "momentum"@,
    {
        "momentum"
    }

    /// The family of the signals it raises.
    pub fn family(&self) -> (f: SignalFamily)
        ensures
            f == SignalFamily::Momentum,
    {
        SignalFamily::Momentum
    }
}

/// The microstructure screener.
#[derive(Debug, Clone, Copy, Default)]
pub struct MicrostructureScreener;

impl MicrostructureScreener {
    /// The screener's name, "microstructure".
    pub fn name(&self) -> (r: &'static str)
        ensures
            r@ == "microstructure"@,
    {
        "microstructure"
    }

    /// The family of the signals it raises.
    pub fn family(&self) -> (f: SignalFamily)
        ensures
            f == SignalFamily::Microstructure,
    {
        SignalFamily::Microstructure
    }
}

/// The event screener.
#[derive(Debug, Clone, Copy, Default)]
pub struct EventScreener;

impl EventScreener {
    /// The screener's name, "event".
    pub fn name(&self) -> (r: &'static str)
        ensures
            r@ == "event"@,
    {
        "event"
    }

    /// The family of the signals it raises.
    pub fn family(&self) -> (f: SignalFamily)
        ensures
            f == SignalFamily::Event,
    {
        SignalFamily::Event
    }
}

} // verus!
