//! Command modes of the quantaradar command line.
use vstd::prelude::*;

verus! {

/// The command-line tool's version.
pub fn cli_version() -> (v: String)
    ensures
        v@ == "0.2.0"@,
{
    "0.2.0".to_owned()
}

/// A named command-line variant.
#[derive(Debug, Clone)]
pub struct CliVariant {
    pub mode: String,
}

impl Default for CliVariant {
    fn default() -> (v: Self)
        ensures
            v.mode@.len() == 0,
    {
        CliVariant { mode: String::new() }
    }
}

impl CliVariant {
    /// A variant running mode `m`.
    pub fn new(m: &str) -> (v: Self)
        ensures
            v.mode@ == m@,
    {
        CliVariant { mode: m.to_owned() }
    }
}

/// The top-level command families of a variant.
#[derive(Debug, Clone, Copy, PartialEq, Eq, Structural)]
pub enum CliVariantMode {
    Discover,
    Screen,
    Fetch,
    Backtest,
    Monitor,
}

/// The top-level command families.
#[derive(Debug, Clone, Copy, PartialEq, Eq, Structural)]
pub enum CliMode {
    Discover,
    Screen,
    Fetch,
    Backtest,
    Monitor,
}

/// The variant name of a mode, e.g. "Discover".
pub open spec fn variant_mode_name(m: CliVariantMode) -> Seq<char> {
    match m {
        CliVariantMode::Discover => "Discover"@,
        CliVariantMode::Screen => "Screen"@,
        CliVariantMode::Fetch => "Fetch"@,
        CliVariantMode::Backtest => "Backtest"@,
        CliVariantMode::Monitor => "Monitor"@,
    }
}

/// The command a mode runs, e.g. "discover".
pub open spec fn variant_mode_command(m: CliVariantMode) -> Seq<char> {
    match m {
        CliVariantMode::Discover => "discover"@,
        CliVariantMode::Screen => "screen"@,
        CliVariantMode::Fetch => "fetch"@,
        CliVariantMode::Backtest => "backtest"@,
        CliVariantMode::Monitor => "monitor"@,
    }
}

/// The command a mode dispatches to, e.g. "discover".
pub open spec fn mode_command(m: CliMode) -> Seq<char> {
    match m {
        CliMode::Discover => "discover"@,
        CliMode::Screen => "screen"@,
        CliMode::Fetch => "fetch"@,
        CliMode::Backtest => "backtest"@,
        CliMode::Monitor => "monitor"@,
    }
}

impl CliVariantMode {
    /// The variant's name, e.g. "Discover".
    pub fn to_string(&self) -> (s: String)
        ensures
            s@ == variant_mode_name(*self),
    {
        match self {
            CliVariantMode::Discover => "Discover".to_owned(),
            CliVariantMode::Screen => "Screen".to_owned(),
            CliVariantMode::Fetch => "Fetch".to_owned(),
            CliVariantMode::Backtest => "Backtest".to_owned(),
            CliVariantMode::Monitor => "Monitor".to_owned(),
        }
    }

    /// The command this mode runs, e.g. "discover".
    pub fn execute_command(&self) -> (c: &'static str)
        ensures
            c@ == variant_mode_command(*self),
    {
        match self {
            CliVariantMode::Discover => "discover",
            CliVariantMode::Screen => "screen",
            CliVariantMode::Fetch => "fetch",
            CliVariantMode::Backtest => "backtest",
            CliVariantMode::Monitor => "monitor",
        }
    }
}

impl CliMode {
    /// The command this mode dispatches to, e.g. "discover".
    pub fn dispatch(&self) -> (c: &'static str)
        ensures
            c@ == mode_command(*self),
    {
        match self {
            CliMode::Discover => "discover",
            CliMode::Screen => "screen",
            CliMode::Fetch => "fetch",
            CliMode::Backtest => "backtest",
            CliMode::Monitor => "monitor",
        }
    }
}

/// Distinct modes dispatch to distinct commands, and no command is empty.
pub proof fn lemma_dispatch_injective(a: CliMode, b: CliMode)
    ensures
        a != b ==> mode_command(a) != mode_command(b),
        mode_command(a).len() > 0,
{
    reveal_strlit("discover");
    reveal_strlit("screen");
    reveal_strlit("fetch");
    reveal_strlit("backtest");
    reveal_strlit("monitor");
    assert("discover"@.len() == 8);
    assert("screen"@.len() == 6);
    assert("fetch"@.len() == 5);
    assert("backtest"@.len() == 8);
    assert("monitor"@.len() == 7);
    assert("discover"@[0] != "backtest"@[0]);
}

} // verus!
