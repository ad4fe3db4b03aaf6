//! Normalisation of raw exchange data into the standard observation form.
use vstd::prelude::*;
use crate::domain::{QualityCheckResult, QualityFlag};
use crate::storage::StorageConfig;

verus! {

/// Converts raw exchange data to the standard format, stamping the
/// exchange name.
pub struct Normalizer {
    pub exchange: String,
}

impl Normalizer {
    /// A normaliser for `exchange`.
    pub fn new(exchange: String) -> (n: Self)
        ensures
            n.exchange == exchange,
    {
        Normalizer { exchange }
    }
}

/// The trade count recorded for a bar: its count when known, else 0.
pub fn bar_trade_count(trades: Option<u64>) -> (n: u64)
    ensures
        n == (match trades { Some(t) => t, None => 0 }),
{
    match trades {
        Some(t) => t,
        None => 0,
    }
}

/// Ingestion configuration: storage, the batch size that triggers a write,
/// the period of the background flush and the queue limit.
#[derive(Debug, Clone)]
pub struct IngestionConfig {
    pub storage_config: StorageConfig,
    pub batch_size: usize,
    pub flush_interval_ms: u64,
    pub max_queue_size: usize,
}

impl Default for IngestionConfig {
    fn default() -> (c: Self)
        ensures
            c.storage_config.base_path@ == "data"@,
            c.batch_size == 1000,
            c.flush_interval_ms == 5_000,
            c.max_queue_size == 100_000,
    {
        IngestionConfig {
            storage_config: StorageConfig::default(),
            batch_size: 1000,
            flush_interval_ms: 5_000,
            max_queue_size: 100_000,
        }
    }
}

/// Everything but `Valid`.
pub open spec fn not_valid() -> spec_fn(QualityFlag) -> bool {
    |f: QualityFlag| f != QualityFlag::Valid
}

/// The issues the pipeline's validator finds: the flags of the core check,
/// then an extreme price move and a volume outlier (both filed as
/// `InvalidTimestamp`) and a too wide spread (`NegativeSpread`), without
/// the `Valid` marker.
pub open spec fn validator_flags(core: Seq<QualityFlag>, extreme_move: bool, volume_outlier: bool, wide_spread: bool)
    -> Seq<QualityFlag> {
    (core
        + (if extreme_move { seq![QualityFlag::InvalidTimestamp] } else { seq![] })
        + (if volume_outlier { seq![QualityFlag::InvalidTimestamp] } else { seq![] })
        + (if wide_spread { seq![QualityFlag::NegativeSpread] } else { seq![] })).filter(not_valid())
}

/// The validator's verdict on an observation, from the core check's flags
/// and the outcome of the extra checks (price move against the previous
/// observation, volume z-score, spread width): valid when nothing but the
/// `Valid` marker is flagged, otherwise invalid with the issues and an
/// empty reason.
pub fn combine_quality(core_flags: &Vec<QualityFlag>, extreme_move: bool, volume_outlier: bool, wide_spread: bool)
    -> (r: QualityCheckResult)
    ensures
        ({
            let flags = validator_flags(core_flags@, extreme_move, volume_outlier, wide_spread);
            if flags.len() == 0 {
                r.is_valid && r.flags@ == seq![QualityFlag::Valid] && r.reason is None
            } else {
                !r.is_valid && r.flags@ == flags && (r.reason matches Some(reason) && reason@.len() == 0)
            }
        }),
{
    let mut all: Vec<QualityFlag> = Vec::new();
    let mut i: usize = 0;
    while i < core_flags.len()
        invariant
            i <= core_flags.len(),
            all@ == core_flags@.take(i as int),
        decreases core_flags.len() - i,
    {
        all.push(core_flags[i]);
        proof {
            assert(core_flags@.take(i as int + 1) =~= core_flags@.take(i as int).push(core_flags@[i as int]));
        }
        i = i + 1;
    }
    proof {
        assert(core_flags@.take(i as int) =~= core_flags@);
    }
    if extreme_move {
        all.push(QualityFlag::InvalidTimestamp);
    }
    if volume_outlier {
        all.push(QualityFlag::InvalidTimestamp);
    }
    if wide_spread {
        all.push(QualityFlag::NegativeSpread);
    }
    let ghost combined = core_flags@
        + (if extreme_move { seq![QualityFlag::InvalidTimestamp] } else { seq![] })
        + (if volume_outlier { seq![QualityFlag::InvalidTimestamp] } else { seq![] })
        + (if wide_spread { seq![QualityFlag::NegativeSpread] } else { seq![] });
    assert(all@ =~= combined);
    let mut issues: Vec<QualityFlag> = Vec::new();
    let mut k: usize = 0;
    while k < all.len()
        invariant
            k <= all.len(),
            issues@ == all@.take(k as int).filter(not_valid()),
        decreases all.len() - k,
    {
        proof {
            assert(all@.take(k as int + 1) =~= all@.take(k as int).push(all@[k as int]));
            all@.take(k as int).lemma_filter_push(all@[k as int], not_valid());
        }
        if all[k] != QualityFlag::Valid {
            issues.push(all[k]);
        }
        k = k + 1;
    }
    proof {
        assert(all@.take(k as int) =~= all@);
    }
    if issues.len() == 0 {
        QualityCheckResult::valid()
    } else {
        QualityCheckResult::invalid(issues, String::new())
    }
}

} // verus!
