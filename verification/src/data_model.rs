//! Dataset kinds, lineage manifests and the storage layout of the
//! immutable market-data model.
use vstd::prelude::*;
use crate::text::{copy_strings, lex_order, lemma_lex_total_ordering, lower_hex_u64, sort_strings, sorted_names, string_views};

verus! {

/// Kind of dataset in the lineage manifests.
#[derive(Debug, Clone, Copy, PartialEq, Eq, Hash, Structural)]
pub enum DatasetType {
    RawTrades,
    RawBooks,
    RawOhlcv,
    Normalized,
    Features,
    Labels,
}

/// The directories of the storage layout, relative to the data root.
pub fn storage_layout() -> (dirs: Vec<&'static str>)
    ensures
        dirs@.len() == 8,
        dirs@[0]@ == "raw/trades"@,
        dirs@[1]@ == "raw/books"@,
        dirs@[2]@ == "raw/ohlcv"@,
        dirs@[3]@ == "normalized"@,
        dirs@[4]@ == "features"@,
        dirs@[5]@ == "datasets"@,
        dirs@[6]@ == "manifests"@,
        dirs@[7]@ == "rejected"@,
{
    vec!["raw/trades", "raw/books", "raw/ohlcv", "normalized", "features", "datasets", "manifests", "rejected"]
}

/// A dataset manifest for lineage tracking. `created_at` is in
/// milliseconds since the Unix epoch.
#[derive(Debug, Clone)]
pub struct DatasetManifest {
    pub dataset_id: String,
    pub dataset_type: DatasetType,
    pub start_time: u64,
    pub end_time: u64,
    pub symbols: Vec<String>,
    pub exchanges: Vec<String>,
    pub row_count: usize,
    pub checksum: String,
    pub created_at: i64,
    pub git_commit: String,
    pub config_hash: String,
    pub parent_dataset: Option<String>,
}

/// The value of std's `DefaultHasher` (SipHash-1-3 with zero keys), in
/// lower-case hexadecimal, after hashing the dataset id, the kind, the start
/// and end times and then each symbol in turn.
/// The value is fixed for a given target and toolchain: std's `Hash`
/// writes integers and lengths in the machine's byte order and width, and
/// std may change the `DefaultHasher` algorithm between releases. Within
/// one build, equal arguments always give equal values.
pub uninterp spec fn manifest_hash(dataset_id: Seq<char>, dataset_type: DatasetType, start_time: u64, end_time: u64,
    symbols: Seq<Seq<char>>) -> Seq<char>;

/// Feeds the identifying fields of a manifest, with the symbols as given,
/// to std's `DefaultHasher` (`Hash::hash` on each field, `Hash::hash_slice`
/// on the symbols, which hashes each in turn with no length in front), and
/// writes `Hasher::finish` with `{:x}`. The value is named, not described:
/// it is `manifest_hash` of the fields; std documents `{:x}` of a `u64` as
/// lower-case hexadecimal without leading zeros, which is what is stated of
/// its shape.
#[verifier::external_body]
fn hash_manifest(dataset_id: &String, dataset_type: DatasetType, start_time: u64, end_time: u64, symbols: &Vec<String>)
    -> (h: String)
    ensures
        h@ == manifest_hash(dataset_id@, dataset_type, start_time, end_time, string_views(symbols@)),
        lower_hex_u64(h@),
{
    let mut hasher = std::collections::hash_map::DefaultHasher::new();
    std::hash::Hash::hash(dataset_id, &mut hasher);
    std::hash::Hash::hash(&dataset_type, &mut hasher);
    std::hash::Hash::hash(&start_time, &mut hasher);
    std::hash::Hash::hash(&end_time, &mut hasher);
    std::hash::Hash::hash_slice(symbols.as_slice(), &mut hasher);
    format!("{:x}", std::hash::Hasher::finish(&hasher))
}

/// The checksum of manifest `m`: the hash of its id, kind, time range and
/// its symbols in sorted order.
pub open spec fn checksum_of(m: DatasetManifest) -> Seq<char> {
    manifest_hash(m.dataset_id@, m.dataset_type, m.start_time, m.end_time, sorted_names(string_views(m.symbols@)))
}

impl DatasetManifest {
    /// The checksum of the manifest: its id, kind and time range, and its
    /// symbols in sorted order, hashed (see [`checksum_of`]).
    pub fn compute_checksum(&self) -> (c: String)
        ensures
            c@ == checksum_of(*self),
            lower_hex_u64(c@),
    {
        let symbols = sort_strings(copy_strings(&self.symbols));
        hash_manifest(&self.dataset_id, self.dataset_type, self.start_time, self.end_time, &symbols)
    }
}

/// The checksum of a manifest does not depend on the order in which its
/// symbols are listed: manifests that agree on id, kind and time range and
/// list the same symbols, in any order, have the same checksum.
pub proof fn lemma_checksum_ignores_symbol_order(a: DatasetManifest, b: DatasetManifest)
    requires
        a.dataset_id@ == b.dataset_id@,
        a.dataset_type == b.dataset_type,
        a.start_time == b.start_time,
        a.end_time == b.end_time,
        string_views(a.symbols@).to_multiset() == string_views(b.symbols@).to_multiset(),
    ensures
        checksum_of(a) == checksum_of(b),
{
    let va = string_views(a.symbols@);
    let vb = string_views(b.symbols@);
    lemma_lex_total_ordering();
    va.lemma_sort_by_ensures(lex_order());
    vb.lemma_sort_by_ensures(lex_order());
    vstd::seq_lib::lemma_sorted_unique(va.sort_by(lex_order()), vb.sort_by(lex_order()), lex_order());
}

} // verus!
