//! Sector bookkeeping of the cross-sectional factor engine: which sector an
//! asset belongs to, and which assets make up a sector.
use vstd::prelude::*;
use crate::text::{str_eq, string_views};

verus! {

/// Why a factor computation could not be carried out.
#[derive(Debug, Clone)]
pub enum FactorEngineError {
    InsufficientObservations,
    NoSectorMap,
    ComputationFailed(String),
}

/// The message of a factor-engine error.
pub open spec fn factor_error_message(e: FactorEngineError) -> Seq<char> {
    match e {
        FactorEngineError::InsufficientObservations => "Insufficient observations: need at least 30"@,
        FactorEngineError::NoSectorMap => "No sector map provided for neutralization"@,
        FactorEngineError::ComputationFailed(m) => "Factor computation failed: "@ + m@,
    }
}

impl FactorEngineError {
    /// The message of the error.
    pub fn to_string(&self) -> (s: String)
        ensures
            s@ == factor_error_message(*self),
    {
        match self {
            FactorEngineError::InsufficientObservations => {
                "Insufficient observations: need at least 30".to_owned()
            },
            FactorEngineError::NoSectorMap => "No sector map provided for neutralization".to_owned(),
            FactorEngineError::ComputationFailed(m) => {
                let mut s = "Factor computation failed: ".to_owned();
                s.append(m.as_str());
                s
            },
        }
    }
}


/// The value of the first entry of `entries` whose key reads `key`.
pub open spec fn first_with_key<V>(entries: Seq<(String, V)>, key: Seq<char>) -> Option<V>
    decreases entries.len(),
{
    if entries.len() == 0 {
        None
    } else if entries[0].0@ == key {
        Some(entries[0].1)
    } else {
        first_with_key(entries.drop_first(), key)
    }
}

/// No two entries of `entries` carry the same key.
pub open spec fn keys_distinct<V>(entries: Seq<(String, V)>) -> bool {
    forall|i: int, j: int| 0 <= i < j < entries.len() ==> entries[i].0@ != entries[j].0@
}

/// The assets of `pairs` (asset, sector) that lie in `sector`, in the order of `pairs`.
pub open spec fn assets_of(pairs: Seq<(String, String)>, sector: Seq<char>) -> Seq<Seq<char>>
    decreases pairs.len(),
{
    if pairs.len() == 0 {
        Seq::empty()
    } else if pairs.last().1@ == sector {
        assets_of(pairs.drop_last(), sector).push(pairs.last().0@)
    } else {
        assets_of(pairs.drop_last(), sector)
    }
}

/// Some asset of `pairs` lies in `sector`.
pub open spec fn has_sector(pairs: Seq<(String, String)>, sector: Seq<char>) -> bool {
    exists|i: int| 0 <= i < pairs.len() && #[trigger] pairs[i].1@ == sector
}

/// `index` lists each sector of `pairs` exactly once, with the assets of that sector.
pub open spec fn indexes_sectors(index: Seq<(String, Vec<String>)>, pairs: Seq<(String, String)>) -> bool {
    &&& keys_distinct(index)
    &&& forall|k: int| 0 <= k < index.len() ==> {
        &&& string_views(#[trigger] index[k].1@) == assets_of(pairs, index[k].0@)
        &&& has_sector(pairs, index[k].0@)
    }
    &&& forall|i: int| 0 <= i < pairs.len() ==> has_key(index, #[trigger] pairs[i].1@)
}

/// Some entry of `entries` carries `key`.
pub open spec fn has_key<V>(entries: Seq<(String, V)>, key: Seq<char>) -> bool {
    exists|k: int| 0 <= k < entries.len() && (#[trigger] entries[k]).0@ == key
}

/// Some string of `v` reads `s`.
pub open spec fn lists_string(v: Seq<String>, s: Seq<char>) -> bool {
    exists|j: int| 0 <= j < v.len() && (#[trigger] v[j])@ == s
}

/// Which sector each asset belongs to, and the assets of each sector.
#[derive(Debug, Clone)]
pub struct SectorMap {
    pub asset_to_sector: Vec<(String, String)>,
    pub sector_to_assets: Vec<(String, Vec<String>)>,
}

impl SectorMap {
    /// The two tables agree: assets are listed once, and the second table is
    /// the first one grouped by sector.
    pub open spec fn wf(&self) -> bool {
        &&& keys_distinct(self.asset_to_sector@)
        &&& indexes_sectors(self.sector_to_assets@, self.asset_to_sector@)
    }

    /// Builds the sector index of `asset_to_sector`, whose assets are distinct.
    pub fn new(asset_to_sector: Vec<(String, String)>) -> (m: Self)
        requires
            keys_distinct(asset_to_sector@),
        ensures
            m.asset_to_sector@ == asset_to_sector@,
            m.wf(),
    {
        let sectors = distinct_sectors(&asset_to_sector);
        let mut index: Vec<(String, Vec<String>)> = Vec::new();
        let mut k: usize = 0;
        while k < sectors.len()
            invariant
                k <= sectors.len(),
                index.len() == k,
                forall|a: int, b: int| 0 <= a < b < sectors.len() ==> sectors@[a]@ != sectors@[b]@,
                forall|j: int| 0 <= j < sectors.len() ==> has_sector(asset_to_sector@, #[trigger] sectors@[j]@),
                forall|i: int| 0 <= i < asset_to_sector.len() ==>
                    lists_string(sectors@, #[trigger] asset_to_sector@[i].1@),
                forall|j: int| 0 <= j < k ==> (#[trigger] index@[j]).0@ == sectors@[j]@,
                forall|j: int| 0 <= j < k ==> string_views((#[trigger] index@[j]).1@)
                    == assets_of(asset_to_sector@, sectors@[j]@),
            decreases sectors.len() - k,
        {
            let members = collect_assets(&asset_to_sector, &sectors[k]);
            let name = sectors[k].clone();
            index.push((name, members));
            k = k + 1;
        }
        proof {
            assert forall|i: int| 0 <= i < asset_to_sector.len() implies
                has_key(index@, #[trigger] asset_to_sector@[i].1@) by {
                assert(lists_string(sectors@, asset_to_sector@[i].1@));
                let j = choose|j: int| 0 <= j < sectors.len() && (#[trigger] sectors@[j])@ == asset_to_sector@[i].1@;
                assert(index@[j].0@ == sectors@[j]@);
            }
            assert forall|k: int| 0 <= k < index.len() implies {
                &&& string_views(#[trigger] index@[k].1@) == assets_of(asset_to_sector@, index@[k].0@)
                &&& has_sector(asset_to_sector@, index@[k].0@)
            } by {
                assert(index@[k].0@ == sectors@[k]@);
            }
            assert forall|a: int, b: int| 0 <= a < b < index.len() implies index@[a].0@ != index@[b].0@ by {
                assert(index@[a].0@ == sectors@[a]@);
                assert(index@[b].0@ == sectors@[b]@);
            }
        }
        SectorMap { asset_to_sector, sector_to_assets: index }
    }

    /// The sector of `asset`, if the map lists it.
    pub fn get_sector(&self, asset: &str) -> (r: Option<&String>)
        ensures
            match r {
                Some(s) => first_with_key(self.asset_to_sector@, asset@) == Some(*s),
                None => first_with_key(self.asset_to_sector@, asset@) is None,
            },
    {
        let mut i: usize = 0;
        assert(self.asset_to_sector@.skip(0) =~= self.asset_to_sector@);
        while i < self.asset_to_sector.len()
            invariant
                i <= self.asset_to_sector.len(),
                first_with_key(self.asset_to_sector@, asset@)
                    == first_with_key(self.asset_to_sector@.skip(i as int), asset@),
            decreases self.asset_to_sector.len() - i,
        {
            proof {
                assert(self.asset_to_sector@.skip(i as int).drop_first()
                    =~= self.asset_to_sector@.skip(i as int + 1));
            }
            if str_eq(self.asset_to_sector[i].0.as_str(), asset) {
                return Some(&self.asset_to_sector[i].1);
            }
            i = i + 1;
        }
        None
    }

    /// The assets of `sector`, if the map lists it.
    pub fn assets_in_sector(&self, sector: &str) -> (r: Option<&Vec<String>>)
        ensures
            match r {
                Some(v) => first_with_key(self.sector_to_assets@, sector@) == Some(*v),
                None => first_with_key(self.sector_to_assets@, sector@) is None,
            },
    {
        let mut i: usize = 0;
        assert(self.sector_to_assets@.skip(0) =~= self.sector_to_assets@);
        while i < self.sector_to_assets.len()
            invariant
                i <= self.sector_to_assets.len(),
                first_with_key(self.sector_to_assets@, sector@)
                    == first_with_key(self.sector_to_assets@.skip(i as int), sector@),
            decreases self.sector_to_assets.len() - i,
        {
            proof {
                assert(self.sector_to_assets@.skip(i as int).drop_first()
                    =~= self.sector_to_assets@.skip(i as int + 1));
            }
            if str_eq(self.sector_to_assets[i].0.as_str(), sector) {
                return Some(&self.sector_to_assets[i].1);
            }
            i = i + 1;
        }
        None
    }
}

/// The sectors of `pairs`, each once, in order of first appearance.
fn distinct_sectors(pairs: &Vec<(String, String)>) -> (sectors: Vec<String>)
    ensures
        forall|a: int, b: int| 0 <= a < b < sectors.len() ==> sectors@[a]@ != sectors@[b]@,
        forall|j: int| 0 <= j < sectors.len() ==> has_sector(pairs@, #[trigger] sectors@[j]@),
        forall|i: int| 0 <= i < pairs.len() ==> lists_string(sectors@, #[trigger] pairs@[i].1@),
{
    let mut sectors: Vec<String> = Vec::new();
    let mut i: usize = 0;
    while i < pairs.len()
        invariant
            i <= pairs.len(),
            forall|a: int, b: int| 0 <= a < b < sectors.len() ==> sectors@[a]@ != sectors@[b]@,
            forall|j: int| 0 <= j < sectors.len() ==> has_sector(pairs@, #[trigger] sectors@[j]@),
            forall|p: int| 0 <= p < i ==> lists_string(sectors@, #[trigger] pairs@[p].1@),
        decreases pairs.len() - i,
    {
        let listed = position_of(&sectors, &pairs[i].1);
        if listed.is_none() {
            let s = pairs[i].1.clone();
            proof {
                assert(has_sector(pairs@, s@)) by {
                    assert(pairs@[i as int].1@ == s@);
                }
            }
            let ghost before = sectors@;
            sectors.push(s);
            proof {
                assert(sectors@[sectors.len() - 1]@ == pairs@[i as int].1@);
                assert forall|p: int| 0 <= p < i + 1 implies lists_string(sectors@, #[trigger] pairs@[p].1@) by {
                    if p < i {
                        assert(lists_string(before, pairs@[p].1@));
                        let j = choose|j: int| 0 <= j < before.len() && (#[trigger] before[j])@ == pairs@[p].1@;
                        assert(sectors@[j] == before[j]);
                    } else {
                        assert(sectors@[sectors.len() - 1]@ == pairs@[p].1@);
                    }
                }
            }
        } else {
            proof {
                let j = listed.unwrap() as int;
                assert(sectors@[j]@ == pairs@[i as int].1@);
                assert(lists_string(sectors@, pairs@[i as int].1@));
            }
        }
        i = i + 1;
    }
    sectors
}

/// Where `s` stands in `list`, if it does.
fn position_of(list: &Vec<String>, s: &String) -> (r: Option<usize>)
    ensures
        match r {
            Some(j) => j < list.len() && list@[j as int]@ == s@,
            None => forall|j: int| 0 <= j < list.len() ==> list@[j]@ != s@,
        },
{
    let mut j: usize = 0;
    while j < list.len()
        invariant
            j <= list.len(),
            forall|q: int| 0 <= q < j ==> list@[q]@ != s@,
        decreases list.len() - j,
    {
        if list[j] == *s {
            return Some(j);
        }
        j = j + 1;
    }
    None
}

/// The assets of `pairs` that lie in `sector`, in the order of `pairs`.
fn collect_assets(pairs: &Vec<(String, String)>, sector: &String) -> (v: Vec<String>)
    ensures
        string_views(v@) == assets_of(pairs@, sector@),
{
    let mut v: Vec<String> = Vec::new();
    let mut i: usize = 0;
    while i < pairs.len()
        invariant
            i <= pairs.len(),
            string_views(v@) == assets_of(pairs@.take(i as int), sector@),
        decreases pairs.len() - i,
    {
        proof {
            assert(pairs@.take(i as int + 1).drop_last() =~= pairs@.take(i as int));
            assert(pairs@.take(i as int + 1).last() == pairs@[i as int]);
        }
        if pairs[i].1 == *sector {
            let a = pairs[i].0.clone();
            let ghost before = v@;
            v.push(a);
            proof {
                assert(string_views(v@) =~= string_views(before).push(a@));
            }
        }
        i = i + 1;
    }
    proof {
        assert(pairs@.take(i as int) =~= pairs@);
    }
    v
}

/// `assets_of` lists exactly the assets that `pairs` places in `sector`.
pub proof fn lemma_assets_of_members(pairs: Seq<(String, String)>, sector: Seq<char>, asset: Seq<char>)
    ensures
        assets_of(pairs, sector).contains(asset) <==>
            exists|i: int| 0 <= i < pairs.len() && #[trigger] pairs[i].0@ == asset && pairs[i].1@ == sector,
    decreases pairs.len(),
{
    if pairs.len() > 0 {
        let init = pairs.drop_last();
        lemma_assets_of_members(init, sector, asset);
        if exists|i: int| 0 <= i < pairs.len() && #[trigger] pairs[i].0@ == asset && pairs[i].1@ == sector {
            let i = choose|i: int| 0 <= i < pairs.len() && #[trigger] pairs[i].0@ == asset && pairs[i].1@ == sector;
            if i < pairs.len() - 1 {
                assert(init[i] == pairs[i]);
                assert(assets_of(init, sector).contains(asset));
                if pairs.last().1@ == sector {
                    assert(assets_of(pairs, sector) == assets_of(init, sector).push(pairs.last().0@));
                    let w = choose|w: int| 0 <= w < assets_of(init, sector).len() && assets_of(init, sector)[w] == asset;
                    assert(assets_of(pairs, sector)[w] == asset);
                }
            } else {
                assert(assets_of(pairs, sector) == assets_of(init, sector).push(pairs.last().0@));
                assert(assets_of(pairs, sector)[assets_of(init, sector).len() as int] == asset);
            }
        }
        if assets_of(pairs, sector).contains(asset) {
            if pairs.last().1@ == sector && pairs.last().0@ == asset {
                assert(pairs[pairs.len() - 1].0@ == asset);
            } else {
                let w = choose|w: int| 0 <= w < assets_of(pairs, sector).len() && assets_of(pairs, sector)[w] == asset;
                if pairs.last().1@ == sector {
                    assert(assets_of(pairs, sector) == assets_of(init, sector).push(pairs.last().0@));
                    assert(w < assets_of(init, sector).len());
                    assert(assets_of(init, sector)[w] == asset);
                }
                assert(assets_of(init, sector).contains(asset));
                let i = choose|i: int| 0 <= i < init.len() && #[trigger] init[i].0@ == asset && init[i].1@ == sector;
                assert(pairs[i] == init[i]);
            }
        }
    }
}

/// What `first_with_key` finds is the value of an entry with that key, and
/// where keys are distinct it is the value of every entry with that key.
pub proof fn lemma_first_with_key<V>(entries: Seq<(String, V)>, key: Seq<char>)
    ensures
        first_with_key(entries, key) is Some <==>
            exists|k: int| 0 <= k < entries.len() && #[trigger] entries[k].0@ == key,
        keys_distinct(entries) ==> forall|k: int| 0 <= k < entries.len() && #[trigger] entries[k].0@ == key
            ==> first_with_key(entries, key) == Some(entries[k].1),
    decreases entries.len(),
{
    if entries.len() > 0 {
        let rest = entries.drop_first();
        lemma_first_with_key(rest, key);
        if exists|k: int| 0 <= k < entries.len() && #[trigger] entries[k].0@ == key {
            let k = choose|k: int| 0 <= k < entries.len() && #[trigger] entries[k].0@ == key;
            if k > 0 && entries[0].0@ != key {
                assert(rest[k - 1] == entries[k]);
            }
        }
        if first_with_key(entries, key) is Some && entries[0].0@ != key {
            let k = choose|k: int| 0 <= k < rest.len() && #[trigger] rest[k].0@ == key;
            assert(entries[k + 1] == rest[k]);
        }
        if keys_distinct(entries) {
            assert(keys_distinct(rest)) by {
                assert forall|i: int, j: int| 0 <= i < j < rest.len() implies rest[i].0@ != rest[j].0@ by {
                    assert(rest[i] == entries[i + 1]);
                    assert(rest[j] == entries[j + 1]);
                }
            }
            assert forall|k: int| 0 <= k < entries.len() && #[trigger] entries[k].0@ == key
                implies first_with_key(entries, key) == Some(entries[k].1) by {
                if k > 0 {
                    assert(entries[0].0@ != key);
                    assert(rest[k - 1] == entries[k]);
                }
            }
        }
    }
}

/// In a well-formed sector map, an asset lies in the sector that
/// `get_sector` names for it exactly when `assets_in_sector` of that sector
/// lists it: the two lookups agree.
pub proof fn lemma_sector_lookups_agree(m: SectorMap, asset: Seq<char>, sector: Seq<char>)
    requires
        m.wf(),
    ensures
        (first_with_key(m.asset_to_sector@, asset) matches Some(s) && s@ == sector) ==> (
            first_with_key(m.sector_to_assets@, sector) matches Some(members)
                && string_views(members@).contains(asset)),
        (first_with_key(m.sector_to_assets@, sector) matches Some(members)
            && string_views(members@).contains(asset))
            ==> (first_with_key(m.asset_to_sector@, asset) matches Some(s) && s@ == sector),
{
    let pairs = m.asset_to_sector@;
    let index = m.sector_to_assets@;
    lemma_first_with_key(pairs, asset);
    lemma_first_with_key(index, sector);
    lemma_assets_of_members(pairs, sector, asset);
    if first_with_key(pairs, asset) matches Some(s) && s@ == sector {
        let i = choose|i: int| 0 <= i < pairs.len() && #[trigger] pairs[i].0@ == asset;
        assert(first_with_key(pairs, asset) == Some(pairs[i].1));
        assert(pairs[i].1@ == sector);
        assert(has_key(index, pairs[i].1@));
        let k = choose|k: int| 0 <= k < index.len() && (#[trigger] index[k]).0@ == pairs[i].1@;
        assert(first_with_key(index, sector) == Some(index[k].1));
        assert(string_views(index[k].1@) == assets_of(pairs, index[k].0@));
    }
    if first_with_key(index, sector) matches Some(members) && string_views(members@).contains(asset) {
        let k = choose|k: int| 0 <= k < index.len() && #[trigger] index[k].0@ == sector;
        assert(first_with_key(index, sector) == Some(index[k].1));
        assert(string_views(index[k].1@) == assets_of(pairs, index[k].0@));
        let i = choose|i: int| 0 <= i < pairs.len() && #[trigger] pairs[i].0@ == asset && pairs[i].1@ == sector;
        assert(first_with_key(pairs, asset) == Some(pairs[i].1));
    }
}

} // verus!
