//! Model of the external asset registry: immutable records of tokenized
//! assets, read-only to the auction engine.

use vstd::prelude::*;

verus! {

/// The registry's record of one tokenized asset: the asset's identity, the
/// token type of its fungible shares, and the total number of issued shares.
/// A record never changes once registered.
#[derive(Clone, Copy, Debug, PartialEq, Eq, Structural)]
pub struct AssetState {
    pub asset: u64,
    pub ft_mint: u64,
    pub total_shares: u64,
}

/// The first record of `s` for `asset`, if any.
pub open spec fn find_asset(s: Seq<AssetState>, asset: u64) -> Option<AssetState>
    decreases s.len(),
{
    if s.len() == 0 {
        None
    } else if s[0].asset == asset {
        Some(s[0])
    } else {
        find_asset(s.drop_first(), asset)
    }
}

/// No two records of `s` describe the same asset.
pub open spec fn unique_assets(s: Seq<AssetState>) -> bool {
    forall|i: int, j: int|
        #![trigger s[i], s[j]]
        0 <= i < j < s.len() ==> s[i].asset != s[j].asset
}

proof fn lemma_unique_assets_drop_first(s: Seq<AssetState>)
    requires
        unique_assets(s),
        s.len() > 0,
    ensures
        unique_assets(s.drop_first()),
{
    assert forall|i: int, j: int| 0 <= i < j < s.drop_first().len() implies s.drop_first()[i].asset
        != s.drop_first()[j].asset by {
        assert(s.drop_first()[i] == s[i + 1]);
        assert(s.drop_first()[j] == s[j + 1]);
    }
}

proof fn lemma_find_asset_at(s: Seq<AssetState>, asset: u64, i: int)
    requires
        unique_assets(s),
        0 <= i < s.len(),
        s[i].asset == asset,
    ensures
        find_asset(s, asset) == Some(s[i]),
    decreases s.len(),
{
    if i > 0 {
        assert(s[0].asset != s[i].asset);
        lemma_unique_assets_drop_first(s);
        assert(s.drop_first()[i - 1] == s[i]);
        lemma_find_asset_at(s.drop_first(), asset, i - 1);
    }
}

proof fn lemma_find_asset_none(s: Seq<AssetState>, asset: u64)
    requires
        forall|k: int| 0 <= k < s.len() ==> (#[trigger] s[k]).asset != asset,
    ensures
        find_asset(s, asset) is None,
    decreases s.len(),
{
    if s.len() > 0 {
        assert forall|k: int| 0 <= k < s.drop_first().len() implies (#[trigger] s.drop_first()[
            k
        ]).asset != asset by {
            assert(s.drop_first()[k] == s[k + 1]);
        }
        lemma_find_asset_none(s.drop_first(), asset);
    }
}

proof fn lemma_find_asset_none_to_all(s: Seq<AssetState>, asset: u64)
    requires
        find_asset(s, asset) is None,
    ensures
        forall|k: int| 0 <= k < s.len() ==> (#[trigger] s[k]).asset != asset,
    decreases s.len(),
{
    if s.len() > 0 {
        lemma_find_asset_none_to_all(s.drop_first(), asset);
        assert forall|k: int| 0 <= k < s.len() implies (#[trigger] s[k]).asset != asset by {
            if k > 0 {
                assert(s.drop_first()[k - 1] == s[k]);
            }
        }
    }
}

proof fn lemma_find_asset_push(s: Seq<AssetState>, rec: AssetState, asset: u64)
    requires
        unique_assets(s),
        find_asset(s, rec.asset) is None,
    ensures
        unique_assets(s.push(rec)),
        find_asset(s.push(rec), asset) == (if find_asset(s, asset) is Some {
            find_asset(s, asset)
        } else if rec.asset == asset {
            Some(rec)
        } else {
            None::<AssetState>
        }),
    decreases s.len(),
{
    lemma_find_asset_none_to_all(s, rec.asset);
    let t = s.push(rec);
    assert forall|p: int, q: int| 0 <= p < q < t.len() implies t[p].asset != t[q].asset by {
        assert(t[p] == s[p]);
        if q == s.len() {
            assert(t[q] == rec);
        } else {
            assert(t[q] == s[q]);
        }
    }
    if s.len() == 0 {
        assert(t[0] == rec);
        if rec.asset != asset {
            assert(t.drop_first() =~= Seq::<AssetState>::empty());
        }
    } else {
        assert(t[0] == s[0]);
        if s[0].asset != asset {
            lemma_unique_assets_drop_first(s);
            assert(t.drop_first() =~= s.drop_first().push(rec));
            lemma_find_asset_push(s.drop_first(), rec, asset);
        }
    }
}

/// The asset registry: at most one record per asset identity.
pub struct AssetRegistry {
    records: Vec<AssetState>,
}

impl AssetRegistry {
    /// No two records describe the same asset.
    pub closed spec fn wf(self) -> bool {
        unique_assets(self.records@)
    }

    /// The record for `asset`, if one was registered.
    pub closed spec fn spec_lookup(self, asset: u64) -> Option<AssetState> {
        find_asset(self.records@, asset)
    }

    /// An empty registry.
    pub fn new() -> (r: AssetRegistry)
        ensures
            r.wf(),
            forall|a: u64| r.spec_lookup(a) is None,
    {
        AssetRegistry { records: Vec::new() }
    }

    /// Registers a new asset record. Returns false, changing nothing, when a
    /// record for the asset already exists: records are immutable once
    /// created.
    pub fn register(&mut self, record: AssetState) -> (ok: bool)
        requires
            old(self).wf(),
        ensures
            final(self).wf(),
            ok <==> old(self).spec_lookup(record.asset) is None,
            ok ==> final(self).spec_lookup(record.asset) == Some(record) && (forall|a: u64|
                a != record.asset ==> final(self).spec_lookup(a) == old(self).spec_lookup(a)),
            !ok ==> (forall|a: u64| final(self).spec_lookup(a) == old(self).spec_lookup(a)),
    {
        match self.find_index(record.asset) {
            Some(_) => false,
            None => {
                self.records.push(record);
                proof {
                    lemma_find_asset_push(old(self).records@, record, record.asset);
                    assert forall|a: u64| a != record.asset implies self.spec_lookup(a) == old(
                        self,
                    ).spec_lookup(a) by {
                        lemma_find_asset_push(old(self).records@, record, a);
                    }
                }
                true
            },
        }
    }

    fn find_index(&self, asset: u64) -> (r: Option<usize>)
        requires
            self.wf(),
        ensures
            match r {
                Some(i) => i < self.records@.len() && self.records@[i as int].asset == asset
                    && self.spec_lookup(asset) == Some(self.records@[i as int]),
                None => self.spec_lookup(asset) is None,
            },
    {
        let n = self.records.len();
        let mut i: usize = 0;
        while i < n
            invariant
                i <= n,
                n == self.records@.len(),
                self.wf(),
                forall|k: int| 0 <= k < i ==> (#[trigger] self.records@[k]).asset != asset,
            decreases n - i,
        {
            if self.records[i].asset == asset {
                proof {
                    lemma_find_asset_at(self.records@, asset, i as int);
                }
                return Some(i);
            }
            i += 1;
        }
        proof {
            lemma_find_asset_none(self.records@, asset);
        }
        None
    }

    /// Resolves the record for `asset`, as the registry's lookup does.
    pub fn lookup(&self, asset: u64) -> (r: Option<AssetState>)
        requires
            self.wf(),
        ensures
            r == self.spec_lookup(asset),
    {
        match self.find_index(asset) {
            Some(i) => Some(self.records[i]),
            None => None,
        }
    }
}

} // verus!
