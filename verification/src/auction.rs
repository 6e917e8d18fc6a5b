//! The auction engine: creation, bidding, and one-time settlement.
//!
//! Each operation runs as one atomic unit: either every check passes and
//! every balance move and record change commits, or the operation returns an
//! error and nothing changed. The outcome of each operation is pinned down by
//! a decision function (`create_auction_error`, `place_bid_error`,
//! `settle_error`) that names the error an input earns, in the order the
//! checks run, or none when the operation is owed success.

use vstd::prelude::*;

use crate::errors::ErrorCode;
use crate::ledger::Ledger;
use crate::registry::AssetRegistry;
use crate::state::{entry_wf, AuctionEntry, AuctionState, EscrowVault};

verus! {

/// The first auction of `s` created by `creator`, if any.
pub open spec fn find_auction(s: Seq<AuctionEntry>, creator: u64) -> Option<AuctionEntry>
    decreases s.len(),
{
    if s.len() == 0 {
        None
    } else if s[0].state.auction_creator == creator {
        Some(s[0])
    } else {
        find_auction(s.drop_first(), creator)
    }
}

/// No two auctions of `s` have the same creator.
pub open spec fn unique_creators(s: Seq<AuctionEntry>) -> bool {
    forall|i: int, j: int|
        #![trigger s[i], s[j]]
        0 <= i < j < s.len() ==> s[i].state.auction_creator != s[j].state.auction_creator
}

proof fn lemma_unique_creators_drop_first(s: Seq<AuctionEntry>)
    requires
        unique_creators(s),
        s.len() > 0,
    ensures
        unique_creators(s.drop_first()),
{
    assert forall|i: int, j: int| 0 <= i < j < s.drop_first().len() implies s.drop_first()[
        i
    ].state.auction_creator != s.drop_first()[j].state.auction_creator by {
        assert(s.drop_first()[i] == s[i + 1]);
        assert(s.drop_first()[j] == s[j + 1]);
    }
}

proof fn lemma_find_auction_at(s: Seq<AuctionEntry>, creator: u64, i: int)
    requires
        unique_creators(s),
        0 <= i < s.len(),
        s[i].state.auction_creator == creator,
    ensures
        find_auction(s, creator) == Some(s[i]),
    decreases s.len(),
{
    if i > 0 {
        assert(s[0].state.auction_creator != s[i].state.auction_creator);
        lemma_unique_creators_drop_first(s);
        assert(s.drop_first()[i - 1] == s[i]);
        lemma_find_auction_at(s.drop_first(), creator, i - 1);
    }
}

proof fn lemma_find_auction_none(s: Seq<AuctionEntry>, creator: u64)
    requires
        forall|k: int| 0 <= k < s.len() ==> (#[trigger] s[k]).state.auction_creator != creator,
    ensures
        find_auction(s, creator) is None,
    decreases s.len(),
{
    if s.len() > 0 {
        assert forall|k: int| 0 <= k < s.drop_first().len() implies (#[trigger] s.drop_first()[
            k
        ]).state.auction_creator != creator by {
            assert(s.drop_first()[k] == s[k + 1]);
        }
        lemma_find_auction_none(s.drop_first(), creator);
    }
}

proof fn lemma_find_auction_none_to_all(s: Seq<AuctionEntry>, creator: u64)
    requires
        find_auction(s, creator) is None,
    ensures
        forall|k: int| 0 <= k < s.len() ==> (#[trigger] s[k]).state.auction_creator != creator,
    decreases s.len(),
{
    if s.len() > 0 {
        lemma_find_auction_none_to_all(s.drop_first(), creator);
        assert forall|k: int| 0 <= k < s.len() implies (#[trigger] s[k]).state.auction_creator
            != creator by {
            if k > 0 {
                assert(s.drop_first()[k - 1] == s[k]);
            }
        }
    }
}

proof fn lemma_find_auction_update(s: Seq<AuctionEntry>, i: int, e2: AuctionEntry, creator: u64)
    requires
        unique_creators(s),
        0 <= i < s.len(),
        e2.state.auction_creator == s[i].state.auction_creator,
    ensures
        unique_creators(s.update(i, e2)),
        find_auction(s.update(i, e2), creator) == (if e2.state.auction_creator == creator {
            Some(e2)
        } else {
            find_auction(s, creator)
        }),
    decreases s.len(),
{
    let t = s.update(i, e2);
    assert forall|p: int, q: int| 0 <= p < q < t.len() implies t[p].state.auction_creator
        != t[q].state.auction_creator by {
        assert(t[p].state.auction_creator == s[p].state.auction_creator);
        assert(t[q].state.auction_creator == s[q].state.auction_creator);
    }
    if i == 0 {
        assert(t[0] == e2);
        if e2.state.auction_creator != creator {
            assert(s[0].state.auction_creator != creator);
            assert(t.drop_first() =~= s.drop_first());
        }
    } else {
        assert(t[0] == s[0]);
        if s[0].state.auction_creator == creator {
            if e2.state.auction_creator == creator {
                assert(s[0].state.auction_creator != s[i].state.auction_creator);
                assert(false);
            }
        } else {
            lemma_unique_creators_drop_first(s);
            assert(t.drop_first() =~= s.drop_first().update(i - 1, e2));
            lemma_find_auction_update(s.drop_first(), i - 1, e2, creator);
        }
    }
}

proof fn lemma_find_auction_push(s: Seq<AuctionEntry>, e: AuctionEntry, creator: u64)
    requires
        unique_creators(s),
        find_auction(s, e.state.auction_creator) is None,
    ensures
        unique_creators(s.push(e)),
        find_auction(s.push(e), creator) == (if find_auction(s, creator) is Some {
            find_auction(s, creator)
        } else if e.state.auction_creator == creator {
            Some(e)
        } else {
            None::<AuctionEntry>
        }),
    decreases s.len(),
{
    lemma_find_auction_none_to_all(s, e.state.auction_creator);
    let t = s.push(e);
    assert forall|p: int, q: int| 0 <= p < q < t.len() implies t[p].state.auction_creator
        != t[q].state.auction_creator by {
        assert(t[p] == s[p]);
        if q == s.len() {
            assert(t[q] == e);
        } else {
            assert(t[q] == s[q]);
        }
    }
    if s.len() == 0 {
        assert(t[0] == e);
        if e.state.auction_creator != creator {
            assert(t.drop_first() =~= Seq::<AuctionEntry>::empty());
        }
    } else {
        assert(t[0] == s[0]);
        if s[0].state.auction_creator != creator {
            lemma_unique_creators_drop_first(s);
            assert(t.drop_first() =~= s.drop_first().push(e));
            lemma_find_auction_push(s.drop_first(), e, creator);
        }
    }
}

/// The error an auction-creation request earns, in the order the checks run,
/// or none when creation is owed success.
pub open spec fn create_auction_error(
    registry: AssetRegistry,
    ledger: Ledger,
    accepted_bid_token: u64,
    payer: u64,
    asset: u64,
    ft_mint: u64,
    bid_token_mint: u64,
    amount: u64,
) -> Option<ErrorCode> {
    match registry.spec_lookup(asset) {
        None => Some(ErrorCode::AssetNotFound),
        Some(rec) => if rec.ft_mint != ft_mint {
            Some(ErrorCode::MintMismatch)
        } else if bid_token_mint != accepted_bid_token {
            Some(ErrorCode::UnsupportedBidCurrency)
        } else if ledger.balance(payer, ft_mint) < amount {
            Some(ErrorCode::InsufficientBalance)
        } else {
            None
        },
    }
}

/// The auction a successful creation request instantiates: active, without a
/// bid, with the full escrowed amount in the asset vault and an empty bid
/// vault.
pub open spec fn created_entry(
    payer: u64,
    asset: u64,
    ft_mint: u64,
    bid_token_mint: u64,
    amount: u64,
    auction_end_time: i64,
) -> AuctionEntry {
    AuctionEntry {
        state: AuctionState {
            asset,
            auction_creator: payer,
            ft_mint,
            bid_token_mint,
            is_active: true,
            highest_bid: 0,
            highest_bidder: None,
            auction_end_time,
        },
        asset_vault: EscrowVault { mint: ft_mint, amount },
        bids_vault: EscrowVault { mint: bid_token_mint, amount: 0 },
    }
}

/// The error a bid earns, in the order the checks run, or none when the bid
/// is owed acceptance. `entry_opt` is the auction the request refers to; a
/// reference that resolves to no auction is an identity mismatch. A settled
/// auction counts as ended: its deadline has passed, so with a non-decreasing
/// clock the deadline check refuses the bid even on a stale timestamp.
pub open spec fn place_bid_error(
    entry_opt: Option<AuctionEntry>,
    ledger: Ledger,
    bidder: u64,
    asset: u64,
    bid_token_mint: u64,
    now: i64,
    amount: u64,
) -> Option<ErrorCode> {
    match entry_opt {
        None => Some(ErrorCode::IdentityMismatch),
        Some(e) => if e.state.asset != asset || e.state.bid_token_mint != bid_token_mint {
            Some(ErrorCode::IdentityMismatch)
        } else if now >= e.state.auction_end_time || !e.state.is_active {
            Some(ErrorCode::AuctionEnded)
        } else if amount <= e.state.highest_bid {
            Some(ErrorCode::BidTooLow)
        } else if ledger.balance(bidder, bid_token_mint) < amount {
            Some(ErrorCode::InsufficientBalance)
        } else if (match e.state.highest_bidder {
            Some(prev) => prev != bidder && ledger.balance(prev, bid_token_mint)
                + e.state.highest_bid > u64::MAX,
            None => false,
        }) {
            Some(ErrorCode::Overflow)
        } else {
            None
        },
    }
}

/// The auction after an accepted bid: the bid vault holds exactly the new
/// bid (the displaced bidder's escrow was refunded), and the record names
/// the new highest bid and bidder.
pub open spec fn bid_entry(e: AuctionEntry, bidder: u64, amount: u64) -> AuctionEntry {
    AuctionEntry {
        state: AuctionState { highest_bid: amount, highest_bidder: Some(bidder), ..e.state },
        asset_vault: e.asset_vault,
        bids_vault: EscrowVault { mint: e.bids_vault.mint, amount },
    }
}

/// The refund an accepted bid pays out of the bid vault to the displaced
/// bidder's account `(o, t)`: the standing highest bid, when a bidder stood.
pub open spec fn refund_to(e: AuctionEntry, bid_token_mint: u64, o: u64, t: u64) -> int {
    match e.state.highest_bidder {
        Some(prev) => if o == prev && t == bid_token_mint {
            e.state.highest_bid as int
        } else {
            0
        },
        None => 0,
    }
}

/// The error a settlement request earns, in the order the checks run, or
/// none when settlement is owed success. `entry_opt` is the auction the
/// request refers to; a reference that resolves to no auction is an identity
/// mismatch, and so is any supplied counter-party that contradicts the
/// record. The recorded highest bidder is checked only once a bid stands.
pub open spec fn settle_error(
    entry_opt: Option<AuctionEntry>,
    ledger: Ledger,
    auction_creator: u64,
    highest_bidder: u64,
    asset: u64,
    ft_mint: u64,
    bid_token_mint: u64,
    now: i64,
) -> Option<ErrorCode> {
    match entry_opt {
        None => Some(ErrorCode::IdentityMismatch),
        Some(e) => if e.state.asset != asset || e.state.ft_mint != ft_mint
            || e.state.bid_token_mint != bid_token_mint || (match e.state.highest_bidder {
            Some(b) => b != highest_bidder,
            None => false,
        }) {
            Some(ErrorCode::IdentityMismatch)
        } else if now < e.state.auction_end_time {
            Some(ErrorCode::AuctionStillActive)
        } else if !e.state.is_active {
            Some(ErrorCode::AlreadySettled)
        } else if e.state.highest_bid == 0 {
            Some(ErrorCode::NoBidsPlaced)
        } else if ledger.balance(auction_creator, bid_token_mint) + e.bids_vault.amount > u64::MAX
            || ledger.balance(highest_bidder, ft_mint) + e.asset_vault.amount + (if highest_bidder
            == auction_creator && ft_mint == bid_token_mint {
            e.bids_vault.amount as int
        } else {
            0
        }) > u64::MAX {
            Some(ErrorCode::Overflow)
        } else {
            None
        },
    }
}

/// The auction after settlement: inactive, both vaults empty, every other
/// field as it was.
pub open spec fn settled_entry(e: AuctionEntry) -> AuctionEntry {
    AuctionEntry {
        state: AuctionState { is_active: false, ..e.state },
        asset_vault: EscrowVault { mint: e.asset_vault.mint, amount: 0 },
        bids_vault: EscrowVault { mint: e.bids_vault.mint, amount: 0 },
    }
}

/// The auction engine: every live or settled auction, at most one per
/// creator, together with the one payment currency it accepts for bids.
pub struct AuctionHouse {
    accepted_bid_token: u64,
    auctions: Vec<AuctionEntry>,
}

impl AuctionHouse {
    /// The one payment currency the engine accepts for bids.
    pub closed spec fn spec_accepted_bid_token(self) -> u64 {
        self.accepted_bid_token
    }

    /// The auction created by `creator`, if any.
    pub closed spec fn spec_auction(self, creator: u64) -> Option<AuctionEntry> {
        find_auction(self.auctions@, creator)
    }

    /// At most one auction per creator; every auction satisfies its own
    /// invariant, is keyed by its creator, and bids in the accepted currency.
    pub closed spec fn wf(self) -> bool {
        &&& unique_creators(self.auctions@)
        &&& forall|i: int|
            0 <= i < self.auctions@.len() ==> entry_wf(#[trigger] self.auctions@[i])
        &&& forall|i: int|
            0 <= i < self.auctions@.len() ==> (#[trigger] self.auctions@[i]).state.bid_token_mint
                == self.accepted_bid_token
    }

    /// An engine with no auctions, accepting `accepted_bid_token` as the one
    /// settlement currency.
    pub fn new(accepted_bid_token: u64) -> (r: AuctionHouse)
        ensures
            r.wf(),
            r.spec_accepted_bid_token() == accepted_bid_token,
            forall|c: u64| r.spec_auction(c) is None,
    {
        AuctionHouse { accepted_bid_token, auctions: Vec::new() }
    }

    /// The one payment currency the engine accepts for bids.
    pub fn accepted_bid_token(&self) -> (r: u64)
        ensures
            r == self.spec_accepted_bid_token(),
    {
        self.accepted_bid_token
    }

    fn find_index(&self, creator: u64) -> (r: Option<usize>)
        requires
            self.wf(),
        ensures
            match r {
                Some(i) => i < self.auctions@.len() && self.auctions@[i as int].state.auction_creator
                    == creator && self.spec_auction(creator) == Some(self.auctions@[i as int]),
                None => self.spec_auction(creator) is None,
            },
    {
        let n = self.auctions.len();
        let mut i: usize = 0;
        while i < n
            invariant
                i <= n,
                n == self.auctions@.len(),
                self.wf(),
                forall|k: int|
                    0 <= k < i ==> (#[trigger] self.auctions@[k]).state.auction_creator != creator,
            decreases n - i,
        {
            if self.auctions[i].state.auction_creator == creator {
                proof {
                    lemma_find_auction_at(self.auctions@, creator, i as int);
                }
                return Some(i);
            }
            i += 1;
        }
        proof {
            lemma_find_auction_none(self.auctions@, creator);
        }
        None
    }

    /// The auction created by `creator`, if any: the record and both vaults.
    pub fn get_auction(&self, creator: u64) -> (r: Option<AuctionEntry>)
        requires
            self.wf(),
        ensures
            r == self.spec_auction(creator),
            r matches Some(e) ==> entry_wf(e) && e.state.auction_creator == creator
                && e.state.bid_token_mint == self.spec_accepted_bid_token(),
    {
        match self.find_index(creator) {
            Some(i) => Some(self.auctions[i]),
            None => None,
        }
    }

    /// Whether `creator` already has an auction, live or settled.
    pub fn has_auction(&self, creator: u64) -> (r: bool)
        requires
            self.wf(),
        ensures
            r <==> self.spec_auction(creator) is Some,
    {
        match self.find_index(creator) {
            Some(_) => true,
            None => false,
        }
    }

    /// A found auction satisfies its invariant and bids in the accepted
    /// currency: the engine's well-formedness carries down to each entry.
    pub proof fn lemma_auction_well_formed(self, creator: u64)
        requires
            self.wf(),
            self.spec_auction(creator) is Some,
        ensures
            (match self.spec_auction(creator) {
                Some(e) => entry_wf(e) && e.state.auction_creator == creator
                    && e.state.bid_token_mint == self.spec_accepted_bid_token(),
                None => false,
            }),
    {
        lemma_find_auction_some_index(self.auctions@, creator);
    }

    /// Opens an auction: validates the asset record, the offered payment
    /// currency and the seller's holdings, escrows `amount` of the seller's
    /// shares in a fresh asset vault, and instantiates the record — or fails
    /// with the earned error and no change at all. One auction per seller:
    /// the caller checks `has_auction` first, as the engine keys auctions by
    /// their creator.
    pub fn handle_create_auction(
        &mut self,
        ledger: &mut Ledger,
        registry: &AssetRegistry,
        payer: u64,
        asset: u64,
        ft_mint: u64,
        bid_token_mint: u64,
        amount: u64,
        auction_end_time: i64,
    ) -> (r: Result<AuctionState, ErrorCode>)
        requires
            old(self).wf(),
            old(ledger).wf(),
            registry.wf(),
            old(self).spec_auction(payer) is None,
        ensures
            final(self).wf(),
            final(ledger).wf(),
            final(self).spec_accepted_bid_token() == old(self).spec_accepted_bid_token(),
            match create_auction_error(
                *registry,
                *old(ledger),
                old(self).spec_accepted_bid_token(),
                payer,
                asset,
                ft_mint,
                bid_token_mint,
                amount,
            ) {
                Some(e) => r == Err::<AuctionState, ErrorCode>(e) && (forall|c: u64|
                    final(self).spec_auction(c) == old(self).spec_auction(c)) && (forall|
                    o: u64,
                    t: u64,
                |
                    final(ledger).balance(o, t) == old(ledger).balance(o, t)),
                None => ({
                    let entry = created_entry(
                        payer,
                        asset,
                        ft_mint,
                        bid_token_mint,
                        amount,
                        auction_end_time,
                    );
                    r == Ok::<AuctionState, ErrorCode>(entry.state) && final(self).spec_auction(
                        payer,
                    ) == Some(entry) && (forall|c: u64|
                        c != payer ==> final(self).spec_auction(c) == old(self).spec_auction(c))
                        && (forall|o: u64, t: u64|
                        final(ledger).balance(o, t) == old(ledger).balance(o, t) - (if o == payer
                            && t == ft_mint {
                            amount as int
                        } else {
                            0
                        }))
                }),
            },
    {
        let rec = match registry.lookup(asset) {
            None => {
                return Err(ErrorCode::AssetNotFound);
            },
            Some(rec) => rec,
        };
        if rec.ft_mint != ft_mint {
            return Err(ErrorCode::MintMismatch);
        }
        if bid_token_mint != self.accepted_bid_token {
            return Err(ErrorCode::UnsupportedBidCurrency);
        }
        let bal = ledger.balance_of(payer, ft_mint);
        if bal < amount {
            return Err(ErrorCode::InsufficientBalance);
        }
        match ledger.debit(payer, ft_mint, amount) {
            Ok(()) => {},
            Err(e) => {
                return Err(e);
            },
        }
        let st = AuctionState {
            asset,
            auction_creator: payer,
            ft_mint,
            bid_token_mint,
            is_active: true,
            highest_bid: 0,
            highest_bidder: None,
            auction_end_time,
        };
        let entry = AuctionEntry {
            state: st,
            asset_vault: EscrowVault { mint: ft_mint, amount },
            bids_vault: EscrowVault { mint: bid_token_mint, amount: 0 },
        };
        self.auctions.push(entry);
        proof {
            lemma_find_auction_push(old(self).auctions@, entry, payer);
            assert forall|c: u64| c != payer implies self.spec_auction(c) == old(
                self,
            ).spec_auction(c) by {
                lemma_find_auction_push(old(self).auctions@, entry, c);
            }
            assert forall|i: int| 0 <= i < self.auctions@.len() implies entry_wf(
                #[trigger] self.auctions@[i],
            ) && self.auctions@[i].state.bid_token_mint == self.accepted_bid_token by {
                if i < old(self).auctions@.len() {
                    assert(self.auctions@[i] == old(self).auctions@[i]);
                } else {
                    assert(self.auctions@[i] == entry);
                }
            }
        }
        Ok(st)
    }

    /// Admits a bid: cross-checks the request's accounts against the auction
    /// record, enforces the deadline and the strict-increase rule, checks
    /// the bidder's funds, then escrows the bid and refunds the displaced
    /// bidder's escrow in the same step — or fails with the earned error and
    /// no change at all. On acceptance the bid vault holds exactly the new
    /// bid and the record names the new highest bid and bidder.
    pub fn handle_place_bid(
        &mut self,
        ledger: &mut Ledger,
        bidder: u64,
        auction_creator: u64,
        asset: u64,
        bid_token_mint: u64,
        now: i64,
        amount: u64,
    ) -> (r: Result<AuctionState, ErrorCode>)
        requires
            old(self).wf(),
            old(ledger).wf(),
        ensures
            final(self).wf(),
            final(ledger).wf(),
            final(self).spec_accepted_bid_token() == old(self).spec_accepted_bid_token(),
            match place_bid_error(
                old(self).spec_auction(auction_creator),
                *old(ledger),
                bidder,
                asset,
                bid_token_mint,
                now,
                amount,
            ) {
                Some(e) => r == Err::<AuctionState, ErrorCode>(e) && (forall|c: u64|
                    final(self).spec_auction(c) == old(self).spec_auction(c)) && (forall|
                    o: u64,
                    t: u64,
                |
                    final(ledger).balance(o, t) == old(ledger).balance(o, t)),
                None => ({
                    let e0 = old(self).spec_auction(auction_creator)->0;
                    let e2 = bid_entry(e0, bidder, amount);
                    r == Ok::<AuctionState, ErrorCode>(e2.state) && final(self).spec_auction(
                        auction_creator,
                    ) == Some(e2) && (forall|c: u64|
                        c != auction_creator ==> final(self).spec_auction(c) == old(
                            self,
                        ).spec_auction(c)) && (forall|o: u64, t: u64|
                        final(ledger).balance(o, t) == old(ledger).balance(o, t) - (if o == bidder
                            && t == bid_token_mint {
                            amount as int
                        } else {
                            0
                        }) + refund_to(e0, bid_token_mint, o, t))
                }),
            },
    {
        let idx = match self.find_index(auction_creator) {
            None => {
                return Err(ErrorCode::IdentityMismatch);
            },
            Some(i) => i,
        };
        let e = self.auctions[idx];
        if e.state.asset != asset || e.state.bid_token_mint != bid_token_mint {
            return Err(ErrorCode::IdentityMismatch);
        }
        if now >= e.state.auction_end_time || !e.state.is_active {
            return Err(ErrorCode::AuctionEnded);
        }
        if amount <= e.state.highest_bid {
            return Err(ErrorCode::BidTooLow);
        }
        let bal = ledger.balance_of(bidder, bid_token_mint);
        if bal < amount {
            return Err(ErrorCode::InsufficientBalance);
        }
        match e.state.highest_bidder {
            Some(prev) => {
                if prev != bidder {
                    let prev_bal = ledger.balance_of(prev, bid_token_mint);
                    if prev_bal > u64::MAX - e.state.highest_bid {
                        return Err(ErrorCode::Overflow);
                    }
                }
            },
            None => {},
        }
        match ledger.debit(bidder, bid_token_mint, amount) {
            Ok(()) => {},
            Err(err) => {
                return Err(err);
            },
        }
        match e.state.highest_bidder {
            Some(prev) => {
                match ledger.credit(prev, bid_token_mint, e.state.highest_bid) {
                    Ok(()) => {},
                    Err(err) => {
                        return Err(err);
                    },
                }
            },
            None => {},
        }
        let e2 = AuctionEntry {
            state: AuctionState {
                highest_bid: amount,
                highest_bidder: Some(bidder),
                ..e.state
            },
            asset_vault: e.asset_vault,
            bids_vault: EscrowVault { mint: e.bids_vault.mint, amount },
        };
        self.auctions[idx] = e2;
        proof {
            lemma_find_auction_update(old(self).auctions@, idx as int, e2, auction_creator);
            assert forall|c: u64| c != auction_creator implies self.spec_auction(c) == old(
                self,
            ).spec_auction(c) by {
                lemma_find_auction_update(old(self).auctions@, idx as int, e2, c);
            }
            assert forall|i: int| 0 <= i < self.auctions@.len() implies entry_wf(
                #[trigger] self.auctions@[i],
            ) && self.auctions@[i].state.bid_token_mint == self.accepted_bid_token by {
                if i != idx as int {
                    assert(self.auctions@[i] == old(self).auctions@[i]);
                } else {
                    assert(self.auctions@[i] == e2);
                }
            }
        }
        Ok(e2.state)
    }

    /// Settles an auction exactly once: revalidates every identity the
    /// request supplies against the record, enforces that the deadline has
    /// passed, that the auction is still unsettled and that a bid stands,
    /// then releases both escrows in one step — the whole bid vault to the
    /// seller, the whole asset vault to the winner — and retires the record.
    /// On any failure nothing changes: partial settlement cannot happen, as
    /// both credits are checked before either balance moves.
    pub fn handle_settle_auction(
        &mut self,
        ledger: &mut Ledger,
        auction_creator: u64,
        highest_bidder: u64,
        asset: u64,
        ft_mint: u64,
        bid_token_mint: u64,
        now: i64,
    ) -> (r: Result<AuctionState, ErrorCode>)
        requires
            old(self).wf(),
            old(ledger).wf(),
        ensures
            final(self).wf(),
            final(ledger).wf(),
            final(self).spec_accepted_bid_token() == old(self).spec_accepted_bid_token(),
            match settle_error(
                old(self).spec_auction(auction_creator),
                *old(ledger),
                auction_creator,
                highest_bidder,
                asset,
                ft_mint,
                bid_token_mint,
                now,
            ) {
                Some(e) => r == Err::<AuctionState, ErrorCode>(e) && (forall|c: u64|
                    final(self).spec_auction(c) == old(self).spec_auction(c)) && (forall|
                    o: u64,
                    t: u64,
                |
                    final(ledger).balance(o, t) == old(ledger).balance(o, t)),
                None => ({
                    let e0 = old(self).spec_auction(auction_creator)->0;
                    let e2 = settled_entry(e0);
                    r == Ok::<AuctionState, ErrorCode>(e2.state) && final(self).spec_auction(
                        auction_creator,
                    ) == Some(e2) && (forall|c: u64|
                        c != auction_creator ==> final(self).spec_auction(c) == old(
                            self,
                        ).spec_auction(c)) && (forall|o: u64, t: u64|
                        final(ledger).balance(o, t) == old(ledger).balance(o, t) + (if o
                            == auction_creator && t == bid_token_mint {
                            e0.bids_vault.amount as int
                        } else {
                            0
                        }) + (if o == highest_bidder && t == ft_mint {
                            e0.asset_vault.amount as int
                        } else {
                            0
                        }))
                }),
            },
    {
        let idx = match self.find_index(auction_creator) {
            None => {
                return Err(ErrorCode::IdentityMismatch);
            },
            Some(i) => i,
        };
        let e = self.auctions[idx];
        let bidder_tampered = match e.state.highest_bidder {
            Some(b) => b != highest_bidder,
            None => false,
        };
        if e.state.asset != asset || e.state.ft_mint != ft_mint || e.state.bid_token_mint
            != bid_token_mint || bidder_tampered {
            return Err(ErrorCode::IdentityMismatch);
        }
        if now < e.state.auction_end_time {
            return Err(ErrorCode::AuctionStillActive);
        }
        if !e.state.is_active {
            return Err(ErrorCode::AlreadySettled);
        }
        if e.state.highest_bid == 0 {
            return Err(ErrorCode::NoBidsPlaced);
        }
        let bid_amount = e.bids_vault.amount;
        let asset_amount = e.asset_vault.amount;
        let seller_bal = ledger.balance_of(auction_creator, bid_token_mint);
        if seller_bal > u64::MAX - bid_amount {
            return Err(ErrorCode::Overflow);
        }
        let winner_bal = ledger.balance_of(highest_bidder, ft_mint);
        if highest_bidder == auction_creator && ft_mint == bid_token_mint {
            if asset_amount > u64::MAX - winner_bal - bid_amount {
                return Err(ErrorCode::Overflow);
            }
        } else {
            if winner_bal > u64::MAX - asset_amount {
                return Err(ErrorCode::Overflow);
            }
        }
        match ledger.credit(auction_creator, bid_token_mint, bid_amount) {
            Ok(()) => {},
            Err(err) => {
                return Err(err);
            },
        }
        match ledger.credit(highest_bidder, ft_mint, asset_amount) {
            Ok(()) => {},
            Err(err) => {
                return Err(err);
            },
        }
        let e2 = AuctionEntry {
            state: AuctionState { is_active: false, ..e.state },
            asset_vault: EscrowVault { mint: e.asset_vault.mint, amount: 0 },
            bids_vault: EscrowVault { mint: e.bids_vault.mint, amount: 0 },
        };
        self.auctions[idx] = e2;
        proof {
            lemma_find_auction_update(old(self).auctions@, idx as int, e2, auction_creator);
            assert forall|c: u64| c != auction_creator implies self.spec_auction(c) == old(
                self,
            ).spec_auction(c) by {
                lemma_find_auction_update(old(self).auctions@, idx as int, e2, c);
            }
            assert forall|i: int| 0 <= i < self.auctions@.len() implies entry_wf(
                #[trigger] self.auctions@[i],
            ) && self.auctions@[i].state.bid_token_mint == self.accepted_bid_token by {
                if i != idx as int {
                    assert(self.auctions@[i] == old(self).auctions@[i]);
                } else {
                    assert(self.auctions@[i] == e2);
                }
            }
        }
        Ok(e2.state)
    }
}

proof fn lemma_find_auction_some_index(s: Seq<AuctionEntry>, creator: u64)
    requires
        find_auction(s, creator) is Some,
    ensures
        exists|i: int|
            0 <= i < s.len() && #[trigger] s[i] == find_auction(s, creator)->0 && s[
                i
            ].state.auction_creator == creator,
    decreases s.len(),
{
    if s.len() > 0 {
        if s[0].state.auction_creator == creator {
            assert(s[0] == find_auction(s, creator)->0);
        } else {
            lemma_find_auction_some_index(s.drop_first(), creator);
            let j = choose|j: int|
                0 <= j < s.drop_first().len() && #[trigger] s.drop_first()[j] == find_auction(
                    s.drop_first(),
                    creator,
                )->0 && s.drop_first()[j].state.auction_creator == creator;
            assert(s[j + 1] == s.drop_first()[j]);
        }
    }
}

} // verus!
