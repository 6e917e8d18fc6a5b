//! The engine's guarantees that span more than one operation, proved over
//! the decision functions that the handlers' contracts are stated with.

use vstd::prelude::*;

use crate::auction::{bid_entry, place_bid_error, settle_error, settled_entry};
use crate::errors::ErrorCode;
use crate::ledger::Ledger;
use crate::state::{entry_wf, AuctionEntry};

verus! {

/// Bids are strictly increasing. A bid is only ever accepted above the
/// standing highest bid, and an accepted bid becomes the standing highest
/// bid; so after a sequence of accepted bids the record holds the last of
/// them, and no later bid at or below it is ever accepted — whatever the
/// ledger holds, whoever bids, and whenever. When such a late bid clears the
/// identity and deadline checks, the error it earns is `BidTooLow`: ties are
/// rejected.
pub proof fn lemma_bids_strictly_increase(
    e: AuctionEntry,
    ledger: Ledger,
    bidder: u64,
    asset: u64,
    bid_token_mint: u64,
    now: i64,
    amount: u64,
)
    ensures
        place_bid_error(Some(e), ledger, bidder, asset, bid_token_mint, now, amount) is None
            ==> amount > e.state.highest_bid && bid_entry(e, bidder, amount).state.highest_bid
            == amount,
        amount <= e.state.highest_bid ==> place_bid_error(
            Some(e),
            ledger,
            bidder,
            asset,
            bid_token_mint,
            now,
            amount,
        ) is Some,
        (amount <= e.state.highest_bid && e.state.asset == asset && e.state.bid_token_mint
            == bid_token_mint && now < e.state.auction_end_time && e.state.is_active)
            ==> place_bid_error(Some(e), ledger, bidder, asset, bid_token_mint, now, amount)
            == Some(ErrorCode::BidTooLow),
{
}

/// Settlement succeeds at most once. Once a settlement request is owed
/// success, the auction it leaves behind can never be settled again: any
/// later request fails, whatever ledger, counter-parties or timestamp it
/// brings; and a later request that names the same parties at or after the
/// deadline earns exactly `AlreadySettled`. The executor's own contract adds
/// that a failing settlement moves no balance.
pub proof fn lemma_settle_only_once(
    e: AuctionEntry,
    ledger: Ledger,
    ledger2: Ledger,
    auction_creator: u64,
    highest_bidder: u64,
    creator2: u64,
    bidder2: u64,
    asset2: u64,
    ft_mint2: u64,
    bid_token_mint2: u64,
    now: i64,
    now2: i64,
)
    requires
        settle_error(
            Some(e),
            ledger,
            auction_creator,
            highest_bidder,
            e.state.asset,
            e.state.ft_mint,
            e.state.bid_token_mint,
            now,
        ) is None,
    ensures
        settle_error(
            Some(settled_entry(e)),
            ledger2,
            creator2,
            bidder2,
            asset2,
            ft_mint2,
            bid_token_mint2,
            now2,
        ) is Some,
        (asset2 == e.state.asset && ft_mint2 == e.state.ft_mint && bid_token_mint2
            == e.state.bid_token_mint && bidder2 == highest_bidder && now2
            >= e.state.auction_end_time) ==> settle_error(
            Some(settled_entry(e)),
            ledger2,
            creator2,
            bidder2,
            asset2,
            ft_mint2,
            bid_token_mint2,
            now2,
        ) == Some(ErrorCode::AlreadySettled),
{
}

/// No premature settlement. A settlement request that arrives before the
/// deadline fails with `AuctionStillActive` whenever its identities match
/// the record, and fails in any case; the executor's own contract adds that
/// a failing settlement moves no balance.
pub proof fn lemma_no_premature_settlement(
    e: AuctionEntry,
    ledger: Ledger,
    auction_creator: u64,
    highest_bidder: u64,
    asset: u64,
    ft_mint: u64,
    bid_token_mint: u64,
    now: i64,
)
    requires
        now < e.state.auction_end_time,
    ensures
        settle_error(
            Some(e),
            ledger,
            auction_creator,
            highest_bidder,
            asset,
            ft_mint,
            bid_token_mint,
            now,
        ) is Some,
        (e.state.asset == asset && e.state.ft_mint == ft_mint && e.state.bid_token_mint
            == bid_token_mint && (e.state.highest_bidder matches Some(b) ==> b == highest_bidder))
            ==> settle_error(
            Some(e),
            ledger,
            auction_creator,
            highest_bidder,
            asset,
            ft_mint,
            bid_token_mint,
            now,
        ) == Some(ErrorCode::AuctionStillActive),
{
}

/// No bids at or after the deadline. A bid whose timestamp has reached the
/// deadline fails with `AuctionEnded` whenever its identities match the
/// record, and fails in any case — whatever the amount and whatever the
/// bidder's funds.
pub proof fn lemma_no_bids_after_deadline(
    e: AuctionEntry,
    ledger: Ledger,
    bidder: u64,
    asset: u64,
    bid_token_mint: u64,
    now: i64,
    amount: u64,
)
    requires
        now >= e.state.auction_end_time,
    ensures
        place_bid_error(Some(e), ledger, bidder, asset, bid_token_mint, now, amount) is Some,
        (e.state.asset == asset && e.state.bid_token_mint == bid_token_mint) ==> place_bid_error(
            Some(e),
            ledger,
            bidder,
            asset,
            bid_token_mint,
            now,
            amount,
        ) == Some(ErrorCode::AuctionEnded),
{
}

/// No settlement without a bid. Once the deadline has passed, settling a
/// live auction on which no bid was placed fails with `NoBidsPlaced`: the
/// escrowed asset is never released for nothing. (Before the deadline such a
/// request already fails with `AuctionStillActive`: the deadline check runs
/// first.)
pub proof fn lemma_no_bid_guard(
    e: AuctionEntry,
    ledger: Ledger,
    auction_creator: u64,
    highest_bidder: u64,
    now: i64,
)
    requires
        entry_wf(e),
        e.state.is_active,
        e.state.highest_bid == 0,
        now >= e.state.auction_end_time,
    ensures
        settle_error(
            Some(e),
            ledger,
            auction_creator,
            highest_bidder,
            e.state.asset,
            e.state.ft_mint,
            e.state.bid_token_mint,
            now,
        ) == Some(ErrorCode::NoBidsPlaced),
{
}

/// What a successful settlement pays. On a well-formed auction that is owed
/// settlement, the bid vault holds exactly the standing highest bid, which
/// is positive; so the executor's contract, which hands the whole bid vault
/// to the seller and the whole asset vault to the winner and empties both,
/// raises the seller's payment balance by exactly the highest bid.
pub proof fn lemma_settlement_pays_highest_bid(
    e: AuctionEntry,
    ledger: Ledger,
    auction_creator: u64,
    highest_bidder: u64,
    asset: u64,
    ft_mint: u64,
    bid_token_mint: u64,
    now: i64,
)
    requires
        entry_wf(e),
        settle_error(
            Some(e),
            ledger,
            auction_creator,
            highest_bidder,
            asset,
            ft_mint,
            bid_token_mint,
            now,
        ) is None,
    ensures
        e.bids_vault.amount == e.state.highest_bid,
        e.state.highest_bid > 0,
        settled_entry(e).bids_vault.amount == 0,
        settled_entry(e).asset_vault.amount == 0,
        !settled_entry(e).state.is_active,
{
}

} // verus!
