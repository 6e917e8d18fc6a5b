//! The per-auction state: the auction record and its two escrow vaults.

use vstd::prelude::*;

verus! {

/// The authoritative record of one auction. The identities (`asset`,
/// `auction_creator`, `ft_mint`, `bid_token_mint`) and the deadline never
/// change after creation; `highest_bid`, `highest_bidder` and `is_active`
/// evolve as bids arrive and settlement runs.
#[derive(Clone, Copy, Debug, PartialEq, Eq)]
pub struct AuctionState {
    /// Identity of the underlying asset being auctioned.
    pub asset: u64,
    /// Identity of the seller who created the auction.
    pub auction_creator: u64,
    /// Token type of the asset's fungible shares.
    pub ft_mint: u64,
    /// Token type of the accepted payment currency.
    pub bid_token_mint: u64,
    /// True from creation until settlement; the transition is one-way.
    pub is_active: bool,
    /// The current highest bid; zero until the first bid is accepted.
    pub highest_bid: u64,
    /// The current highest bidder; unset until the first bid is accepted.
    pub highest_bidder: Option<u64>,
    /// The deadline: bids are rejected at or after it, settlement before it.
    pub auction_end_time: i64,
}

/// An escrow vault: a balance of one token type whose spending is authorized
/// only by the engine's own settlement and refund logic operating on the
/// matching auction record, never by a caller-held key.
#[derive(Clone, Copy, Debug, PartialEq, Eq, Structural)]
pub struct EscrowVault {
    pub mint: u64,
    pub amount: u64,
}

/// One auction as the engine holds it: the record together with the vault of
/// escrowed asset shares and the vault of the escrowed standing bid.
#[derive(Clone, Copy, Debug, PartialEq, Eq)]
pub struct AuctionEntry {
    pub state: AuctionState,
    pub asset_vault: EscrowVault,
    pub bids_vault: EscrowVault,
}

/// The invariant of one auction, established at creation and preserved by
/// every accepted bid and by settlement:
/// - the highest bid is zero exactly while no bidder is recorded;
/// - each vault holds the token type the record names for it;
/// - while the auction is active, the bid vault holds exactly the standing
///   highest bid (a displaced bidder is refunded when a higher bid lands);
/// - once settled, both vaults are empty and a winning bid remains recorded.
pub open spec fn entry_wf(e: AuctionEntry) -> bool {
    &&& (e.state.highest_bid == 0 <==> e.state.highest_bidder is None)
    &&& e.asset_vault.mint == e.state.ft_mint
    &&& e.bids_vault.mint == e.state.bid_token_mint
    &&& (e.state.is_active ==> e.bids_vault.amount == e.state.highest_bid)
    &&& (!e.state.is_active ==> e.bids_vault.amount == 0 && e.asset_vault.amount == 0
        && e.state.highest_bid > 0)
}

} // verus!
