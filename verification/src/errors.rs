//! The error kinds the auction engine reports.

use vstd::prelude::*;

verus! {

/// Every failing operation reports one of these kinds, never a generic
/// failure, so a caller can tell a permanently invalid request from one that
/// may succeed later (after acquiring funds, bidding higher, or waiting).
#[derive(Clone, Copy, Debug, PartialEq, Eq, Structural)]
pub enum ErrorCode {
    /// No asset record exists for the referenced asset.
    AssetNotFound,
    /// The asset record's share-token type differs from the one supplied.
    MintMismatch,
    /// The offered payment currency is not the accepted settlement currency.
    UnsupportedBidCurrency,
    /// The caller's balance is below the amount the operation moves.
    InsufficientBalance,
    /// A supplied counter-party account contradicts the auction record.
    IdentityMismatch,
    /// The bid arrived at or after the auction's deadline.
    AuctionEnded,
    /// The bid does not strictly exceed the current highest bid.
    BidTooLow,
    /// Settlement was attempted before the auction's deadline.
    AuctionStillActive,
    /// The auction has already been settled.
    AlreadySettled,
    /// Settlement was attempted on an auction that received no bid.
    NoBidsPlaced,
    /// A balance would exceed what an unsigned 64-bit amount can hold.
    Overflow,
}

} // verus!
