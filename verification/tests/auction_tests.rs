use rwa_auction::auction::AuctionHouse;
use rwa_auction::errors::ErrorCode;
use rwa_auction::ledger::Ledger;
use rwa_auction::registry::{AssetRegistry, AssetState};

const SELLER: u64 = 1;
const BIDDER1: u64 = 2;
const BIDDER2: u64 = 3;
const ASSET: u64 = 7;
const FT_MINT: u64 = 5;
const USDC: u64 = 9;
const DEADLINE: i64 = 1_000;

/// A world with one registered asset and a seller holding 500 shares.
fn setup() -> (AuctionHouse, Ledger, AssetRegistry) {
    let house = AuctionHouse::new(USDC);
    let mut ledger = Ledger::new();
    let mut registry = AssetRegistry::new();
    assert!(registry.register(AssetState { asset: ASSET, ft_mint: FT_MINT, total_shares: 1000 }));
    assert_eq!(ledger.credit(SELLER, FT_MINT, 500), Ok(()));
    (house, ledger, registry)
}

/// Opens the standard auction: 100 escrowed shares, the usual deadline.
fn open_auction(house: &mut AuctionHouse, ledger: &mut Ledger, registry: &AssetRegistry) {
    assert!(!house.has_auction(SELLER));
    let r = house.handle_create_auction(ledger, registry, SELLER, ASSET, FT_MINT, USDC, 100, DEADLINE);
    assert!(r.is_ok());
}

#[test]
fn create_auction_escrows_and_records() {
    let (mut house, mut ledger, registry) = setup();
    let state = house
        .handle_create_auction(&mut ledger, &registry, SELLER, ASSET, FT_MINT, USDC, 100, DEADLINE)
        .unwrap();
    assert_eq!(state.asset, ASSET);
    assert_eq!(state.auction_creator, SELLER);
    assert_eq!(state.ft_mint, FT_MINT);
    assert_eq!(state.bid_token_mint, USDC);
    assert!(state.is_active);
    assert_eq!(state.highest_bid, 0);
    assert_eq!(state.highest_bidder, None);
    assert_eq!(state.auction_end_time, DEADLINE);
    // The escrow left the seller and sits in the asset vault.
    assert_eq!(ledger.balance_of(SELLER, FT_MINT), 400);
    let entry = house.get_auction(SELLER).unwrap();
    assert_eq!(entry.asset_vault.mint, FT_MINT);
    assert_eq!(entry.asset_vault.amount, 100);
    assert_eq!(entry.bids_vault.mint, USDC);
    assert_eq!(entry.bids_vault.amount, 0);
}

#[test]
fn create_auction_unknown_asset() {
    let (mut house, mut ledger, registry) = setup();
    let r = house.handle_create_auction(&mut ledger, &registry, SELLER, 999, FT_MINT, USDC, 100, DEADLINE);
    assert_eq!(r, Err(ErrorCode::AssetNotFound));
    assert_eq!(ledger.balance_of(SELLER, FT_MINT), 500);
    assert!(!house.has_auction(SELLER));
}

#[test]
fn create_auction_wrong_share_token() {
    let (mut house, mut ledger, registry) = setup();
    let r = house.handle_create_auction(&mut ledger, &registry, SELLER, ASSET, 6, USDC, 100, DEADLINE);
    assert_eq!(r, Err(ErrorCode::MintMismatch));
    assert_eq!(ledger.balance_of(SELLER, FT_MINT), 500);
    assert!(!house.has_auction(SELLER));
}

#[test]
fn create_auction_wrong_bid_currency() {
    let (mut house, mut ledger, registry) = setup();
    let r = house.handle_create_auction(&mut ledger, &registry, SELLER, ASSET, FT_MINT, 8, 100, DEADLINE);
    assert_eq!(r, Err(ErrorCode::UnsupportedBidCurrency));
    assert_eq!(ledger.balance_of(SELLER, FT_MINT), 500);
    assert!(!house.has_auction(SELLER));
}

#[test]
fn create_auction_short_of_shares() {
    let (mut house, mut ledger, registry) = setup();
    let r = house.handle_create_auction(&mut ledger, &registry, SELLER, ASSET, FT_MINT, USDC, 501, DEADLINE);
    assert_eq!(r, Err(ErrorCode::InsufficientBalance));
    assert_eq!(ledger.balance_of(SELLER, FT_MINT), 500);
    assert!(!house.has_auction(SELLER));
}

#[test]
fn bids_must_strictly_increase() {
    let (mut house, mut ledger, registry) = setup();
    open_auction(&mut house, &mut ledger, &registry);
    assert_eq!(ledger.credit(BIDDER1, USDC, 1_000), Ok(()));
    assert_eq!(ledger.credit(BIDDER2, USDC, 1_000), Ok(()));
    // Each accepted bid becomes the recorded highest bid.
    let s1 = house.handle_place_bid(&mut ledger, BIDDER1, SELLER, ASSET, USDC, 10, 10).unwrap();
    assert_eq!(s1.highest_bid, 10);
    assert_eq!(s1.highest_bidder, Some(BIDDER1));
    let s2 = house.handle_place_bid(&mut ledger, BIDDER2, SELLER, ASSET, USDC, 20, 20).unwrap();
    assert_eq!(s2.highest_bid, 20);
    assert_eq!(s2.highest_bidder, Some(BIDDER2));
    let s3 = house.handle_place_bid(&mut ledger, BIDDER1, SELLER, ASSET, USDC, 30, 30).unwrap();
    assert_eq!(s3.highest_bid, 30);
    assert_eq!(s3.highest_bidder, Some(BIDDER1));
    // A tie is rejected, and so is anything below the standing bid.
    let tie = house.handle_place_bid(&mut ledger, BIDDER2, SELLER, ASSET, USDC, 40, 30);
    assert_eq!(tie, Err(ErrorCode::BidTooLow));
    let low = house.handle_place_bid(&mut ledger, BIDDER2, SELLER, ASSET, USDC, 40, 5);
    assert_eq!(low, Err(ErrorCode::BidTooLow));
    let entry = house.get_auction(SELLER).unwrap();
    assert_eq!(entry.state.highest_bid, 30);
    assert_eq!(entry.state.highest_bidder, Some(BIDDER1));
}

#[test]
fn accepted_bid_refunds_displaced_bidder() {
    let (mut house, mut ledger, registry) = setup();
    open_auction(&mut house, &mut ledger, &registry);
    assert_eq!(ledger.credit(BIDDER1, USDC, 100), Ok(()));
    assert_eq!(ledger.credit(BIDDER2, USDC, 100), Ok(()));
    house.handle_place_bid(&mut ledger, BIDDER1, SELLER, ASSET, USDC, 10, 10).unwrap();
    assert_eq!(ledger.balance_of(BIDDER1, USDC), 90);
    // The higher bid escrows the new amount and pays the old one back.
    house.handle_place_bid(&mut ledger, BIDDER2, SELLER, ASSET, USDC, 20, 25).unwrap();
    assert_eq!(ledger.balance_of(BIDDER1, USDC), 100);
    assert_eq!(ledger.balance_of(BIDDER2, USDC), 75);
    let entry = house.get_auction(SELLER).unwrap();
    assert_eq!(entry.bids_vault.amount, 25);
}

#[test]
fn bidder_raising_own_bid_gets_prior_escrow_back() {
    let (mut house, mut ledger, registry) = setup();
    open_auction(&mut house, &mut ledger, &registry);
    assert_eq!(ledger.credit(BIDDER1, USDC, 150), Ok(()));
    house.handle_place_bid(&mut ledger, BIDDER1, SELLER, ASSET, USDC, 10, 40).unwrap();
    assert_eq!(ledger.balance_of(BIDDER1, USDC), 110);
    // The raise must be covered in full; the old escrow of 40 comes back in
    // the same step, so the net cost is the difference.
    house.handle_place_bid(&mut ledger, BIDDER1, SELLER, ASSET, USDC, 20, 70).unwrap();
    assert_eq!(ledger.balance_of(BIDDER1, USDC), 80);
    let entry = house.get_auction(SELLER).unwrap();
    assert_eq!(entry.bids_vault.amount, 70);
}

#[test]
fn bid_identity_mismatches() {
    let (mut house, mut ledger, registry) = setup();
    open_auction(&mut house, &mut ledger, &registry);
    assert_eq!(ledger.credit(BIDDER1, USDC, 100), Ok(()));
    // A reference to a seller with no auction resolves to nothing.
    let r = house.handle_place_bid(&mut ledger, BIDDER1, 42, ASSET, USDC, 10, 10);
    assert_eq!(r, Err(ErrorCode::IdentityMismatch));
    // A wrong asset or a wrong payment currency contradicts the record.
    let r = house.handle_place_bid(&mut ledger, BIDDER1, SELLER, 999, USDC, 10, 10);
    assert_eq!(r, Err(ErrorCode::IdentityMismatch));
    let r = house.handle_place_bid(&mut ledger, BIDDER1, SELLER, ASSET, 8, 10, 10);
    assert_eq!(r, Err(ErrorCode::IdentityMismatch));
    assert_eq!(ledger.balance_of(BIDDER1, USDC), 100);
    assert_eq!(house.get_auction(SELLER).unwrap().state.highest_bid, 0);
}

#[test]
fn no_bids_at_or_after_deadline() {
    let (mut house, mut ledger, registry) = setup();
    open_auction(&mut house, &mut ledger, &registry);
    assert_eq!(ledger.credit(BIDDER1, USDC, 100), Ok(()));
    let at = house.handle_place_bid(&mut ledger, BIDDER1, SELLER, ASSET, USDC, DEADLINE, 10);
    assert_eq!(at, Err(ErrorCode::AuctionEnded));
    let after = house.handle_place_bid(&mut ledger, BIDDER1, SELLER, ASSET, USDC, DEADLINE + 50, 10);
    assert_eq!(after, Err(ErrorCode::AuctionEnded));
    assert_eq!(ledger.balance_of(BIDDER1, USDC), 100);
    assert_eq!(house.get_auction(SELLER).unwrap().state.highest_bid, 0);
}

#[test]
fn bid_without_funds() {
    let (mut house, mut ledger, registry) = setup();
    open_auction(&mut house, &mut ledger, &registry);
    assert_eq!(ledger.credit(BIDDER1, USDC, 9), Ok(()));
    let r = house.handle_place_bid(&mut ledger, BIDDER1, SELLER, ASSET, USDC, 10, 10);
    assert_eq!(r, Err(ErrorCode::InsufficientBalance));
    assert_eq!(ledger.balance_of(BIDDER1, USDC), 9);
    assert_eq!(house.get_auction(SELLER).unwrap().state.highest_bid, 0);
}

#[test]
fn bid_refund_overflow_changes_nothing() {
    let (mut house, mut ledger, registry) = setup();
    open_auction(&mut house, &mut ledger, &registry);
    assert_eq!(ledger.credit(BIDDER1, USDC, 10), Ok(()));
    assert_eq!(ledger.credit(BIDDER2, USDC, 100), Ok(()));
    house.handle_place_bid(&mut ledger, BIDDER1, SELLER, ASSET, USDC, 10, 10).unwrap();
    // Fill the displaced bidder's account so the refund cannot land.
    assert_eq!(ledger.credit(BIDDER1, USDC, u64::MAX), Ok(()));
    let r = house.handle_place_bid(&mut ledger, BIDDER2, SELLER, ASSET, USDC, 20, 20);
    assert_eq!(r, Err(ErrorCode::Overflow));
    assert_eq!(ledger.balance_of(BIDDER1, USDC), u64::MAX);
    assert_eq!(ledger.balance_of(BIDDER2, USDC), 100);
    let entry = house.get_auction(SELLER).unwrap();
    assert_eq!(entry.state.highest_bid, 10);
    assert_eq!(entry.bids_vault.amount, 10);
}

#[test]
fn settlement_swaps_both_escrows_atomically() {
    let (mut house, mut ledger, registry) = setup();
    open_auction(&mut house, &mut ledger, &registry);
    assert_eq!(ledger.credit(BIDDER1, USDC, 100), Ok(()));
    house.handle_place_bid(&mut ledger, BIDDER1, SELLER, ASSET, USDC, 10, 30).unwrap();
    let state = house
        .handle_settle_auction(&mut ledger, SELLER, BIDDER1, ASSET, FT_MINT, USDC, DEADLINE)
        .unwrap();
    assert!(!state.is_active);
    assert_eq!(state.highest_bid, 30);
    // The seller gained exactly the winning bid, the winner exactly the
    // escrowed shares, and both vaults ended at zero.
    assert_eq!(ledger.balance_of(SELLER, USDC), 30);
    assert_eq!(ledger.balance_of(BIDDER1, FT_MINT), 100);
    assert_eq!(ledger.balance_of(BIDDER1, USDC), 70);
    assert_eq!(ledger.balance_of(SELLER, FT_MINT), 400);
    let entry = house.get_auction(SELLER).unwrap();
    assert_eq!(entry.asset_vault.amount, 0);
    assert_eq!(entry.bids_vault.amount, 0);
}

#[test]
fn no_premature_settlement() {
    let (mut house, mut ledger, registry) = setup();
    open_auction(&mut house, &mut ledger, &registry);
    assert_eq!(ledger.credit(BIDDER1, USDC, 100), Ok(()));
    house.handle_place_bid(&mut ledger, BIDDER1, SELLER, ASSET, USDC, 10, 30).unwrap();
    let r = house.handle_settle_auction(&mut ledger, SELLER, BIDDER1, ASSET, FT_MINT, USDC, DEADLINE - 1);
    assert_eq!(r, Err(ErrorCode::AuctionStillActive));
    // Zero transfers happened.
    assert_eq!(ledger.balance_of(SELLER, USDC), 0);
    assert_eq!(ledger.balance_of(BIDDER1, FT_MINT), 0);
    assert!(house.get_auction(SELLER).unwrap().state.is_active);
}

#[test]
fn settlement_succeeds_exactly_once() {
    let (mut house, mut ledger, registry) = setup();
    open_auction(&mut house, &mut ledger, &registry);
    assert_eq!(ledger.credit(BIDDER1, USDC, 100), Ok(()));
    house.handle_place_bid(&mut ledger, BIDDER1, SELLER, ASSET, USDC, 10, 30).unwrap();
    assert!(house.handle_settle_auction(&mut ledger, SELLER, BIDDER1, ASSET, FT_MINT, USDC, DEADLINE).is_ok());
    let again = house.handle_settle_auction(&mut ledger, SELLER, BIDDER1, ASSET, FT_MINT, USDC, DEADLINE + 9);
    assert_eq!(again, Err(ErrorCode::AlreadySettled));
    // The second call produced no further transfers.
    assert_eq!(ledger.balance_of(SELLER, USDC), 30);
    assert_eq!(ledger.balance_of(BIDDER1, FT_MINT), 100);
}

#[test]
fn settlement_without_bids_is_refused() {
    let (mut house, mut ledger, registry) = setup();
    open_auction(&mut house, &mut ledger, &registry);
    let r = house.handle_settle_auction(&mut ledger, SELLER, BIDDER1, ASSET, FT_MINT, USDC, DEADLINE + 1);
    assert_eq!(r, Err(ErrorCode::NoBidsPlaced));
    assert_eq!(ledger.balance_of(BIDDER1, FT_MINT), 0);
    let entry = house.get_auction(SELLER).unwrap();
    assert!(entry.state.is_active);
    assert_eq!(entry.asset_vault.amount, 100);
}

#[test]
fn settlement_rejects_tampered_identities() {
    let (mut house, mut ledger, registry) = setup();
    open_auction(&mut house, &mut ledger, &registry);
    assert_eq!(ledger.credit(BIDDER1, USDC, 100), Ok(()));
    house.handle_place_bid(&mut ledger, BIDDER1, SELLER, ASSET, USDC, 10, 30).unwrap();
    // A different seller in place of the creator resolves to no record.
    let forged_seller = house.handle_settle_auction(&mut ledger, 42, BIDDER1, ASSET, FT_MINT, USDC, DEADLINE);
    assert_eq!(forged_seller, Err(ErrorCode::IdentityMismatch));
    // A different winner, asset or token type contradicts the record.
    let forged_winner = house.handle_settle_auction(&mut ledger, SELLER, BIDDER2, ASSET, FT_MINT, USDC, DEADLINE);
    assert_eq!(forged_winner, Err(ErrorCode::IdentityMismatch));
    let forged_asset = house.handle_settle_auction(&mut ledger, SELLER, BIDDER1, 999, FT_MINT, USDC, DEADLINE);
    assert_eq!(forged_asset, Err(ErrorCode::IdentityMismatch));
    let forged_mint = house.handle_settle_auction(&mut ledger, SELLER, BIDDER1, ASSET, 6, USDC, DEADLINE);
    assert_eq!(forged_mint, Err(ErrorCode::IdentityMismatch));
    let forged_currency = house.handle_settle_auction(&mut ledger, SELLER, BIDDER1, ASSET, FT_MINT, 8, DEADLINE);
    assert_eq!(forged_currency, Err(ErrorCode::IdentityMismatch));
    // Zero funds moved and the auction still stands.
    assert_eq!(ledger.balance_of(SELLER, USDC), 0);
    assert_eq!(ledger.balance_of(BIDDER1, FT_MINT), 0);
    assert_eq!(ledger.balance_of(42, USDC), 0);
    assert!(house.get_auction(SELLER).unwrap().state.is_active);
}

#[test]
fn settlement_overflow_changes_nothing() {
    let (mut house, mut ledger, registry) = setup();
    open_auction(&mut house, &mut ledger, &registry);
    assert_eq!(ledger.credit(BIDDER1, USDC, 100), Ok(()));
    house.handle_place_bid(&mut ledger, BIDDER1, SELLER, ASSET, USDC, 10, 30).unwrap();
    // The winner's share account is too full to take the escrowed asset.
    assert_eq!(ledger.credit(BIDDER1, FT_MINT, u64::MAX - 99), Ok(()));
    let r = house.handle_settle_auction(&mut ledger, SELLER, BIDDER1, ASSET, FT_MINT, USDC, DEADLINE);
    assert_eq!(r, Err(ErrorCode::Overflow));
    assert_eq!(ledger.balance_of(SELLER, USDC), 0);
    assert_eq!(ledger.balance_of(BIDDER1, FT_MINT), u64::MAX - 99);
    let entry = house.get_auction(SELLER).unwrap();
    assert!(entry.state.is_active);
    assert_eq!(entry.asset_vault.amount, 100);
    assert_eq!(entry.bids_vault.amount, 30);
}

#[test]
fn full_auction_lifecycle() {
    let (mut house, mut ledger, registry) = setup();
    // Create with 100 escrowed shares.
    open_auction(&mut house, &mut ledger, &registry);
    assert_eq!(ledger.credit(BIDDER1, USDC, 50), Ok(()));
    assert_eq!(ledger.credit(BIDDER2, USDC, 50), Ok(()));
    // First bid of 10 is accepted.
    let s1 = house.handle_place_bid(&mut ledger, BIDDER1, SELLER, ASSET, USDC, 10, 10).unwrap();
    assert_eq!(s1.highest_bid, 10);
    // A lower counter-bid of 5 is refused.
    let low = house.handle_place_bid(&mut ledger, BIDDER2, SELLER, ASSET, USDC, 20, 5);
    assert_eq!(low, Err(ErrorCode::BidTooLow));
    // A higher counter-bid of 20 is accepted.
    let s2 = house.handle_place_bid(&mut ledger, BIDDER2, SELLER, ASSET, USDC, 30, 20).unwrap();
    assert_eq!(s2.highest_bid, 20);
    assert_eq!(s2.highest_bidder, Some(BIDDER2));
    // At the deadline, settlement pays the seller 20 and hands the winner
    // the 100 escrowed shares, then retires the auction.
    let settled = house
        .handle_settle_auction(&mut ledger, SELLER, BIDDER2, ASSET, FT_MINT, USDC, DEADLINE)
        .unwrap();
    assert!(!settled.is_active);
    assert_eq!(ledger.balance_of(SELLER, USDC), 20);
    assert_eq!(ledger.balance_of(BIDDER2, FT_MINT), 100);
    assert_eq!(ledger.balance_of(BIDDER1, USDC), 50);
    assert_eq!(ledger.balance_of(BIDDER2, USDC), 30);
    let again = house.handle_settle_auction(&mut ledger, SELLER, BIDDER2, ASSET, FT_MINT, USDC, DEADLINE + 1);
    assert_eq!(again, Err(ErrorCode::AlreadySettled));
}
