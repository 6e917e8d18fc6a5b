//! A single-winner ascending-price auction engine for tokenized assets.
//!
//! An auction escrows a seller's asset shares, accepts strictly increasing
//! bids escrowed in one accepted payment currency, and settles exactly once
//! after its deadline with an atomic two-sided swap: the winning payment to
//! the seller, the escrowed shares to the winner.
//!
//! The engine works against a token ledger (balances per owner and token
//! type) and an asset registry (immutable records of tokenized assets), both
//! modelled here as plain values, and a time oracle whose readings are handed
//! in as timestamps.

pub mod auction;
pub mod errors;
pub mod laws;
pub mod ledger;
pub mod registry;
pub mod state;
