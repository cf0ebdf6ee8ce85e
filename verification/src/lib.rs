//! Core of a CoinJoin coordination service.
//!
//! Multiple independent wallets each contribute one spendable coin and
//! nominate a payout address; a coordinator assembles every contribution
//! into one joint transaction, collects each participant's independently
//! signed copy, merges the copies into a fully signed transaction and
//! extracts the broadcastable result.
//!
//! This crate holds the protocol core: the contribution registry, the
//! joint-transaction builder, the signature merge and the finalizer,
//! together with the byte-exact persisted encoding of every artifact.
//! Wallet key handling, chain access and the HTTP transport are outside
//! collaborators; they hand the core plain values and take plain values
//! back.

pub mod aggregator;
pub mod builder;
pub mod bytevec;
pub mod codec;
pub mod errors;
pub mod finalizer;
pub mod hex;
pub mod outpoint;
pub mod registry;
pub mod round;
pub mod transaction;
pub mod wallet;
