//! Decision and treasury core of an on-chain organization: a fungible-token
//! ledger with free/frozen accounting, a custodial vault per organization, an
//! organization registry with membership and rule baselines, and a proposal
//! lifecycle state machine with weighted-threshold voting.
//!
//! The host that authenticates callers, orders calls, and persists state is
//! out of scope: every entry point receives an already-authenticated account
//! identity and, where expiry matters, the current logical height.

#![allow(unused_imports)]

pub mod codec;
pub mod dao;
pub mod errors;
pub mod finance;
pub mod organization;
pub mod rules;
pub mod token;

use vstd::prelude::*;

verus! {

/// An authenticated account identity, as supplied by the host.
pub type AccountId = u64;

/// Units of a fungible asset, and of the native currency.
pub type Balance = u64;

/// Identifier of one fungible asset class.
pub type AssetId = u64;

/// Logical clock value (block height) supplied by the host per call.
pub type BlockNumber = u64;

/// Value of the organization counter; each organization id is derived from one.
pub type OrgCount = u32;

} // verus!
