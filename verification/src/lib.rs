//! A non-fungible token registry with an offer-based market.
//!
//! - `account`: 32-byte accounts, the null account standing for "nobody".
//! - `balances`: fee arithmetic for sales and payout statuses.
//! - `storage`: the storage hash maps that hold the registry.
//! - `events`: token ids, errors and events.
//! - `model`: the registry as mathematical maps, and its invariant.
//! - `dotnft`: the registry's operations.
//! - `laws`: properties that span the operations.

pub mod account;
pub mod balances;
pub mod storage;
pub mod events;
pub mod model;
pub mod dotnft;
pub mod laws;
