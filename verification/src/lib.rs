//! A verified multi-token ledger in the style of ERC-6909.
//!
//! The ledger keeps per-owner, per-token-id balances together with two
//! independent authorization mechanisms: per-token allowances and
//! account-wide operator flags.  A supply extension layers a per-token-id
//! total-supply counter on top of the ledger and maintains the invariant
//! that the recorded supply of every token id equals the sum of all
//! balances for that id.

pub mod address;
pub mod erc6909;
pub mod error;
pub mod event;
pub mod laws;
pub mod model;
pub mod supply;
pub mod u256;
