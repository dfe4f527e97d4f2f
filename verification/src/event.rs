//! The wire shape of ledger events.
//!
//! Every state change appends exactly one record to the ledger's
//! append-only event log; a host adapter can drain the log into its own
//! sink.  Field order and meaning follow the wire format.

use vstd::prelude::*;

use crate::address::Address;
use crate::u256::U256;

verus! {

/// A structured event record.
#[derive(PartialEq, Debug)]
pub enum Event {
    /// A `caller` moved `amount` of token `id` from `sender` to `receiver`.
    Transfer {
        /// The account that initiated the transfer.
        caller: Address,
        /// The account debited.
        sender: Address,
        /// The account credited.
        receiver: Address,
        /// The token id.
        id: U256,
        /// The amount moved.
        amount: U256,
    },
    /// An `owner` set the operator status of a `spender`.
    OperatorSet {
        /// The account granting or revoking the status.
        owner: Address,
        /// The account whose status changed.
        spender: Address,
        /// The new status.
        approved: bool,
    },
    /// An `owner` approved a `spender` for `amount` of token `id`.
    Approval {
        /// The account granting the allowance.
        owner: Address,
        /// The account allowed to spend.
        spender: Address,
        /// The token id.
        id: U256,
        /// The new absolute allowance.
        amount: U256,
    },
    /// One leg of tokens moved; `from` or `to` may be the null address
    /// for mints and burns.
    TransferSingle {
        /// The account that initiated the operation.
        caller: Address,
        /// The account debited, or the null address for a mint.
        from: Address,
        /// The account credited, or the null address for a burn.
        to: Address,
        /// The token id.
        id: U256,
        /// The amount moved.
        amount: U256,
    },
    /// Several legs moved at once between one `from` and one `to`.
    TransferBatch {
        /// The account that initiated the operation.
        caller: Address,
        /// The account debited, or the null address for a mint.
        from: Address,
        /// The account credited, or the null address for a burn.
        to: Address,
        /// The token ids, one per leg.
        ids: Vec<U256>,
        /// The amounts, parallel to `ids`.
        amounts: Vec<U256>,
    },
}

} // verus!
