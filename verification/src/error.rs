//! The error taxonomy of the ledger.
//!
//! Errors are values: every mutating operation either succeeds or returns
//! one of these tags, and a failed operation leaves the ledger unchanged.

use vstd::prelude::*;

use crate::address::Address;
use crate::u256::U256;

verus! {

/// A ledger error, tagged with the data the host reports to the caller.
#[derive(Clone, Copy, PartialEq, Eq, Structural, Debug)]
pub enum Error {
    /// An owner's balance of a token id is too small for the requested debit.
    InsufficientBalance {
        /// The account whose balance was checked.
        sender: Address,
        /// The balance that account holds.
        balance: U256,
        /// The amount the operation needed.
        needed: U256,
        /// The token id.
        id: U256,
    },
    /// The spender has no permission to spend the token.
    InsufficientPermission {
        /// The account that attempted the spend.
        spender: Address,
        /// The token id.
        id: U256,
    },
    /// A spender's allowance for a token id is too small.
    ///
    /// Both `allowance` and `needed` carry the current allowance,
    /// mirroring the wire format of the error.
    InsufficientAllowance {
        /// The account that attempted the spend.
        spender: Address,
        /// The allowance that account holds.
        allowance: U256,
        /// Reported alongside `allowance`, with the same value.
        needed: U256,
        /// The token id.
        id: U256,
    },
    /// The null address may not grant approvals.
    InvalidApprover {
        /// The failing approver.
        approver: Address,
    },
    /// The null address may not send tokens.
    InvalidSender {
        /// The failing sender.
        sender: Address,
    },
    /// The null address may not be approved as a spender.
    InvalidSpender {
        /// The failing spender.
        spender: Address,
    },
    /// The null address may not receive tokens.
    InvalidReceiver {
        /// The failing receiver.
        receiver: Address,
    },
    /// A batch operation was given id and amount vectors of different lengths.
    InvalidArrayLength {
        /// The length of the id vector.
        ids_length: U256,
        /// The length of the amount vector.
        values_length: U256,
    },
}

} // verus!
