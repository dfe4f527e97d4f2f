//! Account addresses.
//!
//! An address is a 20-byte opaque account identifier, stored here as a
//! 4-byte high part and a 16-byte low part.  The all-zero address is the
//! distinguished null address: it stands for the mint source or the burn
//! sink and may never hold a balance.

use vstd::prelude::*;

verus! {

/// A 20-byte account identifier with value `hi * 2^128 + lo`.
#[derive(Clone, Copy, PartialEq, Eq, Structural, Debug, Hash)]
pub struct Address {
    /// The most significant 4 bytes.
    pub hi: u32,
    /// The least significant 16 bytes.
    pub lo: u128,
}

impl Address {
    /// Whether this is the null address.
    pub open spec fn spec_is_zero(self) -> bool {
        self.hi == 0 && self.lo == 0
    }

    /// The null address, at the spec level.
    pub open spec fn spec_zero() -> Address {
        Address { hi: 0, lo: 0 }
    }

    /// The null address.
    pub fn zero() -> (r: Address)
        ensures
            r == Address::spec_zero(),
            r.spec_is_zero(),
    {
        Address { hi: 0, lo: 0 }
    }

    /// Builds an address from its two parts.
    pub fn new(hi: u32, lo: u128) -> (r: Address)
        ensures
            r.hi == hi,
            r.lo == lo,
    {
        Address { hi, lo }
    }

    /// Tests for the null address.
    pub fn is_zero(&self) -> (r: bool)
        ensures
            r == self.spec_is_zero(),
    {
        self.hi == 0 && self.lo == 0
    }
}

} // verus!
