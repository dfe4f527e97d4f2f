//! Unsigned 256-bit integers built from two 128-bit limbs.
//!
//! Token ids, amounts, balances, allowances and supplies are all values in
//! `[0, 2^256 - 1]`.  The type offers exactly the arithmetic the ledger
//! needs: comparison, checked addition, and subtraction under a
//! caller-proved sufficiency bound.

use vstd::prelude::*;

verus! {

/// The number of values one 128-bit limb can take: `2^128`.
pub open spec fn limb_base() -> int {
    0x1_0000_0000_0000_0000_0000_0000_0000_0000int
}

/// The largest value a [`U256`] can hold: `2^256 - 1`.
pub open spec fn u256_max() -> int {
    limb_base() * limb_base() - 1
}

/// An unsigned 256-bit integer with value `hi * 2^128 + lo`.
#[derive(Clone, Copy, PartialEq, Eq, Structural, Debug, Hash)]
pub struct U256 {
    /// The most significant 128 bits.
    pub hi: u128,
    /// The least significant 128 bits.
    pub lo: u128,
}

impl U256 {
    /// The mathematical value represented by the two limbs.
    pub open spec fn val(self) -> int {
        self.hi * limb_base() + self.lo
    }

    /// Every representable value lies in `[0, 2^256 - 1]`.
    pub proof fn lemma_val_bounds(self)
        ensures
            0 <= self.val() <= u256_max(),
    {
    }

    /// The zero value.
    pub fn zero() -> (r: U256)
        ensures
            r.val() == 0,
    {
        U256 { hi: 0, lo: 0 }
    }

    /// Builds a value from its two limbs.
    pub fn new(hi: u128, lo: u128) -> (r: U256)
        ensures
            r.hi == hi,
            r.lo == lo,
            r.val() == hi * limb_base() + lo,
    {
        U256 { hi, lo }
    }

    /// Embeds a 128-bit value.
    pub fn from_u128(x: u128) -> (r: U256)
        ensures
            r.val() == x,
    {
        U256 { hi: 0, lo: x }
    }

    /// Embeds a machine word, used for array lengths in error payloads.
    pub fn from_usize(x: usize) -> (r: U256)
        ensures
            r.val() == x,
    {
        U256 { hi: 0, lo: x as u128 }
    }

    /// The largest representable value, `2^256 - 1`.
    pub fn max_value() -> (r: U256)
        ensures
            r.val() == u256_max(),
    {
        U256 { hi: u128::MAX, lo: u128::MAX }
    }

    /// Strict comparison of the represented values.
    pub fn lt(&self, other: &U256) -> (r: bool)
        ensures
            r == (self.val() < other.val()),
    {
        if self.hi != other.hi {
            self.hi < other.hi
        } else {
            self.lo < other.lo
        }
    }

    /// Non-strict comparison of the represented values.
    pub fn le(&self, other: &U256) -> (r: bool)
        ensures
            r == (self.val() <= other.val()),
    {
        !other.lt(self)
    }

    /// Addition that reports overflow instead of wrapping.
    pub fn checked_add(&self, other: &U256) -> (r: Option<U256>)
        ensures
            r is Some <==> self.val() + other.val() <= u256_max(),
            r matches Some(s) ==> s.val() == self.val() + other.val(),
    {
        let lo_overflows: bool = self.lo > u128::MAX - other.lo;
        let sum_lo: u128 = if lo_overflows {
            self.lo - (u128::MAX - other.lo) - 1
        } else {
            self.lo + other.lo
        };
        let carry: u128 = if lo_overflows {
            1
        } else {
            0
        };
        if self.hi > u128::MAX - other.hi {
            None
        } else {
            let hi_sum = self.hi + other.hi;
            if carry == 1 && hi_sum == u128::MAX {
                None
            } else {
                Some(U256 { hi: hi_sum + carry, lo: sum_lo })
            }
        }
    }

    /// Subtraction under the caller-proved bound `other <= self`.
    pub fn sub_unchecked(&self, other: &U256) -> (r: U256)
        requires
            other.val() <= self.val(),
        ensures
            r.val() == self.val() - other.val(),
    {
        if self.lo >= other.lo {
            proof {
                assert(other.hi <= self.hi);
            }
            U256 { hi: self.hi - other.hi, lo: self.lo - other.lo }
        } else {
            proof {
                assert(other.hi < self.hi);
            }
            U256 { hi: self.hi - other.hi - 1, lo: u128::MAX - other.lo + self.lo + 1 }
        }
    }
}

} // verus!
