//! The mathematical model of the ledger state.
//!
//! Each persistent map of the ledger is held as a vector of entries with
//! pairwise-distinct keys; an absent key means the default value.  This
//! module defines the spec-level lookup for each map, the sum of balances
//! per token id, the per-leg transition on the balance map that every
//! transfer, mint and burn converges on, and the lemmas that connect
//! entry-vector edits to those spec-level views.

use vstd::prelude::*;

use crate::address::Address;
use crate::u256::{u256_max, U256};

verus! {

/// The key of a balance slot: owner and token id.
pub type BalKey = (Address, U256);

/// The key of an allowance slot: owner, spender and token id.
pub type AllowKey = (Address, Address, U256);

/// The key of an operator flag: owner and spender.
pub type OpKey = (Address, Address);

/// One balance slot.
#[derive(Clone, Copy, PartialEq, Eq, Structural, Debug)]
pub struct BalanceEntry {
    /// The account holding the balance; never the null address.
    pub owner: Address,
    /// The token id.
    pub id: U256,
    /// The balance.
    pub amount: U256,
}

/// One allowance slot.
#[derive(Clone, Copy, PartialEq, Eq, Structural, Debug)]
pub struct AllowanceEntry {
    /// The account whose tokens may be spent.
    pub owner: Address,
    /// The account allowed to spend them.
    pub spender: Address,
    /// The token id.
    pub id: U256,
    /// The allowance.
    pub amount: U256,
}

/// One operator flag.
#[derive(Clone, Copy, PartialEq, Eq, Structural, Debug)]
pub struct OperatorEntry {
    /// The account whose tokens may be spent.
    pub owner: Address,
    /// The account whose operator status is recorded.
    pub spender: Address,
    /// The status.
    pub approved: bool,
}

/// One total-supply slot.
#[derive(Clone, Copy, PartialEq, Eq, Structural, Debug)]
pub struct SupplyEntry {
    /// The token id.
    pub id: U256,
    /// The total supply of that id.
    pub amount: U256,
}

/// The key of a balance entry.
pub open spec fn bal_key(e: BalanceEntry) -> BalKey {
    (e.owner, e.id)
}

/// The balance recorded for `key`, or zero when no entry has that key.
pub open spec fn bal_of(s: Seq<BalanceEntry>, key: BalKey) -> int
    decreases s.len(),
{
    if s.len() == 0 {
        0
    } else if bal_key(s.last()) == key {
        s.last().amount.val()
    } else {
        bal_of(s.drop_last(), key)
    }
}

/// All balance entries carry pairwise-distinct keys.
pub open spec fn bal_keys_unique(s: Seq<BalanceEntry>) -> bool {
    forall|j: int, k: int|
        0 <= j < k < s.len() ==> #[trigger] bal_key(s[j]) != #[trigger] bal_key(s[k])
}

/// No balance entry belongs to the null address.
pub open spec fn bal_owners_nonzero(s: Seq<BalanceEntry>) -> bool {
    forall|j: int| 0 <= j < s.len() ==> !(#[trigger] s[j]).owner.spec_is_zero()
}

/// Every recorded balance lies in `[0, 2^256 - 1]`.
pub proof fn lemma_bal_of_bound(s: Seq<BalanceEntry>, key: BalKey)
    ensures
        0 <= bal_of(s, key) <= u256_max(),
    decreases s.len(),
{
    if s.len() == 0 {
    } else if bal_key(s.last()) == key {
        s.last().amount.lemma_val_bounds();
    } else {
        lemma_bal_of_bound(s.drop_last(), key);
    }
}

/// A key matched by no entry has balance zero.
pub proof fn lemma_bal_of_absent(s: Seq<BalanceEntry>, key: BalKey)
    requires
        forall|j: int| 0 <= j < s.len() ==> #[trigger] bal_key(s[j]) != key,
    ensures
        bal_of(s, key) == 0,
    decreases s.len(),
{
    if s.len() > 0 {
        assert(bal_key(s[s.len() - 1]) != key);
        lemma_bal_of_absent(s.drop_last(), key);
    }
}

/// With distinct keys, the balance of a key is the amount of its entry.
pub proof fn lemma_bal_of_at(s: Seq<BalanceEntry>, j: int)
    requires
        bal_keys_unique(s),
        0 <= j < s.len(),
    ensures
        bal_of(s, bal_key(s[j])) == s[j].amount.val(),
    decreases s.len(),
{
    if j == s.len() - 1 {
    } else {
        assert(bal_key(s[j]) != bal_key(s[s.len() - 1]));
        assert(s.drop_last()[j] == s[j]);
        assert(bal_keys_unique(s.drop_last())) by {
            assert forall|a: int, b: int|
                0 <= a < b < s.drop_last().len() implies #[trigger] bal_key(s.drop_last()[a])
                != #[trigger] bal_key(s.drop_last()[b]) by {
                assert(s.drop_last()[a] == s[a]);
                assert(s.drop_last()[b] == s[b]);
            }
        }
        lemma_bal_of_at(s.drop_last(), j);
    }
}

/// Replacing the amount of one entry moves the balance of its key and no
/// other.
pub proof fn lemma_bal_of_update(s: Seq<BalanceEntry>, j: int, e: BalanceEntry)
    requires
        bal_keys_unique(s),
        0 <= j < s.len(),
        bal_key(e) == bal_key(s[j]),
    ensures
        bal_of(s.update(j, e), bal_key(e)) == e.amount.val(),
        forall|key: BalKey|
            key != bal_key(e) ==> #[trigger] bal_of(s.update(j, e), key) == bal_of(s, key),
    decreases s.len(),
{
    let t = s.update(j, e);
    if j == s.len() - 1 {
        assert(t.last() == e);
        assert(t.drop_last() =~= s.drop_last());
        assert forall|key: BalKey|
            key != bal_key(e) implies #[trigger] bal_of(t, key) == bal_of(s, key) by {
            assert(bal_of(t, key) == bal_of(s.drop_last(), key));
            assert(bal_of(s, key) == bal_of(s.drop_last(), key));
        }
    } else {
        assert(t.last() == s.last());
        assert(t.drop_last() =~= s.drop_last().update(j, e));
        assert(s.drop_last()[j] == s[j]);
        assert(bal_keys_unique(s.drop_last())) by {
            assert forall|a: int, b: int|
                0 <= a < b < s.drop_last().len() implies #[trigger] bal_key(s.drop_last()[a])
                != #[trigger] bal_key(s.drop_last()[b]) by {
                assert(s.drop_last()[a] == s[a]);
                assert(s.drop_last()[b] == s[b]);
            }
        }
        lemma_bal_of_update(s.drop_last(), j, e);
        assert(bal_key(s[j]) != bal_key(s[s.len() - 1]));
        assert forall|key: BalKey|
            key != bal_key(e) implies #[trigger] bal_of(t, key) == bal_of(s, key) by {
            if bal_key(s.last()) != key {
                assert(bal_of(t, key) == bal_of(s.drop_last().update(j, e), key));
                assert(bal_of(s.drop_last().update(j, e), key) == bal_of(s.drop_last(), key));
                assert(bal_of(s, key) == bal_of(s.drop_last(), key));
            }
        }
        assert(bal_of(t, bal_key(e)) == bal_of(s.drop_last().update(j, e), bal_key(e)));
    }
}

/// Appending an entry with a fresh key sets the balance of that key and no
/// other.
pub proof fn lemma_bal_of_push(s: Seq<BalanceEntry>, e: BalanceEntry)
    ensures
        bal_of(s.push(e), bal_key(e)) == e.amount.val(),
        forall|key: BalKey|
            key != bal_key(e) ==> #[trigger] bal_of(s.push(e), key) == bal_of(s, key),
{
    assert(s.push(e).last() == e);
    assert(s.push(e).drop_last() =~= s);
}

/// The sum of all recorded balances of one token id.
pub open spec fn sum_bal(s: Seq<BalanceEntry>, id: U256) -> int
    decreases s.len(),
{
    if s.len() == 0 {
        0
    } else {
        sum_bal(s.drop_last(), id) + if s.last().id == id {
            s.last().amount.val()
        } else {
            0
        }
    }
}

/// Sums of balances are never negative.
pub proof fn lemma_sum_bal_nonneg(s: Seq<BalanceEntry>, id: U256)
    ensures
        sum_bal(s, id) >= 0,
    decreases s.len(),
{
    if s.len() > 0 {
        lemma_sum_bal_nonneg(s.drop_last(), id);
        s.last().amount.lemma_val_bounds();
    }
}

/// Replacing the amount of one entry moves the sum of its id by the change
/// in that entry, and no other sum.
pub proof fn lemma_sum_bal_update(s: Seq<BalanceEntry>, j: int, e: BalanceEntry, id: U256)
    requires
        0 <= j < s.len(),
        bal_key(e) == bal_key(s[j]),
    ensures
        sum_bal(s.update(j, e), id) == sum_bal(s, id) + if s[j].id == id {
            e.amount.val() - s[j].amount.val()
        } else {
            0
        },
    decreases s.len(),
{
    let t = s.update(j, e);
    if j == s.len() - 1 {
        assert(t.last() == e);
        assert(t.drop_last() =~= s.drop_last());
        assert(e.id == s[j].id);
    } else {
        assert(t.last() == s.last());
        assert(t.drop_last() =~= s.drop_last().update(j, e));
        assert(s.drop_last()[j] == s[j]);
        lemma_sum_bal_update(s.drop_last(), j, e, id);
    }
}

/// Appending an entry adds its amount to the sum of its id and no other.
pub proof fn lemma_sum_bal_push(s: Seq<BalanceEntry>, e: BalanceEntry, id: U256)
    ensures
        sum_bal(s.push(e), id) == sum_bal(s, id) + if e.id == id {
            e.amount.val()
        } else {
            0
        },
{
    assert(s.push(e).last() == e);
    assert(s.push(e).drop_last() =~= s);
}

/// One balance never exceeds the sum of all balances of its id.
pub proof fn lemma_bal_le_sum(s: Seq<BalanceEntry>, key: BalKey)
    ensures
        bal_of(s, key) <= sum_bal(s, key.1),
    decreases s.len(),
{
    if s.len() == 0 {
    } else if bal_key(s.last()) == key {
        lemma_sum_bal_nonneg(s.drop_last(), key.1);
    } else {
        lemma_bal_le_sum(s.drop_last(), key);
        s.last().amount.lemma_val_bounds();
    }
}

/// Two balances of distinct owners never exceed the sum of all balances
/// of their id together.
pub proof fn lemma_two_bals_le_sum(s: Seq<BalanceEntry>, k1: BalKey, k2: BalKey)
    requires
        k1 != k2,
        k1.1 == k2.1,
    ensures
        bal_of(s, k1) + bal_of(s, k2) <= sum_bal(s, k1.1),
    decreases s.len(),
{
    if s.len() == 0 {
    } else if bal_key(s.last()) == k1 {
        assert(bal_of(s, k2) == bal_of(s.drop_last(), k2));
        lemma_bal_le_sum(s.drop_last(), k2);
    } else if bal_key(s.last()) == k2 {
        assert(bal_of(s, k1) == bal_of(s.drop_last(), k1));
        lemma_bal_le_sum(s.drop_last(), k1);
    } else {
        lemma_two_bals_le_sum(s.drop_last(), k1, k2);
        s.last().amount.lemma_val_bounds();
    }
}

/// The key of an allowance entry.
pub open spec fn allow_key(e: AllowanceEntry) -> AllowKey {
    (e.owner, e.spender, e.id)
}

/// The allowance recorded for `key`, or zero when no entry has that key.
pub open spec fn allow_of(s: Seq<AllowanceEntry>, key: AllowKey) -> int
    decreases s.len(),
{
    if s.len() == 0 {
        0
    } else if allow_key(s.last()) == key {
        s.last().amount.val()
    } else {
        allow_of(s.drop_last(), key)
    }
}

/// All allowance entries carry pairwise-distinct keys.
pub open spec fn allow_keys_unique(s: Seq<AllowanceEntry>) -> bool {
    forall|j: int, k: int|
        0 <= j < k < s.len() ==> #[trigger] allow_key(s[j]) != #[trigger] allow_key(s[k])
}

/// A key matched by no entry has allowance zero.
pub proof fn lemma_allow_of_absent(s: Seq<AllowanceEntry>, key: AllowKey)
    requires
        forall|j: int| 0 <= j < s.len() ==> #[trigger] allow_key(s[j]) != key,
    ensures
        allow_of(s, key) == 0,
    decreases s.len(),
{
    if s.len() > 0 {
        assert(allow_key(s[s.len() - 1]) != key);
        lemma_allow_of_absent(s.drop_last(), key);
    }
}

/// With distinct keys, the allowance of a key is the amount of its entry.
pub proof fn lemma_allow_of_at(s: Seq<AllowanceEntry>, j: int)
    requires
        allow_keys_unique(s),
        0 <= j < s.len(),
    ensures
        allow_of(s, allow_key(s[j])) == s[j].amount.val(),
    decreases s.len(),
{
    if j == s.len() - 1 {
    } else {
        assert(allow_key(s[j]) != allow_key(s[s.len() - 1]));
        assert(s.drop_last()[j] == s[j]);
        assert(allow_keys_unique(s.drop_last())) by {
            assert forall|a: int, b: int|
                0 <= a < b < s.drop_last().len() implies #[trigger] allow_key(s.drop_last()[a])
                != #[trigger] allow_key(s.drop_last()[b]) by {
                assert(s.drop_last()[a] == s[a]);
                assert(s.drop_last()[b] == s[b]);
            }
        }
        lemma_allow_of_at(s.drop_last(), j);
    }
}

/// Replacing the amount of one entry moves the allowance of its key and no
/// other.
pub proof fn lemma_allow_of_update(s: Seq<AllowanceEntry>, j: int, e: AllowanceEntry)
    requires
        allow_keys_unique(s),
        0 <= j < s.len(),
        allow_key(e) == allow_key(s[j]),
    ensures
        allow_of(s.update(j, e), allow_key(e)) == e.amount.val(),
        forall|key: AllowKey|
            key != allow_key(e) ==> #[trigger] allow_of(s.update(j, e), key) == allow_of(s, key),
    decreases s.len(),
{
    let t = s.update(j, e);
    if j == s.len() - 1 {
        assert(t.last() == e);
        assert(t.drop_last() =~= s.drop_last());
        assert forall|key: AllowKey|
            key != allow_key(e) implies #[trigger] allow_of(t, key) == allow_of(s, key) by {
            assert(allow_of(t, key) == allow_of(s.drop_last(), key));
            assert(allow_of(s, key) == allow_of(s.drop_last(), key));
        }
    } else {
        assert(t.last() == s.last());
        assert(t.drop_last() =~= s.drop_last().update(j, e));
        assert(s.drop_last()[j] == s[j]);
        assert(allow_keys_unique(s.drop_last())) by {
            assert forall|a: int, b: int|
                0 <= a < b < s.drop_last().len() implies #[trigger] allow_key(s.drop_last()[a])
                != #[trigger] allow_key(s.drop_last()[b]) by {
                assert(s.drop_last()[a] == s[a]);
                assert(s.drop_last()[b] == s[b]);
            }
        }
        lemma_allow_of_update(s.drop_last(), j, e);
        assert(allow_key(s[j]) != allow_key(s[s.len() - 1]));
        assert forall|key: AllowKey|
            key != allow_key(e) implies #[trigger] allow_of(t, key) == allow_of(s, key) by {
            if allow_key(s.last()) != key {
                assert(allow_of(t, key) == allow_of(s.drop_last().update(j, e), key));
                assert(allow_of(s.drop_last().update(j, e), key) == allow_of(s.drop_last(), key));
                assert(allow_of(s, key) == allow_of(s.drop_last(), key));
            }
        }
        assert(allow_of(t, allow_key(e)) == allow_of(s.drop_last().update(j, e), allow_key(e)));
    }
}

/// Appending an entry with a fresh key sets the allowance of that key and
/// no other.
pub proof fn lemma_allow_of_push(s: Seq<AllowanceEntry>, e: AllowanceEntry)
    ensures
        allow_of(s.push(e), allow_key(e)) == e.amount.val(),
        forall|key: AllowKey|
            key != allow_key(e) ==> #[trigger] allow_of(s.push(e), key) == allow_of(s, key),
{
    assert(s.push(e).last() == e);
    assert(s.push(e).drop_last() =~= s);
}

/// The key of an operator entry.
pub open spec fn op_key(e: OperatorEntry) -> OpKey {
    (e.owner, e.spender)
}

/// The operator flag recorded for `key`, or `false` when no entry has that
/// key.
pub open spec fn op_of(s: Seq<OperatorEntry>, key: OpKey) -> bool
    decreases s.len(),
{
    if s.len() == 0 {
        false
    } else if op_key(s.last()) == key {
        s.last().approved
    } else {
        op_of(s.drop_last(), key)
    }
}

/// All operator entries carry pairwise-distinct keys.
pub open spec fn op_keys_unique(s: Seq<OperatorEntry>) -> bool {
    forall|j: int, k: int|
        0 <= j < k < s.len() ==> #[trigger] op_key(s[j]) != #[trigger] op_key(s[k])
}

/// A key matched by no entry has a cleared flag.
pub proof fn lemma_op_of_absent(s: Seq<OperatorEntry>, key: OpKey)
    requires
        forall|j: int| 0 <= j < s.len() ==> #[trigger] op_key(s[j]) != key,
    ensures
        !op_of(s, key),
    decreases s.len(),
{
    if s.len() > 0 {
        assert(op_key(s[s.len() - 1]) != key);
        lemma_op_of_absent(s.drop_last(), key);
    }
}

/// With distinct keys, the flag of a key is the flag of its entry.
pub proof fn lemma_op_of_at(s: Seq<OperatorEntry>, j: int)
    requires
        op_keys_unique(s),
        0 <= j < s.len(),
    ensures
        op_of(s, op_key(s[j])) == s[j].approved,
    decreases s.len(),
{
    if j == s.len() - 1 {
    } else {
        assert(op_key(s[j]) != op_key(s[s.len() - 1]));
        assert(s.drop_last()[j] == s[j]);
        assert(op_keys_unique(s.drop_last())) by {
            assert forall|a: int, b: int|
                0 <= a < b < s.drop_last().len() implies #[trigger] op_key(s.drop_last()[a])
                != #[trigger] op_key(s.drop_last()[b]) by {
                assert(s.drop_last()[a] == s[a]);
                assert(s.drop_last()[b] == s[b]);
            }
        }
        lemma_op_of_at(s.drop_last(), j);
    }
}

/// Replacing the flag of one entry moves the flag of its key and no other.
pub proof fn lemma_op_of_update(s: Seq<OperatorEntry>, j: int, e: OperatorEntry)
    requires
        op_keys_unique(s),
        0 <= j < s.len(),
        op_key(e) == op_key(s[j]),
    ensures
        op_of(s.update(j, e), op_key(e)) == e.approved,
        forall|key: OpKey|
            key != op_key(e) ==> #[trigger] op_of(s.update(j, e), key) == op_of(s, key),
    decreases s.len(),
{
    let t = s.update(j, e);
    if j == s.len() - 1 {
        assert(t.last() == e);
        assert(t.drop_last() =~= s.drop_last());
        assert forall|key: OpKey|
            key != op_key(e) implies #[trigger] op_of(t, key) == op_of(s, key) by {
            assert(op_of(t, key) == op_of(s.drop_last(), key));
            assert(op_of(s, key) == op_of(s.drop_last(), key));
        }
    } else {
        assert(t.last() == s.last());
        assert(t.drop_last() =~= s.drop_last().update(j, e));
        assert(s.drop_last()[j] == s[j]);
        assert(op_keys_unique(s.drop_last())) by {
            assert forall|a: int, b: int|
                0 <= a < b < s.drop_last().len() implies #[trigger] op_key(s.drop_last()[a])
                != #[trigger] op_key(s.drop_last()[b]) by {
                assert(s.drop_last()[a] == s[a]);
                assert(s.drop_last()[b] == s[b]);
            }
        }
        lemma_op_of_update(s.drop_last(), j, e);
        assert(op_key(s[j]) != op_key(s[s.len() - 1]));
        assert forall|key: OpKey|
            key != op_key(e) implies #[trigger] op_of(t, key) == op_of(s, key) by {
            if op_key(s.last()) != key {
                assert(op_of(t, key) == op_of(s.drop_last().update(j, e), key));
                assert(op_of(s.drop_last().update(j, e), key) == op_of(s.drop_last(), key));
                assert(op_of(s, key) == op_of(s.drop_last(), key));
            }
        }
        assert(op_of(t, op_key(e)) == op_of(s.drop_last().update(j, e), op_key(e)));
    }
}

/// Appending an entry with a fresh key sets the flag of that key and no
/// other.
pub proof fn lemma_op_of_push(s: Seq<OperatorEntry>, e: OperatorEntry)
    ensures
        op_of(s.push(e), op_key(e)) == e.approved,
        forall|key: OpKey|
            key != op_key(e) ==> #[trigger] op_of(s.push(e), key) == op_of(s, key),
{
    assert(s.push(e).last() == e);
    assert(s.push(e).drop_last() =~= s);
}

/// The supply recorded for a token id, or zero when no entry has that id.
pub open spec fn sup_of(s: Seq<SupplyEntry>, id: U256) -> int
    decreases s.len(),
{
    if s.len() == 0 {
        0
    } else if s.last().id == id {
        s.last().amount.val()
    } else {
        sup_of(s.drop_last(), id)
    }
}

/// All supply entries carry pairwise-distinct ids.
pub open spec fn sup_keys_unique(s: Seq<SupplyEntry>) -> bool {
    forall|j: int, k: int| 0 <= j < k < s.len() ==> (#[trigger] s[j]).id != (#[trigger] s[k]).id
}

/// Every recorded supply lies in `[0, 2^256 - 1]`.
pub proof fn lemma_sup_of_bound(s: Seq<SupplyEntry>, id: U256)
    ensures
        0 <= sup_of(s, id) <= u256_max(),
    decreases s.len(),
{
    if s.len() == 0 {
    } else if s.last().id == id {
        s.last().amount.lemma_val_bounds();
    } else {
        lemma_sup_of_bound(s.drop_last(), id);
    }
}

/// An id matched by no entry has supply zero.
pub proof fn lemma_sup_of_absent(s: Seq<SupplyEntry>, id: U256)
    requires
        forall|j: int| 0 <= j < s.len() ==> (#[trigger] s[j]).id != id,
    ensures
        sup_of(s, id) == 0,
    decreases s.len(),
{
    if s.len() > 0 {
        assert(s[s.len() - 1].id != id);
        lemma_sup_of_absent(s.drop_last(), id);
    }
}

/// With distinct ids, the supply of an id is the amount of its entry.
pub proof fn lemma_sup_of_at(s: Seq<SupplyEntry>, j: int)
    requires
        sup_keys_unique(s),
        0 <= j < s.len(),
    ensures
        sup_of(s, s[j].id) == s[j].amount.val(),
    decreases s.len(),
{
    if j == s.len() - 1 {
    } else {
        assert(s[j].id != s[s.len() - 1].id);
        assert(s.drop_last()[j] == s[j]);
        assert(sup_keys_unique(s.drop_last())) by {
            assert forall|a: int, b: int|
                0 <= a < b < s.drop_last().len() implies (#[trigger] s.drop_last()[a]).id
                != (#[trigger] s.drop_last()[b]).id by {
                assert(s.drop_last()[a] == s[a]);
                assert(s.drop_last()[b] == s[b]);
            }
        }
        lemma_sup_of_at(s.drop_last(), j);
    }
}

/// Replacing the amount of one entry moves the supply of its id and no
/// other.
pub proof fn lemma_sup_of_update(s: Seq<SupplyEntry>, j: int, e: SupplyEntry)
    requires
        sup_keys_unique(s),
        0 <= j < s.len(),
        e.id == s[j].id,
    ensures
        sup_of(s.update(j, e), e.id) == e.amount.val(),
        forall|id: U256| id != e.id ==> #[trigger] sup_of(s.update(j, e), id) == sup_of(s, id),
    decreases s.len(),
{
    let t = s.update(j, e);
    if j == s.len() - 1 {
        assert(t.last() == e);
        assert(t.drop_last() =~= s.drop_last());
        assert forall|id: U256| id != e.id implies #[trigger] sup_of(t, id) == sup_of(s, id) by {
            assert(sup_of(t, id) == sup_of(s.drop_last(), id));
            assert(sup_of(s, id) == sup_of(s.drop_last(), id));
        }
    } else {
        assert(t.last() == s.last());
        assert(t.drop_last() =~= s.drop_last().update(j, e));
        assert(s.drop_last()[j] == s[j]);
        assert(sup_keys_unique(s.drop_last())) by {
            assert forall|a: int, b: int|
                0 <= a < b < s.drop_last().len() implies (#[trigger] s.drop_last()[a]).id
                != (#[trigger] s.drop_last()[b]).id by {
                assert(s.drop_last()[a] == s[a]);
                assert(s.drop_last()[b] == s[b]);
            }
        }
        lemma_sup_of_update(s.drop_last(), j, e);
        assert(s[j].id != s[s.len() - 1].id);
        assert forall|id: U256| id != e.id implies #[trigger] sup_of(t, id) == sup_of(s, id) by {
            if s.last().id != id {
                assert(sup_of(t, id) == sup_of(s.drop_last().update(j, e), id));
                assert(sup_of(s.drop_last().update(j, e), id) == sup_of(s.drop_last(), id));
                assert(sup_of(s, id) == sup_of(s.drop_last(), id));
            }
        }
        assert(sup_of(t, e.id) == sup_of(s.drop_last().update(j, e), e.id));
    }
}

/// Appending an entry with a fresh id sets the supply of that id and no
/// other.
pub proof fn lemma_sup_of_push(s: Seq<SupplyEntry>, e: SupplyEntry)
    ensures
        sup_of(s.push(e), e.id) == e.amount.val(),
        forall|id: U256| id != e.id ==> #[trigger] sup_of(s.push(e), id) == sup_of(s, id),
{
    assert(s.push(e).last() == e);
    assert(s.push(e).drop_last() =~= s);
}

/// Replacing the amount of one balance entry keeps keys distinct and
/// owners away from the null address.
pub proof fn lemma_bal_update_wf(s: Seq<BalanceEntry>, j: int, e: BalanceEntry)
    requires
        bal_keys_unique(s),
        bal_owners_nonzero(s),
        0 <= j < s.len(),
        bal_key(e) == bal_key(s[j]),
        !e.owner.spec_is_zero(),
    ensures
        bal_keys_unique(s.update(j, e)),
        bal_owners_nonzero(s.update(j, e)),
{
    let t = s.update(j, e);
    assert forall|a: int, b: int|
        0 <= a < b < t.len() implies #[trigger] bal_key(t[a]) != #[trigger] bal_key(t[b]) by {
        assert(bal_key(t[a]) == bal_key(s[a]));
        assert(bal_key(t[b]) == bal_key(s[b]));
        assert(bal_key(s[a]) != bal_key(s[b]));
    }
}

/// Appending a balance entry with a fresh key and a real owner keeps keys
/// distinct and owners away from the null address.
pub proof fn lemma_bal_push_wf(s: Seq<BalanceEntry>, e: BalanceEntry)
    requires
        bal_keys_unique(s),
        bal_owners_nonzero(s),
        !e.owner.spec_is_zero(),
        forall|t: int| 0 <= t < s.len() ==> #[trigger] bal_key(s[t]) != bal_key(e),
    ensures
        bal_keys_unique(s.push(e)),
        bal_owners_nonzero(s.push(e)),
{
    let t = s.push(e);
    assert forall|a: int, b: int|
        0 <= a < b < t.len() implies #[trigger] bal_key(t[a]) != #[trigger] bal_key(t[b]) by {
        assert(t[a] == s[a]);
        if b < s.len() {
            assert(t[b] == s[b]);
        } else {
            assert(t[b] == e);
        }
    }
}

/// Replacing the amount of one allowance entry keeps keys distinct.
pub proof fn lemma_allow_update_wf(s: Seq<AllowanceEntry>, j: int, e: AllowanceEntry)
    requires
        allow_keys_unique(s),
        0 <= j < s.len(),
        allow_key(e) == allow_key(s[j]),
    ensures
        allow_keys_unique(s.update(j, e)),
{
    let t = s.update(j, e);
    assert forall|a: int, b: int|
        0 <= a < b < t.len() implies #[trigger] allow_key(t[a]) != #[trigger] allow_key(t[b]) by {
        assert(allow_key(t[a]) == allow_key(s[a]));
        assert(allow_key(t[b]) == allow_key(s[b]));
        assert(allow_key(s[a]) != allow_key(s[b]));
    }
}

/// Appending an allowance entry with a fresh key keeps keys distinct.
pub proof fn lemma_allow_push_wf(s: Seq<AllowanceEntry>, e: AllowanceEntry)
    requires
        allow_keys_unique(s),
        forall|t: int| 0 <= t < s.len() ==> #[trigger] allow_key(s[t]) != allow_key(e),
    ensures
        allow_keys_unique(s.push(e)),
{
    let t = s.push(e);
    assert forall|a: int, b: int|
        0 <= a < b < t.len() implies #[trigger] allow_key(t[a]) != #[trigger] allow_key(t[b]) by {
        assert(t[a] == s[a]);
        if b < s.len() {
            assert(t[b] == s[b]);
        } else {
            assert(t[b] == e);
        }
    }
}

/// Replacing the flag of one operator entry keeps keys distinct.
pub proof fn lemma_op_update_wf(s: Seq<OperatorEntry>, j: int, e: OperatorEntry)
    requires
        op_keys_unique(s),
        0 <= j < s.len(),
        op_key(e) == op_key(s[j]),
    ensures
        op_keys_unique(s.update(j, e)),
{
    let t = s.update(j, e);
    assert forall|a: int, b: int|
        0 <= a < b < t.len() implies #[trigger] op_key(t[a]) != #[trigger] op_key(t[b]) by {
        assert(op_key(t[a]) == op_key(s[a]));
        assert(op_key(t[b]) == op_key(s[b]));
        assert(op_key(s[a]) != op_key(s[b]));
    }
}

/// Appending an operator entry with a fresh key keeps keys distinct.
pub proof fn lemma_op_push_wf(s: Seq<OperatorEntry>, e: OperatorEntry)
    requires
        op_keys_unique(s),
        forall|t: int| 0 <= t < s.len() ==> #[trigger] op_key(s[t]) != op_key(e),
    ensures
        op_keys_unique(s.push(e)),
{
    let t = s.push(e);
    assert forall|a: int, b: int|
        0 <= a < b < t.len() implies #[trigger] op_key(t[a]) != #[trigger] op_key(t[b]) by {
        assert(t[a] == s[a]);
        if b < s.len() {
            assert(t[b] == s[b]);
        } else {
            assert(t[b] == e);
        }
    }
}

/// Replacing the amount of one supply entry keeps ids distinct.
pub proof fn lemma_sup_update_wf(s: Seq<SupplyEntry>, j: int, e: SupplyEntry)
    requires
        sup_keys_unique(s),
        0 <= j < s.len(),
        e.id == s[j].id,
    ensures
        sup_keys_unique(s.update(j, e)),
{
    let t = s.update(j, e);
    assert forall|a: int, b: int|
        0 <= a < b < t.len() implies (#[trigger] t[a]).id != (#[trigger] t[b]).id by {
        assert(t[a].id == s[a].id);
        assert(t[b].id == s[b].id);
        assert(s[a].id != s[b].id);
    }
}

/// Appending a supply entry with a fresh id keeps ids distinct.
pub proof fn lemma_sup_push_wf(s: Seq<SupplyEntry>, e: SupplyEntry)
    requires
        sup_keys_unique(s),
        forall|t: int| 0 <= t < s.len() ==> (#[trigger] s[t]).id != e.id,
    ensures
        sup_keys_unique(s.push(e)),
{
    let t = s.push(e);
    assert forall|a: int, b: int|
        0 <= a < b < t.len() implies (#[trigger] t[a]).id != (#[trigger] t[b]).id by {
        assert(t[a] == s[a]);
        if b < s.len() {
            assert(t[b] == s[b]);
        } else {
            assert(t[b] == e);
        }
    }
}

/// One leg of an update: debit `amount` of `id` from `from` unless `from`
/// is the null address, then credit it to `to` unless `to` is the null
/// address.  The credit reads the balance after the debit, so a leg from
/// an account to itself leaves the map unchanged.
pub open spec fn leg_apply(
    m: Map<BalKey, int>,
    from: Address,
    to: Address,
    id: U256,
    amount: U256,
) -> Map<BalKey, int> {
    let m1 = if from.spec_is_zero() {
        m
    } else {
        m.insert((from, id), m[(from, id)] - amount.val())
    };
    if to.spec_is_zero() {
        m1
    } else {
        m1.insert((to, id), m1[(to, id)] + amount.val())
    }
}

/// The debit of a leg is covered: either nothing is debited, or the
/// debited account holds at least `amount` of `id`.
pub open spec fn leg_ok(m: Map<BalKey, int>, from: Address, id: U256, amount: U256) -> bool {
    from.spec_is_zero() || amount.val() <= m[(from, id)]
}

/// The credit of a leg stays within 256 bits.
pub open spec fn leg_fits(
    m: Map<BalKey, int>,
    from: Address,
    to: Address,
    id: U256,
    amount: U256,
) -> bool {
    to.spec_is_zero() || {
        let m1 = if from.spec_is_zero() {
            m
        } else {
            m.insert((from, id), m[(from, id)] - amount.val())
        };
        m1[(to, id)] + amount.val() <= u256_max()
    }
}

/// The balance map after the first `n` legs of a batch, applied in input
/// order.
pub open spec fn legs_apply(
    m: Map<BalKey, int>,
    from: Address,
    to: Address,
    ids: Seq<U256>,
    amounts: Seq<U256>,
    n: int,
) -> Map<BalKey, int>
    decreases n,
{
    if n <= 0 {
        m
    } else {
        leg_apply(
            legs_apply(m, from, to, ids, amounts, n - 1),
            from,
            to,
            ids[n - 1],
            amounts[n - 1],
        )
    }
}

/// The debits of the first `n` legs are all covered, each against the
/// balances left by the legs before it.
pub open spec fn legs_ok(
    m: Map<BalKey, int>,
    from: Address,
    to: Address,
    ids: Seq<U256>,
    amounts: Seq<U256>,
    n: int,
) -> bool
    decreases n,
{
    if n <= 0 {
        true
    } else {
        legs_ok(m, from, to, ids, amounts, n - 1) && leg_ok(
            legs_apply(m, from, to, ids, amounts, n - 1),
            from,
            ids[n - 1],
            amounts[n - 1],
        )
    }
}

/// No credit of the first `n` legs overflows, as far as the debits before
/// it are covered; a batch that stops on an uncovered debit never reaches
/// the credits behind it.
pub open spec fn legs_fit(
    m: Map<BalKey, int>,
    from: Address,
    to: Address,
    ids: Seq<U256>,
    amounts: Seq<U256>,
    n: int,
) -> bool
    decreases n,
{
    if n <= 0 {
        true
    } else {
        legs_fit(m, from, to, ids, amounts, n - 1) && {
            let prefix = legs_apply(m, from, to, ids, amounts, n - 1);
            legs_ok(m, from, to, ids, amounts, n - 1) && leg_ok(
                prefix,
                from,
                ids[n - 1],
                amounts[n - 1],
            ) ==> leg_fits(prefix, from, to, ids[n - 1], amounts[n - 1])
        }
    }
}

/// The total amount the first `n` legs move of one token id.
pub open spec fn legs_total(ids: Seq<U256>, amounts: Seq<U256>, id: U256, n: int) -> int
    decreases n,
{
    if n <= 0 {
        0
    } else {
        legs_total(ids, amounts, id, n - 1) + if ids[n - 1] == id {
            amounts[n - 1].val()
        } else {
            0
        }
    }
}

/// The index of the first leg whose debit is not covered, scanning from
/// `n`; the length of the batch when every debit is covered.
pub open spec fn first_insufficient_from(
    m: Map<BalKey, int>,
    from: Address,
    to: Address,
    ids: Seq<U256>,
    amounts: Seq<U256>,
    n: int,
) -> int
    decreases ids.len() - n,
{
    if n < 0 || n >= ids.len() {
        ids.len() as int
    } else if !leg_ok(legs_apply(m, from, to, ids, amounts, n), from, ids[n], amounts[n]) {
        n
    } else {
        first_insufficient_from(m, from, to, ids, amounts, n + 1)
    }
}

/// The index of the first leg whose debit is not covered, or the length
/// of the batch when every debit is covered.
pub open spec fn first_insufficient(
    m: Map<BalKey, int>,
    from: Address,
    to: Address,
    ids: Seq<U256>,
    amounts: Seq<U256>,
) -> int {
    first_insufficient_from(m, from, to, ids, amounts, 0)
}

/// Totals per id are never negative.
pub proof fn lemma_legs_total_nonneg(ids: Seq<U256>, amounts: Seq<U256>, id: U256, n: int)
    ensures
        legs_total(ids, amounts, id, n) >= 0,
    decreases n,
{
    if n > 0 {
        lemma_legs_total_nonneg(ids, amounts, id, n - 1);
        if ids[n - 1] == id {
            amounts[n - 1].lemma_val_bounds();
        }
    }
}

/// Totals per id grow with the number of legs taken.
pub proof fn lemma_legs_total_mono(ids: Seq<U256>, amounts: Seq<U256>, id: U256, n1: int, n2: int)
    requires
        n1 <= n2,
    ensures
        legs_total(ids, amounts, id, n1) <= legs_total(ids, amounts, id, n2),
    decreases n2 - n1,
{
    if n1 < n2 {
        lemma_legs_total_mono(ids, amounts, id, n1, n2 - 1);
        if ids[n2 - 1] == id {
            amounts[n2 - 1].lemma_val_bounds();
        }
    }
}

/// Covered debits over a batch are covered over each of its prefixes.
pub proof fn lemma_legs_ok_prefix(
    m: Map<BalKey, int>,
    from: Address,
    to: Address,
    ids: Seq<U256>,
    amounts: Seq<U256>,
    j: int,
    n: int,
)
    requires
        legs_ok(m, from, to, ids, amounts, n),
        j <= n,
    ensures
        legs_ok(m, from, to, ids, amounts, j),
    decreases n - j,
{
    if j < n {
        lemma_legs_ok_prefix(m, from, to, ids, amounts, j, n - 1);
    }
}

/// Fitting credits over a batch fit over each of its prefixes.
pub proof fn lemma_legs_fit_prefix(
    m: Map<BalKey, int>,
    from: Address,
    to: Address,
    ids: Seq<U256>,
    amounts: Seq<U256>,
    j: int,
    n: int,
)
    requires
        legs_fit(m, from, to, ids, amounts, n),
        j <= n,
    ensures
        legs_fit(m, from, to, ids, amounts, j),
    decreases n - j,
{
    if j < n {
        lemma_legs_fit_prefix(m, from, to, ids, amounts, j, n - 1);
    }
}

/// A batch that debits nobody has every debit covered.
pub proof fn lemma_legs_ok_no_debit(
    m: Map<BalKey, int>,
    from: Address,
    to: Address,
    ids: Seq<U256>,
    amounts: Seq<U256>,
    n: int,
)
    requires
        from.spec_is_zero(),
    ensures
        legs_ok(m, from, to, ids, amounts, n),
    decreases n,
{
    if n > 0 {
        lemma_legs_ok_no_debit(m, from, to, ids, amounts, n - 1);
    }
}

/// A batch that credits nobody has no credit to overflow.
pub proof fn lemma_legs_fit_no_credit(
    m: Map<BalKey, int>,
    from: Address,
    to: Address,
    ids: Seq<U256>,
    amounts: Seq<U256>,
    n: int,
)
    requires
        to.spec_is_zero(),
    ensures
        legs_fit(m, from, to, ids, amounts, n),
    decreases n,
{
    if n > 0 {
        lemma_legs_fit_no_credit(m, from, to, ids, amounts, n - 1);
    }
}

/// After `n` legs, the balance of each key has changed by exactly the
/// total credited to it minus the total debited from it.
pub proof fn lemma_legs_apply_pointwise(
    m: Map<BalKey, int>,
    from: Address,
    to: Address,
    ids: Seq<U256>,
    amounts: Seq<U256>,
    n: int,
    key: BalKey,
)
    requires
        n >= 0,
    ensures
        legs_apply(m, from, to, ids, amounts, n)[key] == m[key] + (if !to.spec_is_zero() && key.0
            == to {
            legs_total(ids, amounts, key.1, n)
        } else {
            0
        }) - (if !from.spec_is_zero() && key.0 == from {
            legs_total(ids, amounts, key.1, n)
        } else {
            0
        }),
    decreases n,
{
    if n > 0 {
        lemma_legs_apply_pointwise(m, from, to, ids, amounts, n - 1, key);
        lemma_legs_apply_pointwise(m, from, to, ids, amounts, n - 1, (from, ids[n - 1]));
        lemma_legs_apply_pointwise(m, from, to, ids, amounts, n - 1, (to, ids[n - 1]));
    }
}

/// For a mint batch, a bound on the ending supply of every id bounds each
/// intermediate credit, so no credit overflows.
pub proof fn lemma_mint_legs_fit(
    m: Map<BalKey, int>,
    from: Address,
    to: Address,
    ids: Seq<U256>,
    amounts: Seq<U256>,
    n: int,
    full: int,
)
    requires
        from.spec_is_zero(),
        0 <= n <= full,
        forall|i: U256| m[(to, i)] + #[trigger] legs_total(ids, amounts, i, full) <= u256_max(),
    ensures
        legs_fit(m, from, to, ids, amounts, n),
    decreases n,
{
    if n > 0 {
        lemma_mint_legs_fit(m, from, to, ids, amounts, n - 1, full);
        if !to.spec_is_zero() {
            let id = ids[n - 1];
            let prefix = legs_apply(m, from, to, ids, amounts, n - 1);
            lemma_legs_apply_pointwise(m, from, to, ids, amounts, n - 1, (to, id));
            assert(prefix[(to, id)] == m[(to, id)] + legs_total(ids, amounts, id, n - 1));
            assert(legs_total(ids, amounts, id, n - 1) + amounts[n - 1].val() == legs_total(
                ids,
                amounts,
                id,
                n,
            ));
            lemma_legs_total_mono(ids, amounts, id, n, full);
            assert(m[(to, id)] + legs_total(ids, amounts, id, full) <= u256_max());
        }
    }
}

/// When the debits of the first `k` legs are covered and the debit of leg
/// `k` is not, `k` is the first uncovered leg.
pub proof fn lemma_first_insufficient_at(
    m: Map<BalKey, int>,
    from: Address,
    to: Address,
    ids: Seq<U256>,
    amounts: Seq<U256>,
    k: int,
)
    requires
        0 <= k <= ids.len(),
        legs_ok(m, from, to, ids, amounts, k),
        k < ids.len() ==> !leg_ok(legs_apply(m, from, to, ids, amounts, k), from, ids[k], amounts[k]),
    ensures
        first_insufficient(m, from, to, ids, amounts) == k,
{
    lemma_first_insufficient_from_at(m, from, to, ids, amounts, k, 0);
}

proof fn lemma_first_insufficient_from_at(
    m: Map<BalKey, int>,
    from: Address,
    to: Address,
    ids: Seq<U256>,
    amounts: Seq<U256>,
    k: int,
    n: int,
)
    requires
        0 <= n <= k <= ids.len(),
        legs_ok(m, from, to, ids, amounts, k),
        k < ids.len() ==> !leg_ok(legs_apply(m, from, to, ids, amounts, k), from, ids[k], amounts[k]),
    ensures
        first_insufficient_from(m, from, to, ids, amounts, n) == k,
    decreases k - n,
{
    if n == k {
    } else {
        lemma_legs_ok_prefix(m, from, to, ids, amounts, n + 1, k);
        assert(leg_ok(legs_apply(m, from, to, ids, amounts, n), from, ids[n], amounts[n]));
        lemma_first_insufficient_from_at(m, from, to, ids, amounts, k, n + 1);
    }
}

} // verus!
