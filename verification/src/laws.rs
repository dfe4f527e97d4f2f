//! The laws of the ledger, stated and proved once for all states.
//!
//! Each proof function here records a property that holds of every
//! well-formed ledger, phrased over the same spec-level views that the
//! operations' contracts use, so a reader can check the property without
//! retracing any operation's body.

use vstd::prelude::*;

use crate::address::Address;
use crate::erc6909::Erc6909;
use crate::model::{
    bal_key, bal_of, leg_apply, lemma_bal_of_absent, lemma_bal_of_bound, lemma_sup_of_bound,
    sum_bal, sup_of, BalKey,
};
use crate::supply::Erc6909Supply;
use crate::u256::{u256_max, U256};

verus! {

/// Every balance a ledger can report lies in `[0, 2^256 - 1]`.
pub proof fn lemma_balance_bounded(ledger: Erc6909, owner: Address, id: U256)
    ensures
        0 <= ledger.bal_map()[(owner, id)] <= u256_max(),
{
    assert(ledger.bal_map()[(owner, id)] == bal_of(ledger.balances@, (owner, id)));
    lemma_bal_of_bound(ledger.balances@, (owner, id));
}

/// In a well-formed extended ledger, the recorded supply of every token
/// id equals the sum over all owners of the balances of that id.
pub proof fn lemma_supply_is_sum_of_balances(ledger: Erc6909Supply, id: U256)
    requires
        ledger.wf(),
    ensures
        ledger.sup_map()[id] == sum_bal(ledger.erc6909.balances@, id),
{
    assert(ledger.sup_map()[id] == sup_of(ledger.total_supply@, id));
}

/// The null address holds no balance of any token id.
pub proof fn lemma_zero_address_has_no_balance(ledger: Erc6909, owner: Address, id: U256)
    requires
        ledger.wf(),
        owner.spec_is_zero(),
    ensures
        ledger.bal_map()[(owner, id)] == 0,
{
    assert forall|t: int|
        0 <= t < ledger.balances@.len() implies #[trigger] bal_key(ledger.balances@[t]) != (
        owner,
        id,
    ) by {
        assert(!ledger.balances@[t].owner.spec_is_zero());
    }
    lemma_bal_of_absent(ledger.balances@, (owner, id));
    assert(ledger.bal_map()[(owner, id)] == bal_of(ledger.balances@, (owner, id)));
}

/// Neither the base nor the extended ledger claims the all-ones
/// interface identifier.
pub proof fn lemma_all_ones_interface_rejected()
    ensures
        !Erc6909::spec_supports_interface(0xffffffffu32),
        !Erc6909Supply::spec_supports_interface(0xffffffffu32),
{
}

/// Burning an amount an account holds and minting it back restores every
/// balance and every supply; the contracts of `_burn` and `_mint` state
/// that allowances and operator flags are never touched by either, so
/// the whole state returns to where it started.  The two hypotheses on
/// `s1` and `s2` are exactly what the contracts of a successful `_burn`
/// and `_mint` promise; the supply bound shows the mint-back is in turn
/// permitted.
pub proof fn lemma_burn_mint_round_trip(
    s0: Erc6909Supply,
    s1: Erc6909Supply,
    s2: Erc6909Supply,
    owner: Address,
    id: U256,
    amount: U256,
)
    requires
        s0.wf(),
        amount.val() <= s0.bal_map()[(owner, id)],
        s1.bal_map() == s0.bal_map().insert(
            (owner, id),
            s0.bal_map()[(owner, id)] - amount.val(),
        ),
        forall|i: U256| #[trigger]
            s1.sup_map()[i] == s0.sup_map()[i] - (if i == id {
                amount.val()
            } else {
                0
            }),
        s2.bal_map() == s1.bal_map().insert(
            (owner, id),
            s1.bal_map()[(owner, id)] + amount.val(),
        ),
        forall|i: U256| #[trigger]
            s2.sup_map()[i] == s1.sup_map()[i] + (if i == id {
                amount.val()
            } else {
                0
            }),
    ensures
        s1.sup_map()[id] + amount.val() <= u256_max(),
        s2.bal_map() == s0.bal_map(),
        forall|i: U256| #[trigger] s2.sup_map()[i] == s0.sup_map()[i],
{
    assert(s0.sup_map()[id] == sup_of(s0.total_supply@, id));
    lemma_sup_of_bound(s0.total_supply@, id);
    assert(s1.bal_map()[(owner, id)] == s0.bal_map()[(owner, id)] - amount.val());
    assert(s2.bal_map() =~= s0.bal_map());
}

/// A transfer between two distinct real accounts moves exactly its
/// amount: the sender's balance falls by it, the receiver's rises by it,
/// and no other balance moves.  The contract of `transfer` adds that no
/// supply changes.
pub proof fn lemma_transfer_moves_balance(
    m: Map<BalKey, int>,
    from: Address,
    to: Address,
    id: U256,
    amount: U256,
)
    requires
        !from.spec_is_zero(),
        !to.spec_is_zero(),
        from != to,
    ensures
        leg_apply(m, from, to, id, amount)[(from, id)] == m[(from, id)] - amount.val(),
        leg_apply(m, from, to, id, amount)[(to, id)] == m[(to, id)] + amount.val(),
        forall|k: BalKey|
            k != (from, id) && k != (to, id) ==> #[trigger] leg_apply(m, from, to, id, amount)[k]
                == m[k],
{
}

/// A transfer of an account's whole balance leaves that balance at
/// exactly zero.
pub proof fn lemma_transfer_all_leaves_zero(
    m: Map<BalKey, int>,
    from: Address,
    to: Address,
    id: U256,
    amount: U256,
)
    requires
        !from.spec_is_zero(),
        !to.spec_is_zero(),
        from != to,
        amount.val() == m[(from, id)],
    ensures
        leg_apply(m, from, to, id, amount)[(from, id)] == 0,
{
    lemma_transfer_moves_balance(m, from, to, id, amount);
}

/// Spending exactly the approved amount satisfies the success condition
/// of `transfer_from`, and the remaining allowance its contract leaves
/// behind is exactly zero.
pub proof fn lemma_exact_allowance_spend(
    s: Erc6909,
    caller: Address,
    sender: Address,
    receiver: Address,
    id: U256,
    amount: U256,
)
    requires
        !sender.spec_is_zero(),
        !receiver.spec_is_zero(),
        amount.val() <= s.bal_map()[(sender, id)],
        s.spec_needs_allowance(caller, sender),
        amount.val() == s.allow_map()[(sender, caller, id)],
    ensures
        s.spec_transfer_from_ok(caller, sender, receiver, id, amount),
        s.allow_map()[(sender, caller, id)] - amount.val() == 0,
{
}

} // verus!
