//! The supply extension of the ledger.
//!
//! [`Erc6909Supply`] wraps a base ledger and keeps a per-token-id
//! total-supply counter.  Its invariant ties the two together: for every
//! token id, the recorded supply equals the sum of all balances of that
//! id.  Mints raise the supply, burns lower it, transfers leave it alone;
//! under the invariant no transfer can ever overflow a balance.

use vstd::prelude::*;

use vstd::pervasive::unreached;

use crate::address::Address;
use crate::erc6909::{Erc6909, ERC165_INTERFACE_ID, ERC6909_INTERFACE_ID};
use crate::error::Error;
use crate::event::Event;
use crate::model::{
    bal_of, first_insufficient, leg_apply, leg_fits, leg_ok, legs_apply, legs_fit, legs_ok,
    legs_total, lemma_bal_le_sum, lemma_bal_of_bound, lemma_first_insufficient_at,
    lemma_legs_fit_no_credit, lemma_legs_ok_no_debit, lemma_legs_total_mono,
    lemma_legs_total_nonneg, lemma_mint_legs_fit, lemma_sum_bal_nonneg, lemma_sup_of_absent,
    lemma_sup_of_at, lemma_sup_of_bound, lemma_sup_of_push, lemma_sup_of_update, lemma_sup_push_wf,
    lemma_sup_update_wf, lemma_two_bals_le_sum, sum_bal, sup_keys_unique, sup_of, AllowKey, BalKey,
    OpKey, SupplyEntry,
};
use crate::u256::{u256_max, U256};

verus! {

/// The 4-byte identifier of the supply-tracking interface.
pub const ERC6909_SUPPLY_INTERFACE_ID: u32 = 0xbd85b039;

/// A ledger extended with a per-token-id total-supply counter.
pub struct Erc6909Supply {
    /// The wrapped ledger.
    pub erc6909: Erc6909,
    /// The supply slots; absent ids hold zero.
    pub total_supply: Vec<SupplyEntry>,
}

impl Erc6909Supply {
    /// The internal invariant: the wrapped ledger is well formed, supply
    /// ids are distinct, and the supply of every id equals the sum of
    /// all balances of that id.
    pub open spec fn wf(self) -> bool {
        &&& self.erc6909.wf()
        &&& sup_keys_unique(self.total_supply@)
        &&& forall|id: U256| #[trigger]
            sup_of(self.total_supply@, id) == sum_bal(self.erc6909.balances@, id)
    }

    /// The balance of every owner and token id, as a total map.
    pub open spec fn bal_map(self) -> Map<BalKey, int> {
        self.erc6909.bal_map()
    }

    /// The allowance of every owner, spender and token id, as a total map.
    pub open spec fn allow_map(self) -> Map<AllowKey, int> {
        self.erc6909.allow_map()
    }

    /// The operator flag of every owner and spender, as a total map.
    pub open spec fn op_map(self) -> Map<OpKey, bool> {
        self.erc6909.op_map()
    }

    /// The total supply of every token id, as a total map.
    pub open spec fn sup_map(self) -> Map<U256, int> {
        Map::new(|id: U256| true, |id: U256| sup_of(self.total_supply@, id))
    }

    /// Two extended ledgers hold the same state.
    pub open spec fn eq_state(self, other: Erc6909Supply) -> bool {
        &&& self.erc6909.eq_state(other.erc6909)
        &&& self.total_supply@ == other.total_supply@
    }

    /// An empty extended ledger.
    pub fn new() -> (r: Erc6909Supply)
        ensures
            r.wf(),
            r.erc6909.balances@.len() == 0,
            r.erc6909.allowances@.len() == 0,
            r.erc6909.operator_approvals@.len() == 0,
            r.erc6909.events@.len() == 0,
            r.total_supply@.len() == 0,
            forall|key: BalKey| r.bal_map()[key] == 0,
            forall|key: AllowKey| r.allow_map()[key] == 0,
            forall|key: OpKey| !r.op_map()[key],
            forall|id: U256| r.sup_map()[id] == 0,
    {
        let r = Erc6909Supply { erc6909: Erc6909::new(), total_supply: Vec::new() };
        proof {
            assert forall|id: U256| r.sup_map()[id] == 0 by {
                assert(sup_of(r.total_supply@, id) == 0);
            }
            assert forall|id: U256| #[trigger]
                sup_of(r.total_supply@, id) == sum_bal(r.erc6909.balances@, id) by {
                assert(sup_of(r.total_supply@, id) == 0);
                assert(sum_bal(r.erc6909.balances@, id) == 0);
            }
        }
        r
    }

    /// The index of the supply slot of `id`, if one exists.
    fn find_supply(&self, id: U256) -> (r: Option<usize>)
        ensures
            r matches Some(j) ==> j < self.total_supply@.len() && self.total_supply@[j as int].id
                == id,
            r is None ==> forall|t: int|
                0 <= t < self.total_supply@.len() ==> (#[trigger] self.total_supply@[t]).id != id,
    {
        let n = self.total_supply.len();
        let mut j: usize = 0;
        while j < n
            invariant
                j <= n,
                n == self.total_supply@.len(),
                forall|t: int| 0 <= t < j ==> (#[trigger] self.total_supply@[t]).id != id,
            decreases n - j,
        {
            let e = self.total_supply[j];
            if e.id == id {
                return Some(j);
            }
            j = j + 1;
        }
        None
    }

    /// Reads the supply slot of `id`; usable while the sum invariant is
    /// being restored.
    fn get_supply(&self, id: U256) -> (r: U256)
        requires
            sup_keys_unique(self.total_supply@),
        ensures
            r.val() == sup_of(self.total_supply@, id),
    {
        match self.find_supply(id) {
            Some(j) => {
                proof {
                    lemma_sup_of_at(self.total_supply@, j as int);
                }
                self.total_supply[j].amount
            },
            None => {
                proof {
                    lemma_sup_of_absent(self.total_supply@, id);
                }
                U256::zero()
            },
        }
    }

    /// Writes the supply slot of `id`.
    fn set_supply(&mut self, id: U256, amount: U256)
        requires
            sup_keys_unique(old(self).total_supply@),
        ensures
            sup_keys_unique(final(self).total_supply@),
            sup_of(final(self).total_supply@, id) == amount.val(),
            forall|i: U256|
                i != id ==> #[trigger] sup_of(final(self).total_supply@, i) == sup_of(
                    old(self).total_supply@,
                    i,
                ),
            final(self).erc6909 == old(self).erc6909,
    {
        let e = SupplyEntry { id, amount };
        match self.find_supply(id) {
            Some(j) => {
                proof {
                    lemma_sup_of_update(self.total_supply@, j as int, e);
                    lemma_sup_update_wf(self.total_supply@, j as int, e);
                }
                self.total_supply.set(j, e);
            },
            None => {
                proof {
                    lemma_sup_of_push(self.total_supply@, e);
                    lemma_sup_push_wf(self.total_supply@, e);
                }
                self.total_supply.push(e);
            },
        }
    }

    /// Returns the total amount of tokens of type `id` in existence.
    pub fn total_supply(&self, id: U256) -> (r: U256)
        requires
            self.wf(),
        ensures
            r.val() == self.sup_map()[id],
    {
        self.get_supply(id)
    }

    /// Returns the balance `owner` holds of token `id`.
    pub fn balance_of(&self, owner: Address, id: U256) -> (r: U256)
        requires
            self.wf(),
        ensures
            r.val() == self.bal_map()[(owner, id)],
    {
        self.erc6909.balance_of(owner, id)
    }

    /// Returns the amount of token `id` owned by `owner` that `spender`
    /// may spend.
    pub fn allowance(&self, owner: Address, spender: Address, id: U256) -> (r: U256)
        requires
            self.wf(),
        ensures
            r.val() == self.allow_map()[(owner, spender, id)],
    {
        self.erc6909.allowance(owner, spender, id)
    }

    /// Returns whether `spender` is an operator for `owner`'s account.
    pub fn is_operator(&self, owner: Address, spender: Address) -> (r: bool)
        requires
            self.wf(),
        ensures
            r == self.op_map()[(owner, spender)],
    {
        self.erc6909.is_operator(owner, spender)
    }

    /// Whether the extended ledger claims an interface identifier:
    /// its own, the base ledger's, and the introspection interface.
    pub open spec fn spec_supports_interface(interface_id: u32) -> bool {
        interface_id == ERC6909_SUPPLY_INTERFACE_ID || Erc6909::spec_supports_interface(
            interface_id,
        )
    }

    /// Runtime interface introspection for the extended ledger.
    pub fn supports_interface(&self, interface_id: u32) -> (r: bool)
        ensures
            r == Erc6909Supply::spec_supports_interface(interface_id),
    {
        interface_id == ERC6909_SUPPLY_INTERFACE_ID || self.erc6909.supports_interface(
            interface_id,
        )
    }

    /// The 4-byte identifier of the supply-tracking interface.
    pub fn interface_id() -> (r: u32)
        ensures
            r == ERC6909_SUPPLY_INTERFACE_ID,
    {
        ERC6909_SUPPLY_INTERFACE_ID
    }

    /// Applies a batch of legs on the wrapped ledger, then adjusts the
    /// supply counters: a mint batch raises the supply of each minted id,
    /// a burn batch lowers it.  A failing batch leaves everything
    /// unchanged.
    pub(crate) fn _update(
        &mut self,
        caller: Address,
        from: Address,
        to: Address,
        ids: Vec<U256>,
        amounts: Vec<U256>,
    ) -> (r: Result<(), Error>)
        requires
            old(self).wf(),
            ids@.len() == amounts@.len() ==> legs_fit(
                old(self).bal_map(),
                from,
                to,
                ids@,
                amounts@,
                ids@.len() as int,
            ),
            from.spec_is_zero() && ids@.len() == amounts@.len() ==> forall|i: U256|
                old(self).sup_map()[i] + #[trigger] legs_total(
                    ids@,
                    amounts@,
                    i,
                    ids@.len() as int,
                ) <= u256_max(),
        ensures
            final(self).wf(),
            r is Ok <==> (ids@.len() == amounts@.len() && legs_ok(
                old(self).bal_map(),
                from,
                to,
                ids@,
                amounts@,
                ids@.len() as int,
            )),
            r is Ok ==> final(self).bal_map() == legs_apply(
                old(self).bal_map(),
                from,
                to,
                ids@,
                amounts@,
                ids@.len() as int,
            ),
            r is Ok ==> forall|i: U256| #[trigger]
                final(self).sup_map()[i] == old(self).sup_map()[i] + (if from.spec_is_zero() {
                    legs_total(ids@, amounts@, i, ids@.len() as int)
                } else {
                    0
                }) - (if to.spec_is_zero() {
                    legs_total(ids@, amounts@, i, ids@.len() as int)
                } else {
                    0
                }),
            final(self).erc6909.allowances@ == old(self).erc6909.allowances@,
            final(self).erc6909.operator_approvals@ == old(self).erc6909.operator_approvals@,
            r is Ok && ids@.len() == 1 ==> final(self).erc6909.events@ == old(
                self,
            ).erc6909.events@.push(
                Event::TransferSingle { caller, from, to, id: ids@[0], amount: amounts@[0] },
            ),
            r is Ok && ids@.len() != 1 ==> final(self).erc6909.events@ == old(
                self,
            ).erc6909.events@.push(Event::TransferBatch { caller, from, to, ids, amounts }),
            r is Err ==> final(self).eq_state(*old(self)),
            ids@.len() != amounts@.len() ==> (r matches Err(Error::InvalidArrayLength {
                ids_length: el,
                values_length: vl,
            }) && el.val() == ids@.len() && vl.val() == amounts@.len()),
            ids@.len() == amounts@.len() && !legs_ok(
                old(self).bal_map(),
                from,
                to,
                ids@,
                amounts@,
                ids@.len() as int,
            ) ==> (r matches Err(Error::InsufficientBalance {
                sender: es,
                balance: eb,
                needed: en,
                id: ei,
            }) && es == from && eb.val() == legs_apply(
                old(self).bal_map(),
                from,
                to,
                ids@,
                amounts@,
                first_insufficient(old(self).bal_map(), from, to, ids@, amounts@),
            )[(from, ids@[first_insufficient(old(self).bal_map(), from, to, ids@, amounts@)])] && en
                == amounts@[first_insufficient(old(self).bal_map(), from, to, ids@, amounts@)] && ei
                == ids@[first_insufficient(old(self).bal_map(), from, to, ids@, amounts@)]),
    {
        let ghost pre = *self;
        let ghost gids = ids@;
        let ghost gams = amounts@;
        let ids_copy = copy_vec_u256(&ids);
        let amounts_copy = copy_vec_u256(&amounts);
        match self.erc6909._update(caller, from, to, ids, amounts) {
            Ok(()) => {},
            Err(e) => {
                return Err(e);
            },
        }
        let ghost mid = *self;
        let n = ids_copy.len();
        if from.is_zero() {
            let mut k: usize = 0;
            while k < n
                invariant
                    sup_keys_unique(self.total_supply@),
                    self.erc6909 == mid.erc6909,
                    k <= n,
                    n == gids.len(),
                    gids.len() == gams.len(),
                    ids_copy@ == gids,
                    amounts_copy@ == gams,
                    from.spec_is_zero(),
                    forall|i: U256|
                        sup_of(pre.total_supply@, i) + #[trigger] legs_total(
                            gids,
                            gams,
                            i,
                            n as int,
                        ) <= u256_max(),
                    forall|i: U256| #[trigger]
                        sup_of(self.total_supply@, i) == sup_of(pre.total_supply@, i) + legs_total(
                            gids,
                            gams,
                            i,
                            k as int,
                        ),
                decreases n - k,
            {
                let id = ids_copy[k];
                let amount = amounts_copy[k];
                let cur = self.get_supply(id);
                proof {
                    lemma_legs_total_mono(gids, gams, id, k as int + 1, n as int);
                    assert(legs_total(gids, gams, id, k as int + 1) == legs_total(
                        gids,
                        gams,
                        id,
                        k as int,
                    ) + amount.val());
                }
                let raised = match cur.checked_add(&amount) {
                    Some(x) => x,
                    None => unreached(),
                };
                self.set_supply(id, raised);
                proof {
                    assert forall|i: U256| #[trigger]
                        sup_of(self.total_supply@, i) == sup_of(pre.total_supply@, i) + legs_total(
                            gids,
                            gams,
                            i,
                            k as int + 1,
                        ) by {
                        assert(legs_total(gids, gams, i, k as int + 1) == legs_total(
                            gids,
                            gams,
                            i,
                            k as int,
                        ) + if gids[k as int] == i {
                            gams[k as int].val()
                        } else {
                            0
                        });
                    }
                }
                k = k + 1;
            }
        }
        if to.is_zero() {
            let ghost smid = self.total_supply@;
            proof {
                assert forall|i: U256| #[trigger]
                    legs_total(gids, gams, i, n as int) <= sup_of(smid, i) by {
                    if from.spec_is_zero() {
                        lemma_sup_of_bound(pre.total_supply@, i);
                    } else {
                        lemma_sum_bal_nonneg(mid.erc6909.balances@, i);
                        assert(sup_of(pre.total_supply@, i) == sum_bal(pre.erc6909.balances@, i));
                    }
                }
            }
            let mut k: usize = 0;
            while k < n
                invariant
                    sup_keys_unique(self.total_supply@),
                    self.erc6909 == mid.erc6909,
                    k <= n,
                    n == gids.len(),
                    gids.len() == gams.len(),
                    ids_copy@ == gids,
                    amounts_copy@ == gams,
                    to.spec_is_zero(),
                    forall|i: U256| #[trigger] legs_total(gids, gams, i, n as int) <= sup_of(
                        smid,
                        i,
                    ),
                    forall|i: U256| #[trigger]
                        sup_of(self.total_supply@, i) == sup_of(smid, i) - legs_total(
                            gids,
                            gams,
                            i,
                            k as int,
                        ),
                decreases n - k,
            {
                let id = ids_copy[k];
                let amount = amounts_copy[k];
                let cur = self.get_supply(id);
                proof {
                    lemma_legs_total_mono(gids, gams, id, k as int + 1, n as int);
                    assert(legs_total(gids, gams, id, k as int + 1) == legs_total(
                        gids,
                        gams,
                        id,
                        k as int,
                    ) + amount.val());
                }
                let lowered = cur.sub_unchecked(&amount);
                self.set_supply(id, lowered);
                proof {
                    assert forall|i: U256| #[trigger]
                        sup_of(self.total_supply@, i) == sup_of(smid, i) - legs_total(
                            gids,
                            gams,
                            i,
                            k as int + 1,
                        ) by {
                        assert(legs_total(gids, gams, i, k as int + 1) == legs_total(
                            gids,
                            gams,
                            i,
                            k as int,
                        ) + if gids[k as int] == i {
                            gams[k as int].val()
                        } else {
                            0
                        });
                    }
                }
                k = k + 1;
            }
        }
        proof {
            assert forall|i: U256| #[trigger]
                sup_of(self.total_supply@, i) == sum_bal(self.erc6909.balances@, i) by {
                lemma_sum_bal_nonneg(mid.erc6909.balances@, i);
                assert(sup_of(pre.total_supply@, i) == sum_bal(pre.erc6909.balances@, i));
                lemma_legs_total_nonneg(gids, gams, i, n as int);
            }
            assert forall|i: U256| #[trigger]
                self.sup_map()[i] == pre.sup_map()[i] + (if from.spec_is_zero() {
                    legs_total(gids, gams, i, n as int)
                } else {
                    0
                }) - (if to.spec_is_zero() {
                    legs_total(gids, gams, i, n as int)
                } else {
                    0
                }) by {
                assert(self.sup_map()[i] == sup_of(self.total_supply@, i));
                assert(pre.sup_map()[i] == sup_of(pre.total_supply@, i));
            }
        }
        Ok(())
    }

    /// Moves `amount` of token `id` from `from` to `to`; under the supply
    /// invariant no credit can overflow, so no bound on the inputs is
    /// needed.
    pub(crate) fn _transfer(
        &mut self,
        caller: Address,
        from: Address,
        to: Address,
        id: U256,
        amount: U256,
    ) -> (r: Result<bool, Error>)
        requires
            old(self).wf(),
        ensures
            final(self).wf(),
            r is Ok <==> (!from.spec_is_zero() && !to.spec_is_zero() && amount.val() <= old(
                self,
            ).bal_map()[(from, id)]),
            r matches Ok(b) ==> b,
            r is Ok ==> final(self).bal_map() == leg_apply(
                old(self).bal_map(),
                from,
                to,
                id,
                amount,
            ),
            forall|i: U256| #[trigger] final(self).sup_map()[i] == old(self).sup_map()[i],
            final(self).erc6909.allowances@ == old(self).erc6909.allowances@,
            final(self).erc6909.operator_approvals@ == old(self).erc6909.operator_approvals@,
            r is Ok ==> final(self).erc6909.events@ == old(self).erc6909.events@.push(
                Event::TransferSingle { caller, from, to, id, amount },
            ),
            r is Err ==> final(self).eq_state(*old(self)),
            from.spec_is_zero() ==> r == Err::<bool, Error>(Error::InvalidSender { sender: from }),
            !from.spec_is_zero() && to.spec_is_zero() ==> r == Err::<bool, Error>(
                Error::InvalidReceiver { receiver: to },
            ),
            !from.spec_is_zero() && !to.spec_is_zero() && amount.val() > old(self).bal_map()[(
                from,
                id,
            )] ==> (r matches Err(Error::InsufficientBalance {
                sender: es,
                balance: eb,
                needed: en,
                id: ei,
            }) && es == from && eb.val() == old(self).bal_map()[(from, id)] && en == amount && ei
                == id),
    {
        if from.is_zero() {
            return Err(Error::InvalidSender { sender: from });
        }
        if to.is_zero() {
            return Err(Error::InvalidReceiver { receiver: to });
        }
        let mut ids: Vec<U256> = Vec::new();
        ids.push(id);
        let mut amounts: Vec<U256> = Vec::new();
        amounts.push(amount);
        let ghost m = self.bal_map();
        proof {
            assert(ids@.len() == 1 && ids@[0] == id);
            assert(amounts@.len() == 1 && amounts@[0] == amount);
            assert(legs_apply(m, from, to, ids@, amounts@, 0) == m);
            assert(legs_ok(m, from, to, ids@, amounts@, 0));
            assert(legs_ok(m, from, to, ids@, amounts@, 1) == leg_ok(m, from, id, amount));
            assert(legs_fit(m, from, to, ids@, amounts@, 0));
            if leg_ok(m, from, id, amount) {
                self.lemma_transfer_leg_fits(from, to, id, amount);
            }
            assert(legs_fit(m, from, to, ids@, amounts@, 1));
        }
        let r = self._update(caller, from, to, ids, amounts);
        proof {
            assert(legs_apply(m, from, to, ids@, amounts@, 1) == leg_apply(m, from, to, id, amount));
            if r is Err {
                lemma_first_insufficient_at(m, from, to, ids@, amounts@, 0);
            }
        }
        match r {
            Ok(()) => Ok(true),
            Err(e) => Err(e),
        }
    }

    /// Under the supply invariant, a covered transfer leg between real
    /// accounts cannot overflow the credited balance.
    proof fn lemma_transfer_leg_fits(self, from: Address, to: Address, id: U256, amount: U256)
        requires
            self.wf(),
            !from.spec_is_zero(),
            !to.spec_is_zero(),
            leg_ok(self.bal_map(), from, id, amount),
        ensures
            leg_fits(self.bal_map(), from, to, id, amount),
    {
        let m = self.bal_map();
        assert(m[(from, id)] == bal_of(self.erc6909.balances@, (from, id)));
        assert(m[(to, id)] == bal_of(self.erc6909.balances@, (to, id)));
        if from == to {
            lemma_bal_of_bound(self.erc6909.balances@, (from, id));
        } else {
            lemma_two_bals_le_sum(self.erc6909.balances@, (to, id), (from, id));
            assert(sup_of(self.total_supply@, id) == sum_bal(self.erc6909.balances@, id));
            lemma_sup_of_bound(self.total_supply@, id);
        }
    }

    /// Moves `amount` of token `id` from the caller to `receiver`.
    pub fn transfer(&mut self, caller: Address, receiver: Address, id: U256, amount: U256) -> (r:
        Result<bool, Error>)
        requires
            old(self).wf(),
        ensures
            final(self).wf(),
            r is Ok <==> (!caller.spec_is_zero() && !receiver.spec_is_zero() && amount.val() <= old(
                self,
            ).bal_map()[(caller, id)]),
            r matches Ok(b) ==> b,
            r is Ok ==> final(self).bal_map() == leg_apply(
                old(self).bal_map(),
                caller,
                receiver,
                id,
                amount,
            ),
            forall|i: U256| #[trigger] final(self).sup_map()[i] == old(self).sup_map()[i],
            final(self).erc6909.allowances@ == old(self).erc6909.allowances@,
            final(self).erc6909.operator_approvals@ == old(self).erc6909.operator_approvals@,
            r is Ok ==> final(self).erc6909.events@ == old(self).erc6909.events@.push(
                Event::TransferSingle { caller, from: caller, to: receiver, id, amount },
            ),
            r is Err ==> final(self).eq_state(*old(self)),
            caller.spec_is_zero() ==> r == Err::<bool, Error>(
                Error::InvalidSender { sender: caller },
            ),
            !caller.spec_is_zero() && receiver.spec_is_zero() ==> r == Err::<bool, Error>(
                Error::InvalidReceiver { receiver },
            ),
            !caller.spec_is_zero() && !receiver.spec_is_zero() && amount.val() > old(
                self,
            ).bal_map()[(caller, id)] ==> (r matches Err(Error::InsufficientBalance {
                sender: es,
                balance: eb,
                needed: en,
                id: ei,
            }) && es == caller && eb.val() == old(self).bal_map()[(caller, id)] && en == amount
                && ei == id),
    {
        self._transfer(caller, caller, receiver, id, amount)
    }

    /// Moves `amount` of token `id` from `sender` to `receiver` on behalf
    /// of `caller`, consuming allowance exactly when the caller is
    /// neither the sender nor an operator of the sender's account.
    pub fn transfer_from(
        &mut self,
        caller: Address,
        sender: Address,
        receiver: Address,
        id: U256,
        amount: U256,
    ) -> (r: Result<bool, Error>)
        requires
            old(self).wf(),
        ensures
            final(self).wf(),
            r is Ok <==> old(self).erc6909.spec_transfer_from_ok(
                caller,
                sender,
                receiver,
                id,
                amount,
            ),
            r matches Ok(b) ==> b,
            r is Ok ==> final(self).bal_map() == leg_apply(
                old(self).bal_map(),
                sender,
                receiver,
                id,
                amount,
            ),
            forall|i: U256| #[trigger] final(self).sup_map()[i] == old(self).sup_map()[i],
            r is Ok && old(self).erc6909.spec_needs_allowance(caller, sender) ==> final(self)
                .allow_map() == old(self).allow_map().insert(
                (sender, caller, id),
                old(self).allow_map()[(sender, caller, id)] - amount.val(),
            ),
            !old(self).erc6909.spec_needs_allowance(caller, sender) ==> final(self)
                .erc6909.allowances@ == old(self).erc6909.allowances@,
            final(self).erc6909.operator_approvals@ == old(self).erc6909.operator_approvals@,
            r is Ok ==> final(self).erc6909.events@ == old(self).erc6909.events@.push(
                Event::TransferSingle { caller, from: sender, to: receiver, id, amount },
            ),
            r is Err ==> final(self).eq_state(*old(self)),
            old(self).erc6909.spec_needs_allowance(caller, sender) && amount.val() > old(
                self,
            ).allow_map()[(sender, caller, id)] ==> (r matches Err(Error::InsufficientAllowance {
                spender: sp,
                allowance: al,
                needed: nd,
                id: ei,
            }) && sp == caller && al.val() == old(self).allow_map()[(sender, caller, id)]
                && nd.val() == old(self).allow_map()[(sender, caller, id)] && ei == id),
    {
        proof {
            if old(self).erc6909.spec_transfer_from_ok(caller, sender, receiver, id, amount) {
                self.lemma_transfer_leg_fits(sender, receiver, id, amount);
            }
        }
        let ghost pre = *self;
        let r = self.erc6909.transfer_from(caller, sender, receiver, id, amount);
        proof {
            assert forall|i: U256| #[trigger]
                sup_of(self.total_supply@, i) == sum_bal(self.erc6909.balances@, i) by {
                lemma_sum_bal_nonneg(self.erc6909.balances@, i);
                assert(sup_of(pre.total_supply@, i) == sum_bal(pre.erc6909.balances@, i));
            }
        }
        r
    }

    /// Sets `amount` as the allowance of `spender` over the caller's
    /// tokens of type `id`.
    pub fn approve(&mut self, caller: Address, spender: Address, id: U256, amount: U256) -> (r:
        Result<bool, Error>)
        requires
            old(self).wf(),
        ensures
            final(self).wf(),
            r is Ok <==> (!caller.spec_is_zero() && !spender.spec_is_zero()),
            r matches Ok(b) ==> b,
            r is Ok ==> final(self).allow_map() == old(self).allow_map().insert(
                (caller, spender, id),
                amount.val(),
            ),
            final(self).erc6909.balances@ == old(self).erc6909.balances@,
            final(self).total_supply@ == old(self).total_supply@,
            final(self).erc6909.operator_approvals@ == old(self).erc6909.operator_approvals@,
            r is Ok ==> final(self).erc6909.events@ == old(self).erc6909.events@.push(
                Event::Approval { owner: caller, spender, id, amount },
            ),
            r is Err ==> final(self).eq_state(*old(self)),
            caller.spec_is_zero() ==> r == Err::<bool, Error>(
                Error::InvalidApprover { approver: caller },
            ),
            !caller.spec_is_zero() && spender.spec_is_zero() ==> r == Err::<bool, Error>(
                Error::InvalidSpender { spender },
            ),
    {
        self.erc6909.approve(caller, spender, id, amount)
    }

    /// Grants or revokes operator privileges of `spender` over the
    /// caller's account.
    pub fn set_operator(&mut self, caller: Address, spender: Address, approved: bool) -> (r: Result<
        bool,
        Error,
    >)
        requires
            old(self).wf(),
        ensures
            final(self).wf(),
            r is Ok <==> (!caller.spec_is_zero() && !spender.spec_is_zero()),
            r matches Ok(b) ==> b,
            r is Ok ==> final(self).op_map() == old(self).op_map().insert(
                (caller, spender),
                approved,
            ),
            final(self).erc6909.balances@ == old(self).erc6909.balances@,
            final(self).total_supply@ == old(self).total_supply@,
            final(self).erc6909.allowances@ == old(self).erc6909.allowances@,
            r is Ok ==> final(self).erc6909.events@ == old(self).erc6909.events@.push(
                Event::OperatorSet { owner: caller, spender, approved },
            ),
            r is Err ==> final(self).eq_state(*old(self)),
            caller.spec_is_zero() ==> r == Err::<bool, Error>(
                Error::InvalidApprover { approver: caller },
            ),
            !caller.spec_is_zero() && spender.spec_is_zero() ==> r == Err::<bool, Error>(
                Error::InvalidSpender { spender },
            ),
    {
        self.erc6909.set_operator(caller, spender, approved)
    }

    /// Credits `to` with a batch of legs conceptually sent by the null
    /// address, raising the supply of each minted id.
    pub(crate) fn _do_mint(
        &mut self,
        caller: Address,
        to: Address,
        ids: Vec<U256>,
        amounts: Vec<U256>,
    ) -> (r: Result<(), Error>)
        requires
            old(self).wf(),
            !to.spec_is_zero() && ids@.len() == amounts@.len() ==> forall|i: U256|
                old(self).sup_map()[i] + #[trigger] legs_total(
                    ids@,
                    amounts@,
                    i,
                    ids@.len() as int,
                ) <= u256_max(),
        ensures
            final(self).wf(),
            r is Ok <==> (!to.spec_is_zero() && ids@.len() == amounts@.len()),
            r is Ok ==> final(self).bal_map() == legs_apply(
                old(self).bal_map(),
                Address::spec_zero(),
                to,
                ids@,
                amounts@,
                ids@.len() as int,
            ),
            r is Ok ==> forall|i: U256| #[trigger]
                final(self).sup_map()[i] == old(self).sup_map()[i] + legs_total(
                    ids@,
                    amounts@,
                    i,
                    ids@.len() as int,
                ),
            final(self).erc6909.allowances@ == old(self).erc6909.allowances@,
            final(self).erc6909.operator_approvals@ == old(self).erc6909.operator_approvals@,
            r is Ok && ids@.len() == 1 ==> final(self).erc6909.events@ == old(
                self,
            ).erc6909.events@.push(
                Event::TransferSingle {
                    caller,
                    from: Address::spec_zero(),
                    to,
                    id: ids@[0],
                    amount: amounts@[0],
                },
            ),
            r is Ok && ids@.len() != 1 ==> final(self).erc6909.events@ == old(
                self,
            ).erc6909.events@.push(
                Event::TransferBatch { caller, from: Address::spec_zero(), to, ids, amounts },
            ),
            r is Err ==> final(self).eq_state(*old(self)),
            to.spec_is_zero() ==> r == Err::<(), Error>(Error::InvalidReceiver { receiver: to }),
            !to.spec_is_zero() && ids@.len() != amounts@.len() ==> (r matches Err(
            Error::InvalidArrayLength {
                ids_length: el,
                values_length: vl,
            }) && el.val() == ids@.len() && vl.val() == amounts@.len()),
    {
        if to.is_zero() {
            return Err(Error::InvalidReceiver { receiver: to });
        }
        let from = Address::zero();
        proof {
            if ids@.len() == amounts@.len() {
                assert forall|i: U256|
                    old(self).bal_map()[(to, i)] + #[trigger] legs_total(
                        ids@,
                        amounts@,
                        i,
                        ids@.len() as int,
                    ) <= u256_max() by {
                    assert(old(self).bal_map()[(to, i)] == bal_of(
                        old(self).erc6909.balances@,
                        (to, i),
                    ));
                    lemma_bal_le_sum(old(self).erc6909.balances@, (to, i));
                    assert(sup_of(old(self).total_supply@, i) == sum_bal(
                        old(self).erc6909.balances@,
                        i,
                    ));
                    assert(old(self).sup_map()[i] == sup_of(old(self).total_supply@, i));
                }
                lemma_mint_legs_fit(
                    old(self).bal_map(),
                    from,
                    to,
                    ids@,
                    amounts@,
                    ids@.len() as int,
                    ids@.len() as int,
                );
            }
            lemma_legs_ok_no_debit(
                old(self).bal_map(),
                from,
                to,
                ids@,
                amounts@,
                ids@.len() as int,
            );
        }
        self._update(caller, from, to, ids, amounts)
    }

    /// Debits `from` with a batch of legs conceptually sent to the null
    /// address, lowering the supply of each burnt id.
    pub(crate) fn _do_burn(
        &mut self,
        caller: Address,
        from: Address,
        ids: Vec<U256>,
        amounts: Vec<U256>,
    ) -> (r: Result<(), Error>)
        requires
            old(self).wf(),
        ensures
            final(self).wf(),
            r is Ok <==> (!from.spec_is_zero() && ids@.len() == amounts@.len() && legs_ok(
                old(self).bal_map(),
                from,
                Address::spec_zero(),
                ids@,
                amounts@,
                ids@.len() as int,
            )),
            r is Ok ==> final(self).bal_map() == legs_apply(
                old(self).bal_map(),
                from,
                Address::spec_zero(),
                ids@,
                amounts@,
                ids@.len() as int,
            ),
            r is Ok ==> forall|i: U256| #[trigger]
                final(self).sup_map()[i] == old(self).sup_map()[i] - legs_total(
                    ids@,
                    amounts@,
                    i,
                    ids@.len() as int,
                ),
            final(self).erc6909.allowances@ == old(self).erc6909.allowances@,
            final(self).erc6909.operator_approvals@ == old(self).erc6909.operator_approvals@,
            r is Ok && ids@.len() == 1 ==> final(self).erc6909.events@ == old(
                self,
            ).erc6909.events@.push(
                Event::TransferSingle {
                    caller,
                    from,
                    to: Address::spec_zero(),
                    id: ids@[0],
                    amount: amounts@[0],
                },
            ),
            r is Ok && ids@.len() != 1 ==> final(self).erc6909.events@ == old(
                self,
            ).erc6909.events@.push(
                Event::TransferBatch { caller, from, to: Address::spec_zero(), ids, amounts },
            ),
            r is Err ==> final(self).eq_state(*old(self)),
            from.spec_is_zero() ==> r == Err::<(), Error>(Error::InvalidSender { sender: from }),
            !from.spec_is_zero() && ids@.len() != amounts@.len() ==> (r matches Err(
            Error::InvalidArrayLength {
                ids_length: el,
                values_length: vl,
            }) && el.val() == ids@.len() && vl.val() == amounts@.len()),
            !from.spec_is_zero() && ids@.len() == amounts@.len() && !legs_ok(
                old(self).bal_map(),
                from,
                Address::spec_zero(),
                ids@,
                amounts@,
                ids@.len() as int,
            ) ==> (r matches Err(Error::InsufficientBalance {
                sender: es,
                balance: eb,
                needed: en,
                id: ei,
            }) && es == from && eb.val() == legs_apply(
                old(self).bal_map(),
                from,
                Address::spec_zero(),
                ids@,
                amounts@,
                first_insufficient(
                    old(self).bal_map(),
                    from,
                    Address::spec_zero(),
                    ids@,
                    amounts@,
                ),
            )[
                (
                    from,
                    ids@[first_insufficient(
                        old(self).bal_map(),
                        from,
                        Address::spec_zero(),
                        ids@,
                        amounts@,
                    )],
                )
            ] && en == amounts@[first_insufficient(
                old(self).bal_map(),
                from,
                Address::spec_zero(),
                ids@,
                amounts@,
            )] && ei == ids@[first_insufficient(
                old(self).bal_map(),
                from,
                Address::spec_zero(),
                ids@,
                amounts@,
            )]),
    {
        if from.is_zero() {
            return Err(Error::InvalidSender { sender: from });
        }
        let to = Address::zero();
        proof {
            lemma_legs_fit_no_credit(
                old(self).bal_map(),
                from,
                to,
                ids@,
                amounts@,
                ids@.len() as int,
            );
        }
        self._update(caller, from, to, ids, amounts)
    }

    /// Creates `amount` of token `id` for `to`, raising the supply of
    /// that id.
    pub fn _mint(&mut self, caller: Address, to: Address, id: U256, amount: U256) -> (r: Result<
        (),
        Error,
    >)
        requires
            old(self).wf(),
            !to.spec_is_zero() ==> old(self).sup_map()[id] + amount.val() <= u256_max(),
        ensures
            final(self).wf(),
            r is Ok <==> !to.spec_is_zero(),
            r is Ok ==> final(self).bal_map() == old(self).bal_map().insert(
                (to, id),
                old(self).bal_map()[(to, id)] + amount.val(),
            ),
            r is Ok ==> forall|i: U256| #[trigger]
                final(self).sup_map()[i] == old(self).sup_map()[i] + (if i == id {
                    amount.val()
                } else {
                    0
                }),
            final(self).erc6909.allowances@ == old(self).erc6909.allowances@,
            final(self).erc6909.operator_approvals@ == old(self).erc6909.operator_approvals@,
            r is Ok ==> final(self).erc6909.events@ == old(self).erc6909.events@.push(
                Event::TransferSingle { caller, from: Address::spec_zero(), to, id, amount },
            ),
            r is Err ==> final(self).eq_state(*old(self)),
            to.spec_is_zero() ==> r == Err::<(), Error>(Error::InvalidReceiver { receiver: to }),
    {
        let mut ids: Vec<U256> = Vec::new();
        ids.push(id);
        let mut amounts: Vec<U256> = Vec::new();
        amounts.push(amount);
        let ghost m = self.bal_map();
        proof {
            assert(ids@.len() == 1 && ids@[0] == id);
            assert(amounts@.len() == 1 && amounts@[0] == amount);
            if !to.spec_is_zero() {
                assert forall|i: U256|
                    self.sup_map()[i] + #[trigger] legs_total(ids@, amounts@, i, 1)
                        <= u256_max() by {
                    assert(self.sup_map()[i] == sup_of(self.total_supply@, i));
                    lemma_sup_of_bound(self.total_supply@, i);
                    assert(legs_total(ids@, amounts@, i, 1) == legs_total(ids@, amounts@, i, 0) + (
                    if ids@[0] == i {
                        amounts@[0].val()
                    } else {
                        0
                    }));
                }
            }
            assert(legs_apply(m, Address::spec_zero(), to, ids@, amounts@, 0) == m);
        }
        let r = self._do_mint(caller, to, ids, amounts);
        proof {
            if r is Ok {
                assert(legs_apply(m, Address::spec_zero(), to, ids@, amounts@, 1) == leg_apply(
                    m,
                    Address::spec_zero(),
                    to,
                    id,
                    amount,
                ));
                assert forall|i: U256| #[trigger]
                    self.sup_map()[i] == old(self).sup_map()[i] + (if i == id {
                        amount.val()
                    } else {
                        0
                    }) by {
                    assert(legs_total(ids@, amounts@, i, 1) == legs_total(ids@, amounts@, i, 0) + (
                    if ids@[0] == i {
                        amounts@[0].val()
                    } else {
                        0
                    }));
                }
            }
        }
        r
    }

    /// Batched version of [`Erc6909Supply::_mint`]: one leg per id, all
    /// credited to `to`.
    pub fn _mint_batch(
        &mut self,
        caller: Address,
        to: Address,
        ids: Vec<U256>,
        amounts: Vec<U256>,
    ) -> (r: Result<(), Error>)
        requires
            old(self).wf(),
            !to.spec_is_zero() && ids@.len() == amounts@.len() ==> forall|i: U256|
                old(self).sup_map()[i] + #[trigger] legs_total(
                    ids@,
                    amounts@,
                    i,
                    ids@.len() as int,
                ) <= u256_max(),
        ensures
            final(self).wf(),
            r is Ok <==> (!to.spec_is_zero() && ids@.len() == amounts@.len()),
            r is Ok ==> final(self).bal_map() == legs_apply(
                old(self).bal_map(),
                Address::spec_zero(),
                to,
                ids@,
                amounts@,
                ids@.len() as int,
            ),
            r is Ok ==> forall|i: U256| #[trigger]
                final(self).sup_map()[i] == old(self).sup_map()[i] + legs_total(
                    ids@,
                    amounts@,
                    i,
                    ids@.len() as int,
                ),
            final(self).erc6909.allowances@ == old(self).erc6909.allowances@,
            final(self).erc6909.operator_approvals@ == old(self).erc6909.operator_approvals@,
            r is Ok && ids@.len() == 1 ==> final(self).erc6909.events@ == old(
                self,
            ).erc6909.events@.push(
                Event::TransferSingle {
                    caller,
                    from: Address::spec_zero(),
                    to,
                    id: ids@[0],
                    amount: amounts@[0],
                },
            ),
            r is Ok && ids@.len() != 1 ==> final(self).erc6909.events@ == old(
                self,
            ).erc6909.events@.push(
                Event::TransferBatch { caller, from: Address::spec_zero(), to, ids, amounts },
            ),
            r is Err ==> final(self).eq_state(*old(self)),
            to.spec_is_zero() ==> r == Err::<(), Error>(Error::InvalidReceiver { receiver: to }),
            !to.spec_is_zero() && ids@.len() != amounts@.len() ==> (r matches Err(
            Error::InvalidArrayLength {
                ids_length: el,
                values_length: vl,
            }) && el.val() == ids@.len() && vl.val() == amounts@.len()),
    {
        self._do_mint(caller, to, ids, amounts)
    }

    /// Destroys `amount` of token `id` held by `from`, lowering the
    /// supply of that id.
    pub fn _burn(&mut self, caller: Address, from: Address, id: U256, amount: U256) -> (r: Result<
        (),
        Error,
    >)
        requires
            old(self).wf(),
        ensures
            final(self).wf(),
            r is Ok <==> (!from.spec_is_zero() && amount.val() <= old(self).bal_map()[(from, id)]),
            r is Ok ==> final(self).bal_map() == old(self).bal_map().insert(
                (from, id),
                old(self).bal_map()[(from, id)] - amount.val(),
            ),
            r is Ok ==> forall|i: U256| #[trigger]
                final(self).sup_map()[i] == old(self).sup_map()[i] - (if i == id {
                    amount.val()
                } else {
                    0
                }),
            final(self).erc6909.allowances@ == old(self).erc6909.allowances@,
            final(self).erc6909.operator_approvals@ == old(self).erc6909.operator_approvals@,
            r is Ok ==> final(self).erc6909.events@ == old(self).erc6909.events@.push(
                Event::TransferSingle { caller, from, to: Address::spec_zero(), id, amount },
            ),
            r is Err ==> final(self).eq_state(*old(self)),
            from.spec_is_zero() ==> r == Err::<(), Error>(Error::InvalidSender { sender: from }),
            !from.spec_is_zero() && amount.val() > old(self).bal_map()[(from, id)] ==> (r matches
                Err(Error::InsufficientBalance {
                sender: es,
                balance: eb,
                needed: en,
                id: ei,
            }) && es == from && eb.val() == old(self).bal_map()[(from, id)] && en == amount && ei
                == id),
    {
        let mut ids: Vec<U256> = Vec::new();
        ids.push(id);
        let mut amounts: Vec<U256> = Vec::new();
        amounts.push(amount);
        let ghost m = self.bal_map();
        let ghost z = Address::spec_zero();
        proof {
            assert(ids@.len() == 1 && ids@[0] == id);
            assert(amounts@.len() == 1 && amounts@[0] == amount);
            assert(legs_apply(m, from, z, ids@, amounts@, 0) == m);
            assert(legs_ok(m, from, z, ids@, amounts@, 0));
            assert(legs_ok(m, from, z, ids@, amounts@, 1) == leg_ok(m, from, id, amount));
        }
        let r = self._do_burn(caller, from, ids, amounts);
        proof {
            assert(legs_apply(m, from, z, ids@, amounts@, 1) == leg_apply(m, from, z, id, amount));
            if r is Ok {
                assert forall|i: U256| #[trigger]
                    self.sup_map()[i] == old(self).sup_map()[i] - (if i == id {
                        amount.val()
                    } else {
                        0
                    }) by {
                    assert(legs_total(ids@, amounts@, i, 1) == legs_total(ids@, amounts@, i, 0) + (
                    if ids@[0] == i {
                        amounts@[0].val()
                    } else {
                        0
                    }));
                }
            } else if !from.spec_is_zero() {
                lemma_first_insufficient_at(m, from, z, ids@, amounts@, 0);
            }
        }
        r
    }

    /// Batched version of [`Erc6909Supply::_burn`]: one leg per id, all
    /// debited from `from`.
    pub fn _burn_batch(
        &mut self,
        caller: Address,
        from: Address,
        ids: Vec<U256>,
        amounts: Vec<U256>,
    ) -> (r: Result<(), Error>)
        requires
            old(self).wf(),
        ensures
            final(self).wf(),
            r is Ok <==> (!from.spec_is_zero() && ids@.len() == amounts@.len() && legs_ok(
                old(self).bal_map(),
                from,
                Address::spec_zero(),
                ids@,
                amounts@,
                ids@.len() as int,
            )),
            r is Ok ==> final(self).bal_map() == legs_apply(
                old(self).bal_map(),
                from,
                Address::spec_zero(),
                ids@,
                amounts@,
                ids@.len() as int,
            ),
            r is Ok ==> forall|i: U256| #[trigger]
                final(self).sup_map()[i] == old(self).sup_map()[i] - legs_total(
                    ids@,
                    amounts@,
                    i,
                    ids@.len() as int,
                ),
            final(self).erc6909.allowances@ == old(self).erc6909.allowances@,
            final(self).erc6909.operator_approvals@ == old(self).erc6909.operator_approvals@,
            r is Ok && ids@.len() == 1 ==> final(self).erc6909.events@ == old(
                self,
            ).erc6909.events@.push(
                Event::TransferSingle {
                    caller,
                    from,
                    to: Address::spec_zero(),
                    id: ids@[0],
                    amount: amounts@[0],
                },
            ),
            r is Ok && ids@.len() != 1 ==> final(self).erc6909.events@ == old(
                self,
            ).erc6909.events@.push(
                Event::TransferBatch { caller, from, to: Address::spec_zero(), ids, amounts },
            ),
            r is Err ==> final(self).eq_state(*old(self)),
            from.spec_is_zero() ==> r == Err::<(), Error>(Error::InvalidSender { sender: from }),
            !from.spec_is_zero() && ids@.len() != amounts@.len() ==> (r matches Err(
            Error::InvalidArrayLength {
                ids_length: el,
                values_length: vl,
            }) && el.val() == ids@.len() && vl.val() == amounts@.len()),
    {
        self._do_burn(caller, from, ids, amounts)
    }
}

/// Copies a vector of 256-bit values.
fn copy_vec_u256(v: &Vec<U256>) -> (r: Vec<U256>)
    ensures
        r@ == v@,
{
    let mut r: Vec<U256> = Vec::new();
    let n = v.len();
    let mut j: usize = 0;
    while j < n
        invariant
            j <= n,
            n == v@.len(),
            r@ == v@.subrange(0, j as int),
        decreases n - j,
    {
        r.push(v[j]);
        proof {
            assert(r@ =~= v@.subrange(0, j as int + 1));
        }
        j = j + 1;
    }
    proof {
        assert(r@ =~= v@);
    }
    r
}

} // verus!
