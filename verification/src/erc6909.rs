//! The multi-token ledger core.
//!
//! A [`Erc6909`] value owns per-owner, per-token-id balances, per-token
//! allowances, account-wide operator flags, and an append-only event log.
//! Every mutating operation is transactional: it either performs its whole
//! effect and appends one event, or returns an error and leaves the state
//! untouched.  The caller of each operation is passed in explicitly; a
//! host adapter supplies the real caller identity.

use vstd::prelude::*;

use vstd::pervasive::unreached;

use crate::address::Address;
use crate::error::Error;
use crate::event::Event;
use crate::model::{
    allow_key, allow_keys_unique, allow_of, bal_key, bal_keys_unique, bal_of, bal_owners_nonzero,
    first_insufficient, leg_apply, leg_fits, leg_ok, legs_apply, legs_fit, legs_ok, legs_total,
    lemma_allow_of_absent, lemma_allow_of_at, lemma_allow_of_push, lemma_allow_of_update,
    lemma_allow_push_wf, lemma_allow_update_wf, lemma_bal_of_absent, lemma_bal_of_at,
    lemma_bal_of_bound, lemma_bal_of_push, lemma_bal_of_update, lemma_bal_push_wf,
    lemma_bal_update_wf, lemma_first_insufficient_at, lemma_legs_fit_no_credit,
    lemma_legs_fit_prefix, lemma_legs_ok_no_debit, lemma_legs_ok_prefix, lemma_mint_legs_fit,
    lemma_op_of_absent, lemma_op_of_at, lemma_op_of_push, lemma_op_of_update, lemma_op_push_wf,
    lemma_op_update_wf, lemma_sum_bal_push, lemma_sum_bal_update, op_key, op_keys_unique, op_of,
    sum_bal, AllowKey, AllowanceEntry, BalKey, BalanceEntry, OpKey, OperatorEntry,
};
use crate::u256::{u256_max, U256};

verus! {

/// The 4-byte identifier of the base multi-token interface.
pub const ERC6909_INTERFACE_ID: u32 = 0x0f632fb3;

/// The 4-byte identifier of the introspection interface.
pub const ERC165_INTERFACE_ID: u32 = 0x01ffc9a7;

/// The state of a multi-token ledger.
pub struct Erc6909 {
    /// The balance slots; absent keys hold zero.
    pub balances: Vec<BalanceEntry>,
    /// The allowance slots; absent keys hold zero.
    pub allowances: Vec<AllowanceEntry>,
    /// The operator flags; absent keys hold `false`.
    pub operator_approvals: Vec<OperatorEntry>,
    /// The events emitted so far, oldest first.
    pub events: Vec<Event>,
}

impl Erc6909 {
    /// The internal invariant: distinct keys in every map, and no balance
    /// slot owned by the null address.
    pub open spec fn wf(self) -> bool {
        &&& bal_keys_unique(self.balances@)
        &&& bal_owners_nonzero(self.balances@)
        &&& allow_keys_unique(self.allowances@)
        &&& op_keys_unique(self.operator_approvals@)
    }

    /// The balance of every owner and token id, as a total map.
    pub open spec fn bal_map(self) -> Map<BalKey, int> {
        Map::new(|key: BalKey| true, |key: BalKey| bal_of(self.balances@, key))
    }

    /// The allowance of every owner, spender and token id, as a total map.
    pub open spec fn allow_map(self) -> Map<AllowKey, int> {
        Map::new(|key: AllowKey| true, |key: AllowKey| allow_of(self.allowances@, key))
    }

    /// The operator flag of every owner and spender, as a total map.
    pub open spec fn op_map(self) -> Map<OpKey, bool> {
        Map::new(|key: OpKey| true, |key: OpKey| op_of(self.operator_approvals@, key))
    }

    /// Two ledgers hold the same state.
    pub open spec fn eq_state(self, other: Erc6909) -> bool {
        &&& self.balances@ == other.balances@
        &&& self.allowances@ == other.allowances@
        &&& self.operator_approvals@ == other.operator_approvals@
        &&& self.events@ == other.events@
    }

    /// An empty ledger: every balance, allowance and flag at its default,
    /// and no event emitted.
    pub fn new() -> (r: Erc6909)
        ensures
            r.wf(),
            r.balances@.len() == 0,
            r.allowances@.len() == 0,
            r.operator_approvals@.len() == 0,
            r.events@.len() == 0,
            forall|key: BalKey| r.bal_map()[key] == 0,
            forall|key: AllowKey| r.allow_map()[key] == 0,
            forall|key: OpKey| !r.op_map()[key],
    {
        let r = Erc6909 {
            balances: Vec::new(),
            allowances: Vec::new(),
            operator_approvals: Vec::new(),
            events: Vec::new(),
        };
        proof {
            assert forall|key: BalKey| r.bal_map()[key] == 0 by {
                assert(bal_of(r.balances@, key) == 0);
            }
            assert forall|key: AllowKey| r.allow_map()[key] == 0 by {
                assert(allow_of(r.allowances@, key) == 0);
            }
            assert forall|key: OpKey| !r.op_map()[key] by {
                assert(!op_of(r.operator_approvals@, key));
            }
        }
        r
    }

    /// The index of the balance slot of `(owner, id)`, if one exists.
    fn find_balance(&self, owner: Address, id: U256) -> (r: Option<usize>)
        ensures
            r matches Some(j) ==> j < self.balances@.len() && bal_key(self.balances@[j as int])
                == (owner, id),
            r is None ==> forall|t: int|
                0 <= t < self.balances@.len() ==> #[trigger] bal_key(self.balances@[t]) != (
                owner,
                id,
                ),
    {
        let n = self.balances.len();
        let mut j: usize = 0;
        while j < n
            invariant
                j <= n,
                n == self.balances@.len(),
                forall|t: int| 0 <= t < j ==> #[trigger] bal_key(self.balances@[t]) != (owner, id),
            decreases n - j,
        {
            let e = self.balances[j];
            if e.owner == owner && e.id == id {
                return Some(j);
            }
            j = j + 1;
        }
        None
    }

    /// The index of the allowance slot of `(owner, spender, id)`, if one
    /// exists.
    fn find_allowance(&self, owner: Address, spender: Address, id: U256) -> (r: Option<usize>)
        ensures
            r matches Some(j) ==> j < self.allowances@.len() && allow_key(
                self.allowances@[j as int],
            ) == (owner, spender, id),
            r is None ==> forall|t: int|
                0 <= t < self.allowances@.len() ==> #[trigger] allow_key(self.allowances@[t]) != (
                owner,
                spender,
                id,
                ),
    {
        let n = self.allowances.len();
        let mut j: usize = 0;
        while j < n
            invariant
                j <= n,
                n == self.allowances@.len(),
                forall|t: int|
                    0 <= t < j ==> #[trigger] allow_key(self.allowances@[t]) != (owner, spender, id),
            decreases n - j,
        {
            let e = self.allowances[j];
            if e.owner == owner && e.spender == spender && e.id == id {
                return Some(j);
            }
            j = j + 1;
        }
        None
    }

    /// The index of the operator flag of `(owner, spender)`, if one exists.
    fn find_operator(&self, owner: Address, spender: Address) -> (r: Option<usize>)
        ensures
            r matches Some(j) ==> j < self.operator_approvals@.len() && op_key(
                self.operator_approvals@[j as int],
            ) == (owner, spender),
            r is None ==> forall|t: int|
                0 <= t < self.operator_approvals@.len() ==> #[trigger] op_key(
                    self.operator_approvals@[t],
                ) != (owner, spender),
    {
        let n = self.operator_approvals.len();
        let mut j: usize = 0;
        while j < n
            invariant
                j <= n,
                n == self.operator_approvals@.len(),
                forall|t: int|
                    0 <= t < j ==> #[trigger] op_key(self.operator_approvals@[t]) != (
                    owner,
                    spender,
                    ),
            decreases n - j,
        {
            let e = self.operator_approvals[j];
            if e.owner == owner && e.spender == spender {
                return Some(j);
            }
            j = j + 1;
        }
        None
    }

    /// Returns the balance `owner` holds of token `id`.
    pub fn balance_of(&self, owner: Address, id: U256) -> (r: U256)
        requires
            self.wf(),
        ensures
            r.val() == self.bal_map()[(owner, id)],
    {
        match self.find_balance(owner, id) {
            Some(j) => {
                proof {
                    lemma_bal_of_at(self.balances@, j as int);
                }
                self.balances[j].amount
            },
            None => {
                proof {
                    lemma_bal_of_absent(self.balances@, (owner, id));
                }
                U256::zero()
            },
        }
    }

    /// Returns the amount of token `id` owned by `owner` that `spender`
    /// may spend.
    pub fn allowance(&self, owner: Address, spender: Address, id: U256) -> (r: U256)
        requires
            self.wf(),
        ensures
            r.val() == self.allow_map()[(owner, spender, id)],
    {
        match self.find_allowance(owner, spender, id) {
            Some(j) => {
                proof {
                    lemma_allow_of_at(self.allowances@, j as int);
                }
                self.allowances[j].amount
            },
            None => {
                proof {
                    lemma_allow_of_absent(self.allowances@, (owner, spender, id));
                }
                U256::zero()
            },
        }
    }

    /// Returns whether `spender` is an operator for `owner`'s account.
    pub fn is_operator(&self, owner: Address, spender: Address) -> (r: bool)
        requires
            self.wf(),
        ensures
            r == self.op_map()[(owner, spender)],
    {
        match self.find_operator(owner, spender) {
            Some(j) => {
                proof {
                    lemma_op_of_at(self.operator_approvals@, j as int);
                }
                self.operator_approvals[j].approved
            },
            None => {
                proof {
                    lemma_op_of_absent(self.operator_approvals@, (owner, spender));
                }
                false
            },
        }
    }

    /// Writes the balance slot of `(owner, id)`.
    fn set_balance(&mut self, owner: Address, id: U256, amount: U256)
        requires
            old(self).wf(),
            !owner.spec_is_zero(),
        ensures
            final(self).wf(),
            final(self).bal_map() == old(self).bal_map().insert((owner, id), amount.val()),
            final(self).allowances@ == old(self).allowances@,
            final(self).operator_approvals@ == old(self).operator_approvals@,
            final(self).events@ == old(self).events@,
            forall|i: U256| #[trigger]
                sum_bal(final(self).balances@, i) == sum_bal(old(self).balances@, i) + (if i == id {
                    amount.val() - old(self).bal_map()[(owner, id)]
                } else {
                    0
                }),
    {
        let e = BalanceEntry { owner, id, amount };
        match self.find_balance(owner, id) {
            Some(j) => {
                proof {
                    let s = self.balances@;
                    lemma_bal_of_at(s, j as int);
                    lemma_bal_of_update(s, j as int, e);
                    lemma_bal_update_wf(s, j as int, e);
                    assert forall|i: U256| #[trigger]
                        sum_bal(s.update(j as int, e), i) == sum_bal(s, i) + (if i == id {
                            amount.val() - old(self).bal_map()[(owner, id)]
                        } else {
                            0
                        }) by {
                        lemma_sum_bal_update(s, j as int, e, i);
                    }
                }
                self.balances.set(j, e);
                proof {
                    assert(self.bal_map() =~= old(self).bal_map().insert(
                        (owner, id),
                        amount.val(),
                    ));
                }
            },
            None => {
                proof {
                    let s = self.balances@;
                    lemma_bal_of_absent(s, (owner, id));
                    lemma_bal_of_push(s, e);
                    lemma_bal_push_wf(s, e);
                    assert forall|i: U256| #[trigger]
                        sum_bal(s.push(e), i) == sum_bal(s, i) + (if i == id {
                            amount.val() - old(self).bal_map()[(owner, id)]
                        } else {
                            0
                        }) by {
                        lemma_sum_bal_push(s, e, i);
                    }
                }
                self.balances.push(e);
                proof {
                    assert(self.bal_map() =~= old(self).bal_map().insert(
                        (owner, id),
                        amount.val(),
                    ));
                }
            },
        }
    }

    /// Writes the allowance slot of `(owner, spender, id)`.
    fn set_allowance(&mut self, owner: Address, spender: Address, id: U256, amount: U256)
        requires
            old(self).wf(),
        ensures
            final(self).wf(),
            final(self).allow_map() == old(self).allow_map().insert(
                (owner, spender, id),
                amount.val(),
            ),
            final(self).balances@ == old(self).balances@,
            final(self).operator_approvals@ == old(self).operator_approvals@,
            final(self).events@ == old(self).events@,
    {
        let e = AllowanceEntry { owner, spender, id, amount };
        match self.find_allowance(owner, spender, id) {
            Some(j) => {
                proof {
                    lemma_allow_of_update(self.allowances@, j as int, e);
                    lemma_allow_update_wf(self.allowances@, j as int, e);
                }
                self.allowances.set(j, e);
                proof {
                    assert(self.allow_map() =~= old(self).allow_map().insert(
                        (owner, spender, id),
                        amount.val(),
                    ));
                }
            },
            None => {
                proof {
                    lemma_allow_of_push(self.allowances@, e);
                    lemma_allow_push_wf(self.allowances@, e);
                }
                self.allowances.push(e);
                proof {
                    assert(self.allow_map() =~= old(self).allow_map().insert(
                        (owner, spender, id),
                        amount.val(),
                    ));
                }
            },
        }
    }

    /// Applies one leg of an update: debit `amount` of `id` from `from`
    /// unless `from` is the null address, then credit it to `to` unless
    /// `to` is the null address.
    pub(crate) fn _do_update(&mut self, from: Address, to: Address, id: U256, amount: U256) -> (r:
        Result<(), Error>)
        requires
            old(self).wf(),
            leg_ok(old(self).bal_map(), from, id, amount) ==> leg_fits(
                old(self).bal_map(),
                from,
                to,
                id,
                amount,
            ),
        ensures
            final(self).wf(),
            r is Ok <==> leg_ok(old(self).bal_map(), from, id, amount),
            r is Ok ==> final(self).bal_map() == leg_apply(
                old(self).bal_map(),
                from,
                to,
                id,
                amount,
            ),
            r is Ok ==> forall|i: U256| #[trigger]
                sum_bal(final(self).balances@, i) == sum_bal(old(self).balances@, i) + (
                if !to.spec_is_zero() && i == id {
                    amount.val()
                } else {
                    0
                }) - (if !from.spec_is_zero() && i == id {
                    amount.val()
                } else {
                    0
                }),
            final(self).allowances@ == old(self).allowances@,
            final(self).operator_approvals@ == old(self).operator_approvals@,
            final(self).events@ == old(self).events@,
            r is Err ==> final(self).eq_state(*old(self)),
            r is Err ==> (r matches Err(Error::InsufficientBalance {
                sender: es,
                balance: eb,
                needed: en,
                id: ei,
            }) && es == from && eb.val() == old(self).bal_map()[(from, id)] && en == amount && ei
                == id),
    {
        if !from.is_zero() {
            let from_balance = self.balance_of(from, id);
            if from_balance.lt(&amount) {
                return Err(
                    Error::InsufficientBalance {
                        sender: from,
                        balance: from_balance,
                        needed: amount,
                        id,
                    },
                );
            }
            let debited = from_balance.sub_unchecked(&amount);
            self.set_balance(from, id, debited);
        }
        if !to.is_zero() {
            let to_balance = self.balance_of(to, id);
            let credited = match to_balance.checked_add(&amount) {
                Some(x) => x,
                None => unreached(),
            };
            self.set_balance(to, id, credited);
        }
        proof {
            assert(self.bal_map() =~= leg_apply(old(self).bal_map(), from, to, id, amount));
        }
        Ok(())
    }

    /// Rejects a batch whose id and amount vectors differ in length.
    pub(crate) fn require_equal_arrays_length(ids: &Vec<U256>, values: &Vec<U256>) -> (r: Result<
        (),
        Error,
    >)
        ensures
            r is Ok <==> ids@.len() == values@.len(),
            r is Err ==> (r matches Err(Error::InvalidArrayLength {
                ids_length: el,
                values_length: vl,
            }) && el.val() == ids@.len() && vl.val() == values@.len()),
    {
        if ids.len() != values.len() {
            return Err(
                Error::InvalidArrayLength {
                    ids_length: U256::from_usize(ids.len()),
                    values_length: U256::from_usize(values.len()),
                },
            );
        }
        Ok(())
    }

    /// Snapshots the balance slots, so a failing batch can put them back.
    fn copy_balances(&self) -> (r: Vec<BalanceEntry>)
        ensures
            r@ == self.balances@,
    {
        let mut r: Vec<BalanceEntry> = Vec::new();
        let n = self.balances.len();
        let mut j: usize = 0;
        while j < n
            invariant
                j <= n,
                n == self.balances@.len(),
                r@ == self.balances@.subrange(0, j as int),
            decreases n - j,
        {
            r.push(self.balances[j]);
            proof {
                assert(r@ =~= self.balances@.subrange(0, j as int + 1));
            }
            j = j + 1;
        }
        proof {
            assert(r@ =~= self.balances@);
        }
        r
    }

    /// Applies a batch of legs between one `from` and one `to`, in input
    /// order, and emits a single event: `TransferSingle` for a batch of
    /// one leg, `TransferBatch` otherwise.  A failing batch leaves the
    /// ledger unchanged.
    pub(crate) fn _update(
        &mut self,
        caller: Address,
        from: Address,
        to: Address,
        ids: Vec<U256>,
        amounts: Vec<U256>,
    ) -> (r: Result<(), Error>)
        requires
            old(self).wf(),
            ids@.len() == amounts@.len() ==> legs_fit(
                old(self).bal_map(),
                from,
                to,
                ids@,
                amounts@,
                ids@.len() as int,
            ),
        ensures
            final(self).wf(),
            r is Ok <==> (ids@.len() == amounts@.len() && legs_ok(
                old(self).bal_map(),
                from,
                to,
                ids@,
                amounts@,
                ids@.len() as int,
            )),
            r is Ok ==> final(self).bal_map() == legs_apply(
                old(self).bal_map(),
                from,
                to,
                ids@,
                amounts@,
                ids@.len() as int,
            ),
            r is Ok ==> forall|i: U256| #[trigger]
                sum_bal(final(self).balances@, i) == sum_bal(old(self).balances@, i) + (
                if !to.spec_is_zero() {
                    legs_total(ids@, amounts@, i, ids@.len() as int)
                } else {
                    0
                }) - (if !from.spec_is_zero() {
                    legs_total(ids@, amounts@, i, ids@.len() as int)
                } else {
                    0
                }),
            final(self).allowances@ == old(self).allowances@,
            final(self).operator_approvals@ == old(self).operator_approvals@,
            r is Ok && ids@.len() == 1 ==> final(self).events@ == old(self).events@.push(
                Event::TransferSingle { caller, from, to, id: ids@[0], amount: amounts@[0] },
            ),
            r is Ok && ids@.len() != 1 ==> final(self).events@ == old(self).events@.push(
                Event::TransferBatch { caller, from, to, ids, amounts },
            ),
            r is Err ==> final(self).eq_state(*old(self)),
            ids@.len() != amounts@.len() ==> (r matches Err(Error::InvalidArrayLength {
                ids_length: el,
                values_length: vl,
            }) && el.val() == ids@.len() && vl.val() == amounts@.len()),
            ids@.len() == amounts@.len() && !legs_ok(
                old(self).bal_map(),
                from,
                to,
                ids@,
                amounts@,
                ids@.len() as int,
            ) ==> (r matches Err(Error::InsufficientBalance {
                sender: es,
                balance: eb,
                needed: en,
                id: ei,
            }) && es == from && eb.val() == legs_apply(
                old(self).bal_map(),
                from,
                to,
                ids@,
                amounts@,
                first_insufficient(old(self).bal_map(), from, to, ids@, amounts@),
            )[(from, ids@[first_insufficient(old(self).bal_map(), from, to, ids@, amounts@)])] && en
                == amounts@[first_insufficient(old(self).bal_map(), from, to, ids@, amounts@)] && ei
                == ids@[first_insufficient(old(self).bal_map(), from, to, ids@, amounts@)]),
    {
        match Self::require_equal_arrays_length(&ids, &amounts) {
            Ok(()) => {},
            Err(e) => {
                return Err(e);
            },
        }
        let ghost pre = *self;
        let saved = self.copy_balances();
        let n = ids.len();
        let mut k: usize = 0;
        while k < n
            invariant
                pre.wf(),
                pre == *old(self),
                self.wf(),
                k <= n,
                n == ids@.len(),
                ids@.len() == amounts@.len(),
                legs_fit(pre.bal_map(), from, to, ids@, amounts@, n as int),
                legs_ok(pre.bal_map(), from, to, ids@, amounts@, k as int),
                self.bal_map() == legs_apply(pre.bal_map(), from, to, ids@, amounts@, k as int),
                self.allowances@ == pre.allowances@,
                self.operator_approvals@ == pre.operator_approvals@,
                self.events@ == pre.events@,
                saved@ == pre.balances@,
                forall|i: U256| #[trigger]
                    sum_bal(self.balances@, i) == sum_bal(pre.balances@, i) + (
                    if !to.spec_is_zero() {
                        legs_total(ids@, amounts@, i, k as int)
                    } else {
                        0
                    }) - (if !from.spec_is_zero() {
                        legs_total(ids@, amounts@, i, k as int)
                    } else {
                        0
                    }),
            decreases n - k,
        {
            let id = ids[k];
            let amount = amounts[k];
            proof {
                lemma_legs_fit_prefix(pre.bal_map(), from, to, ids@, amounts@, k as int + 1, n as int);
            }
            let ghost mid = *self;
            match self._do_update(from, to, id, amount) {
                Ok(()) => {
                    proof {
                        assert(legs_ok(pre.bal_map(), from, to, ids@, amounts@, k as int + 1));
                        assert(self.bal_map() == legs_apply(
                            pre.bal_map(),
                            from,
                            to,
                            ids@,
                            amounts@,
                            k as int + 1,
                        ));
                        assert forall|i: U256| #[trigger]
                            sum_bal(self.balances@, i) == sum_bal(pre.balances@, i) + (
                            if !to.spec_is_zero() {
                                legs_total(ids@, amounts@, i, k as int + 1)
                            } else {
                                0
                            }) - (if !from.spec_is_zero() {
                                legs_total(ids@, amounts@, i, k as int + 1)
                            } else {
                                0
                            }) by {
                            assert(sum_bal(mid.balances@, i) == sum_bal(pre.balances@, i) + (
                            if !to.spec_is_zero() {
                                legs_total(ids@, amounts@, i, k as int)
                            } else {
                                0
                            }) - (if !from.spec_is_zero() {
                                legs_total(ids@, amounts@, i, k as int)
                            } else {
                                0
                            }));
                            assert(legs_total(ids@, amounts@, i, k as int + 1) == legs_total(
                                ids@,
                                amounts@,
                                i,
                                k as int,
                            ) + if ids@[k as int] == i {
                                amounts@[k as int].val()
                            } else {
                                0
                            });
                        }
                    }
                },
                Err(e) => {
                    proof {
                        lemma_first_insufficient_at(
                            pre.bal_map(),
                            from,
                            to,
                            ids@,
                            amounts@,
                            k as int,
                        );
                        if legs_ok(pre.bal_map(), from, to, ids@, amounts@, n as int) {
                            lemma_legs_ok_prefix(
                                pre.bal_map(),
                                from,
                                to,
                                ids@,
                                amounts@,
                                k as int + 1,
                                n as int,
                            );
                        }
                    }
                    self.balances = saved;
                    return Err(e);
                },
            }
            k = k + 1;
        }
        if ids.len() == 1 {
            let ev = Event::TransferSingle { caller, from, to, id: ids[0], amount: amounts[0] };
            self.events.push(ev);
        } else {
            let ev = Event::TransferBatch { caller, from, to, ids, amounts };
            self.events.push(ev);
        }
        Ok(())
    }

    /// Writes the operator flag of `(owner, spender)`.
    fn set_operator_flag(&mut self, owner: Address, spender: Address, approved: bool)
        requires
            old(self).wf(),
        ensures
            final(self).wf(),
            final(self).op_map() == old(self).op_map().insert((owner, spender), approved),
            final(self).balances@ == old(self).balances@,
            final(self).allowances@ == old(self).allowances@,
            final(self).events@ == old(self).events@,
    {
        let e = OperatorEntry { owner, spender, approved };
        match self.find_operator(owner, spender) {
            Some(j) => {
                proof {
                    lemma_op_of_update(self.operator_approvals@, j as int, e);
                    lemma_op_update_wf(self.operator_approvals@, j as int, e);
                }
                self.operator_approvals.set(j, e);
                proof {
                    assert(self.op_map() =~= old(self).op_map().insert((owner, spender), approved));
                }
            },
            None => {
                proof {
                    lemma_op_of_push(self.operator_approvals@, e);
                    lemma_op_push_wf(self.operator_approvals@, e);
                }
                self.operator_approvals.push(e);
                proof {
                    assert(self.op_map() =~= old(self).op_map().insert((owner, spender), approved));
                }
            },
        }
    }

    /// Moves `amount` of token `id` from `from` to `to` without touching
    /// approvals; both endpoints must be real accounts, so this can
    /// neither mint nor burn.
    pub(crate) fn _transfer(
        &mut self,
        caller: Address,
        from: Address,
        to: Address,
        id: U256,
        amount: U256,
    ) -> (r: Result<(), Error>)
        requires
            old(self).wf(),
            !from.spec_is_zero() && !to.spec_is_zero() && amount.val() <= old(self).bal_map()[(
                from,
                id,
            )] ==> leg_fits(old(self).bal_map(), from, to, id, amount),
        ensures
            final(self).wf(),
            r is Ok <==> (!from.spec_is_zero() && !to.spec_is_zero() && amount.val() <= old(
                self,
            ).bal_map()[(from, id)]),
            r is Ok ==> final(self).bal_map() == leg_apply(
                old(self).bal_map(),
                from,
                to,
                id,
                amount,
            ),
            r is Ok ==> forall|i: U256| #[trigger]
                sum_bal(final(self).balances@, i) == sum_bal(old(self).balances@, i),
            final(self).allowances@ == old(self).allowances@,
            final(self).operator_approvals@ == old(self).operator_approvals@,
            r is Ok ==> final(self).events@ == old(self).events@.push(
                Event::TransferSingle { caller, from, to, id, amount },
            ),
            r is Err ==> final(self).eq_state(*old(self)),
            from.spec_is_zero() ==> r == Err::<(), Error>(Error::InvalidSender { sender: from }),
            !from.spec_is_zero() && to.spec_is_zero() ==> r == Err::<(), Error>(
                Error::InvalidReceiver { receiver: to },
            ),
            !from.spec_is_zero() && !to.spec_is_zero() && amount.val() > old(self).bal_map()[(
                from,
                id,
            )] ==> (r matches Err(Error::InsufficientBalance {
                sender: es,
                balance: eb,
                needed: en,
                id: ei,
            }) && es == from && eb.val() == old(self).bal_map()[(from, id)] && en == amount && ei
                == id),
    {
        if from.is_zero() {
            return Err(Error::InvalidSender { sender: from });
        }
        if to.is_zero() {
            return Err(Error::InvalidReceiver { receiver: to });
        }
        let mut ids: Vec<U256> = Vec::new();
        ids.push(id);
        let mut amounts: Vec<U256> = Vec::new();
        amounts.push(amount);
        let ghost m = self.bal_map();
        proof {
            assert(ids@.len() == 1 && ids@[0] == id);
            assert(amounts@.len() == 1 && amounts@[0] == amount);
            assert(legs_apply(m, from, to, ids@, amounts@, 0) == m);
            assert(legs_ok(m, from, to, ids@, amounts@, 0));
            assert(legs_ok(m, from, to, ids@, amounts@, 1) == leg_ok(m, from, id, amount));
            assert(legs_fit(m, from, to, ids@, amounts@, 0));
            assert(legs_fit(m, from, to, ids@, amounts@, 1) == (leg_ok(m, from, id, amount)
                ==> leg_fits(m, from, to, id, amount)));
        }
        let r = self._update(caller, from, to, ids, amounts);
        proof {
            assert(legs_apply(m, from, to, ids@, amounts@, 1) == leg_apply(m, from, to, id, amount));
            if r is Ok {
                assert forall|i: U256| #[trigger]
                    sum_bal(self.balances@, i) == sum_bal(old(self).balances@, i) by {
                    assert(legs_total(ids@, amounts@, i, 1) == legs_total(ids@, amounts@, i, 0) + (
                    if ids@[0] == i {
                        amounts@[0].val()
                    } else {
                        0
                    }));
                }
            } else {
                lemma_first_insufficient_at(m, from, to, ids@, amounts@, 0);
            }
        }
        match r {
            Ok(()) => Ok(()),
            Err(e) => Err(e),
        }
    }

    /// Sets `amount` as the allowance of `spender` over the `owner`'s
    /// tokens of type `id`; the amount is absolute, not a delta.
    pub(crate) fn _approve(
        &mut self,
        owner: Address,
        spender: Address,
        id: U256,
        amount: U256,
    ) -> (r: Result<(), Error>)
        requires
            old(self).wf(),
        ensures
            final(self).wf(),
            r is Ok <==> (!owner.spec_is_zero() && !spender.spec_is_zero()),
            r is Ok ==> final(self).allow_map() == old(self).allow_map().insert(
                (owner, spender, id),
                amount.val(),
            ),
            final(self).balances@ == old(self).balances@,
            final(self).operator_approvals@ == old(self).operator_approvals@,
            r is Ok ==> final(self).events@ == old(self).events@.push(
                Event::Approval { owner, spender, id, amount },
            ),
            r is Err ==> final(self).eq_state(*old(self)),
            owner.spec_is_zero() ==> r == Err::<(), Error>(
                Error::InvalidApprover { approver: owner },
            ),
            !owner.spec_is_zero() && spender.spec_is_zero() ==> r == Err::<(), Error>(
                Error::InvalidSpender { spender },
            ),
    {
        if owner.is_zero() {
            return Err(Error::InvalidApprover { approver: owner });
        }
        if spender.is_zero() {
            return Err(Error::InvalidSpender { spender });
        }
        self.set_allowance(owner, spender, id, amount);
        self.events.push(Event::Approval { owner, spender, id, amount });
        Ok(())
    }

    /// Grants or revokes operator privileges of `spender` over the
    /// `owner`'s account.
    pub(crate) fn _set_operator(
        &mut self,
        owner: Address,
        spender: Address,
        approved: bool,
    ) -> (r: Result<(), Error>)
        requires
            old(self).wf(),
        ensures
            final(self).wf(),
            r is Ok <==> (!owner.spec_is_zero() && !spender.spec_is_zero()),
            r is Ok ==> final(self).op_map() == old(self).op_map().insert(
                (owner, spender),
                approved,
            ),
            final(self).balances@ == old(self).balances@,
            final(self).allowances@ == old(self).allowances@,
            r is Ok ==> final(self).events@ == old(self).events@.push(
                Event::OperatorSet { owner, spender, approved },
            ),
            r is Err ==> final(self).eq_state(*old(self)),
            owner.spec_is_zero() ==> r == Err::<(), Error>(
                Error::InvalidApprover { approver: owner },
            ),
            !owner.spec_is_zero() && spender.spec_is_zero() ==> r == Err::<(), Error>(
                Error::InvalidSpender { spender },
            ),
    {
        if owner.is_zero() {
            return Err(Error::InvalidApprover { approver: owner });
        }
        if spender.is_zero() {
            return Err(Error::InvalidSpender { spender });
        }
        self.set_operator_flag(owner, spender, approved);
        self.events.push(Event::OperatorSet { owner, spender, approved });
        Ok(())
    }

    /// Consumes `amount` of the allowance `owner` granted to `spender`
    /// for token `id`; emits nothing.
    pub(crate) fn _spend_allowance(
        &mut self,
        owner: Address,
        spender: Address,
        id: U256,
        amount: U256,
    ) -> (r: Result<(), Error>)
        requires
            old(self).wf(),
        ensures
            final(self).wf(),
            r is Ok <==> amount.val() <= old(self).allow_map()[(owner, spender, id)],
            r is Ok ==> final(self).allow_map() == old(self).allow_map().insert(
                (owner, spender, id),
                old(self).allow_map()[(owner, spender, id)] - amount.val(),
            ),
            final(self).balances@ == old(self).balances@,
            final(self).operator_approvals@ == old(self).operator_approvals@,
            final(self).events@ == old(self).events@,
            r is Err ==> final(self).eq_state(*old(self)),
            r is Err ==> (r matches Err(Error::InsufficientAllowance {
                spender: sp,
                allowance: al,
                needed: nd,
                id: ei,
            }) && sp == spender && al.val() == old(self).allow_map()[(owner, spender, id)]
                && nd.val() == old(self).allow_map()[(owner, spender, id)] && ei == id),
    {
        let current_allowance = self.allowance(owner, spender, id);
        if current_allowance.lt(&amount) {
            return Err(
                Error::InsufficientAllowance {
                    spender,
                    allowance: current_allowance,
                    needed: current_allowance,
                    id,
                },
            );
        }
        let remaining = current_allowance.sub_unchecked(&amount);
        self.set_allowance(owner, spender, id, remaining);
        Ok(())
    }

    /// Whether a transfer of `sender`'s tokens initiated by `caller` must
    /// consume allowance: it must unless the caller is the sender or an
    /// operator of the sender's account.
    pub open spec fn spec_needs_allowance(self, caller: Address, sender: Address) -> bool {
        caller != sender && !self.op_map()[(sender, caller)]
    }

    /// The inputs on which `transfer_from` succeeds.
    pub open spec fn spec_transfer_from_ok(
        self,
        caller: Address,
        sender: Address,
        receiver: Address,
        id: U256,
        amount: U256,
    ) -> bool {
        &&& self.spec_needs_allowance(caller, sender) ==> amount.val() <= self.allow_map()[(
            sender,
            caller,
            id,
        )]
        &&& !sender.spec_is_zero()
        &&& !receiver.spec_is_zero()
        &&& amount.val() <= self.bal_map()[(sender, id)]
    }

    /// Moves `amount` of token `id` from the caller to `receiver`.
    pub fn transfer(&mut self, caller: Address, receiver: Address, id: U256, amount: U256) -> (r:
        Result<bool, Error>)
        requires
            old(self).wf(),
            !caller.spec_is_zero() && !receiver.spec_is_zero() && amount.val() <= old(
                self,
            ).bal_map()[(caller, id)] ==> leg_fits(
                old(self).bal_map(),
                caller,
                receiver,
                id,
                amount,
            ),
        ensures
            final(self).wf(),
            r is Ok <==> (!caller.spec_is_zero() && !receiver.spec_is_zero() && amount.val() <= old(
                self,
            ).bal_map()[(caller, id)]),
            r matches Ok(b) ==> b,
            r is Ok ==> final(self).bal_map() == leg_apply(
                old(self).bal_map(),
                caller,
                receiver,
                id,
                amount,
            ),
            r is Ok ==> forall|i: U256| #[trigger]
                sum_bal(final(self).balances@, i) == sum_bal(old(self).balances@, i),
            final(self).allowances@ == old(self).allowances@,
            final(self).operator_approvals@ == old(self).operator_approvals@,
            r is Ok ==> final(self).events@ == old(self).events@.push(
                Event::TransferSingle { caller, from: caller, to: receiver, id, amount },
            ),
            r is Err ==> final(self).eq_state(*old(self)),
            caller.spec_is_zero() ==> r == Err::<bool, Error>(
                Error::InvalidSender { sender: caller },
            ),
            !caller.spec_is_zero() && receiver.spec_is_zero() ==> r == Err::<bool, Error>(
                Error::InvalidReceiver { receiver },
            ),
            !caller.spec_is_zero() && !receiver.spec_is_zero() && amount.val() > old(
                self,
            ).bal_map()[(caller, id)] ==> (r matches Err(Error::InsufficientBalance {
                sender: es,
                balance: eb,
                needed: en,
                id: ei,
            }) && es == caller && eb.val() == old(self).bal_map()[(caller, id)] && en == amount
                && ei == id),
    {
        match self._transfer(caller, caller, receiver, id, amount) {
            Ok(()) => Ok(true),
            Err(e) => Err(e),
        }
    }

    /// Moves `amount` of token `id` from `sender` to `receiver` on behalf
    /// of `caller`, consuming allowance exactly when the caller is
    /// neither the sender nor an operator of the sender's account.
    pub fn transfer_from(
        &mut self,
        caller: Address,
        sender: Address,
        receiver: Address,
        id: U256,
        amount: U256,
    ) -> (r: Result<bool, Error>)
        requires
            old(self).wf(),
            old(self).spec_transfer_from_ok(caller, sender, receiver, id, amount) ==> leg_fits(
                old(self).bal_map(),
                sender,
                receiver,
                id,
                amount,
            ),
        ensures
            final(self).wf(),
            r is Ok <==> old(self).spec_transfer_from_ok(caller, sender, receiver, id, amount),
            r matches Ok(b) ==> b,
            r is Ok ==> final(self).bal_map() == leg_apply(
                old(self).bal_map(),
                sender,
                receiver,
                id,
                amount,
            ),
            r is Ok ==> forall|i: U256| #[trigger]
                sum_bal(final(self).balances@, i) == sum_bal(old(self).balances@, i),
            r is Ok && old(self).spec_needs_allowance(caller, sender) ==> final(self).allow_map()
                == old(self).allow_map().insert(
                (sender, caller, id),
                old(self).allow_map()[(sender, caller, id)] - amount.val(),
            ),
            !old(self).spec_needs_allowance(caller, sender) ==> final(self).allowances@ == old(
                self,
            ).allowances@,
            final(self).operator_approvals@ == old(self).operator_approvals@,
            r is Ok ==> final(self).events@ == old(self).events@.push(
                Event::TransferSingle { caller, from: sender, to: receiver, id, amount },
            ),
            r is Err ==> final(self).eq_state(*old(self)),
            old(self).spec_needs_allowance(caller, sender) && amount.val() > old(self).allow_map()[(
                sender,
                caller,
                id,
            )] ==> (r matches Err(Error::InsufficientAllowance {
                spender: sp,
                allowance: al,
                needed: nd,
                id: ei,
            }) && sp == caller && al.val() == old(self).allow_map()[(sender, caller, id)]
                && nd.val() == old(self).allow_map()[(sender, caller, id)] && ei == id),
            (old(self).spec_needs_allowance(caller, sender) ==> amount.val() <= old(
                self,
            ).allow_map()[(sender, caller, id)]) && sender.spec_is_zero() ==> r == Err::<
                bool,
                Error,
            >(Error::InvalidSender { sender }),
            (old(self).spec_needs_allowance(caller, sender) ==> amount.val() <= old(
                self,
            ).allow_map()[(sender, caller, id)]) && !sender.spec_is_zero()
                && receiver.spec_is_zero() ==> r == Err::<bool, Error>(
                Error::InvalidReceiver { receiver },
            ),
            (old(self).spec_needs_allowance(caller, sender) ==> amount.val() <= old(
                self,
            ).allow_map()[(sender, caller, id)]) && !sender.spec_is_zero()
                && !receiver.spec_is_zero() && amount.val() > old(self).bal_map()[(sender, id)]
                ==> (r matches Err(Error::InsufficientBalance {
                sender: es,
                balance: eb,
                needed: en,
                id: ei,
            }) && es == sender && eb.val() == old(self).bal_map()[(sender, id)] && en == amount
                && ei == id),
    {
        let operator = self.is_operator(sender, caller);
        let needs_allowance = !operator && !(sender == caller);
        if needs_allowance {
            let current_allowance = self.allowance(sender, caller, id);
            if current_allowance.lt(&amount) {
                return Err(
                    Error::InsufficientAllowance {
                        spender: caller,
                        allowance: current_allowance,
                        needed: current_allowance,
                        id,
                    },
                );
            }
        }
        match self._transfer(caller, sender, receiver, id, amount) {
            Ok(()) => {},
            Err(e) => {
                return Err(e);
            },
        }
        if needs_allowance {
            match self._spend_allowance(sender, caller, id, amount) {
                Ok(()) => {},
                Err(_) => {
                    return unreached();
                },
            }
        }
        Ok(true)
    }

    /// Sets `amount` as the allowance of `spender` over the caller's
    /// tokens of type `id`.
    pub fn approve(&mut self, caller: Address, spender: Address, id: U256, amount: U256) -> (r:
        Result<bool, Error>)
        requires
            old(self).wf(),
        ensures
            final(self).wf(),
            r is Ok <==> (!caller.spec_is_zero() && !spender.spec_is_zero()),
            r matches Ok(b) ==> b,
            r is Ok ==> final(self).allow_map() == old(self).allow_map().insert(
                (caller, spender, id),
                amount.val(),
            ),
            final(self).balances@ == old(self).balances@,
            final(self).operator_approvals@ == old(self).operator_approvals@,
            r is Ok ==> final(self).events@ == old(self).events@.push(
                Event::Approval { owner: caller, spender, id, amount },
            ),
            r is Err ==> final(self).eq_state(*old(self)),
            caller.spec_is_zero() ==> r == Err::<bool, Error>(
                Error::InvalidApprover { approver: caller },
            ),
            !caller.spec_is_zero() && spender.spec_is_zero() ==> r == Err::<bool, Error>(
                Error::InvalidSpender { spender },
            ),
    {
        match self._approve(caller, spender, id, amount) {
            Ok(()) => Ok(true),
            Err(e) => Err(e),
        }
    }

    /// Grants or revokes operator privileges of `spender` over the
    /// caller's account.
    pub fn set_operator(&mut self, caller: Address, spender: Address, approved: bool) -> (r: Result<
        bool,
        Error,
    >)
        requires
            old(self).wf(),
        ensures
            final(self).wf(),
            r is Ok <==> (!caller.spec_is_zero() && !spender.spec_is_zero()),
            r matches Ok(b) ==> b,
            r is Ok ==> final(self).op_map() == old(self).op_map().insert(
                (caller, spender),
                approved,
            ),
            final(self).balances@ == old(self).balances@,
            final(self).allowances@ == old(self).allowances@,
            r is Ok ==> final(self).events@ == old(self).events@.push(
                Event::OperatorSet { owner: caller, spender, approved },
            ),
            r is Err ==> final(self).eq_state(*old(self)),
            caller.spec_is_zero() ==> r == Err::<bool, Error>(
                Error::InvalidApprover { approver: caller },
            ),
            !caller.spec_is_zero() && spender.spec_is_zero() ==> r == Err::<bool, Error>(
                Error::InvalidSpender { spender },
            ),
    {
        match self._set_operator(caller, spender, approved) {
            Ok(()) => Ok(true),
            Err(e) => Err(e),
        }
    }

    /// Credits `to` with a batch of legs conceptually sent by the null
    /// address.
    pub(crate) fn _do_mint(
        &mut self,
        caller: Address,
        to: Address,
        ids: Vec<U256>,
        amounts: Vec<U256>,
    ) -> (r: Result<(), Error>)
        requires
            old(self).wf(),
            !to.spec_is_zero() && ids@.len() == amounts@.len() ==> forall|i: U256|
                old(self).bal_map()[(to, i)] + #[trigger] legs_total(
                    ids@,
                    amounts@,
                    i,
                    ids@.len() as int,
                ) <= u256_max(),
        ensures
            final(self).wf(),
            r is Ok <==> (!to.spec_is_zero() && ids@.len() == amounts@.len()),
            r is Ok ==> final(self).bal_map() == legs_apply(
                old(self).bal_map(),
                Address::spec_zero(),
                to,
                ids@,
                amounts@,
                ids@.len() as int,
            ),
            r is Ok ==> forall|i: U256| #[trigger]
                sum_bal(final(self).balances@, i) == sum_bal(old(self).balances@, i) + legs_total(
                    ids@,
                    amounts@,
                    i,
                    ids@.len() as int,
                ),
            final(self).allowances@ == old(self).allowances@,
            final(self).operator_approvals@ == old(self).operator_approvals@,
            r is Ok && ids@.len() == 1 ==> final(self).events@ == old(self).events@.push(
                Event::TransferSingle {
                    caller,
                    from: Address::spec_zero(),
                    to,
                    id: ids@[0],
                    amount: amounts@[0],
                },
            ),
            r is Ok && ids@.len() != 1 ==> final(self).events@ == old(self).events@.push(
                Event::TransferBatch { caller, from: Address::spec_zero(), to, ids, amounts },
            ),
            r is Err ==> final(self).eq_state(*old(self)),
            to.spec_is_zero() ==> r == Err::<(), Error>(Error::InvalidReceiver { receiver: to }),
            !to.spec_is_zero() && ids@.len() != amounts@.len() ==> (r matches Err(
            Error::InvalidArrayLength {
                ids_length: el,
                values_length: vl,
            }) && el.val() == ids@.len() && vl.val() == amounts@.len()),
    {
        if to.is_zero() {
            return Err(Error::InvalidReceiver { receiver: to });
        }
        let from = Address::zero();
        proof {
            if ids@.len() == amounts@.len() {
                lemma_mint_legs_fit(
                    old(self).bal_map(),
                    from,
                    to,
                    ids@,
                    amounts@,
                    ids@.len() as int,
                    ids@.len() as int,
                );
            }
            lemma_legs_ok_no_debit(
                old(self).bal_map(),
                from,
                to,
                ids@,
                amounts@,
                ids@.len() as int,
            );
        }
        self._update(caller, from, to, ids, amounts)
    }

    /// Debits `from` with a batch of legs conceptually sent to the null
    /// address.
    pub(crate) fn _do_burn(
        &mut self,
        caller: Address,
        from: Address,
        ids: Vec<U256>,
        amounts: Vec<U256>,
    ) -> (r: Result<(), Error>)
        requires
            old(self).wf(),
        ensures
            final(self).wf(),
            r is Ok <==> (!from.spec_is_zero() && ids@.len() == amounts@.len() && legs_ok(
                old(self).bal_map(),
                from,
                Address::spec_zero(),
                ids@,
                amounts@,
                ids@.len() as int,
            )),
            r is Ok ==> final(self).bal_map() == legs_apply(
                old(self).bal_map(),
                from,
                Address::spec_zero(),
                ids@,
                amounts@,
                ids@.len() as int,
            ),
            r is Ok ==> forall|i: U256| #[trigger]
                sum_bal(final(self).balances@, i) == sum_bal(old(self).balances@, i) - legs_total(
                    ids@,
                    amounts@,
                    i,
                    ids@.len() as int,
                ),
            final(self).allowances@ == old(self).allowances@,
            final(self).operator_approvals@ == old(self).operator_approvals@,
            r is Ok && ids@.len() == 1 ==> final(self).events@ == old(self).events@.push(
                Event::TransferSingle {
                    caller,
                    from,
                    to: Address::spec_zero(),
                    id: ids@[0],
                    amount: amounts@[0],
                },
            ),
            r is Ok && ids@.len() != 1 ==> final(self).events@ == old(self).events@.push(
                Event::TransferBatch { caller, from, to: Address::spec_zero(), ids, amounts },
            ),
            r is Err ==> final(self).eq_state(*old(self)),
            from.spec_is_zero() ==> r == Err::<(), Error>(Error::InvalidSender { sender: from }),
            !from.spec_is_zero() && ids@.len() != amounts@.len() ==> (r matches Err(
            Error::InvalidArrayLength {
                ids_length: el,
                values_length: vl,
            }) && el.val() == ids@.len() && vl.val() == amounts@.len()),
            !from.spec_is_zero() && ids@.len() == amounts@.len() && !legs_ok(
                old(self).bal_map(),
                from,
                Address::spec_zero(),
                ids@,
                amounts@,
                ids@.len() as int,
            ) ==> (r matches Err(Error::InsufficientBalance {
                sender: es,
                balance: eb,
                needed: en,
                id: ei,
            }) && es == from && eb.val() == legs_apply(
                old(self).bal_map(),
                from,
                Address::spec_zero(),
                ids@,
                amounts@,
                first_insufficient(
                    old(self).bal_map(),
                    from,
                    Address::spec_zero(),
                    ids@,
                    amounts@,
                ),
            )[
                (
                    from,
                    ids@[first_insufficient(
                        old(self).bal_map(),
                        from,
                        Address::spec_zero(),
                        ids@,
                        amounts@,
                    )],
                )
            ] && en == amounts@[first_insufficient(
                old(self).bal_map(),
                from,
                Address::spec_zero(),
                ids@,
                amounts@,
            )] && ei == ids@[first_insufficient(
                old(self).bal_map(),
                from,
                Address::spec_zero(),
                ids@,
                amounts@,
            )]),
    {
        if from.is_zero() {
            return Err(Error::InvalidSender { sender: from });
        }
        let to = Address::zero();
        proof {
            lemma_legs_fit_no_credit(
                old(self).bal_map(),
                from,
                to,
                ids@,
                amounts@,
                ids@.len() as int,
            );
        }
        self._update(caller, from, to, ids, amounts)
    }

    /// Creates `amount` of token `id` for `to`, conceptually sent by the
    /// null address.
    pub fn _mint(&mut self, caller: Address, to: Address, id: U256, amount: U256) -> (r: Result<
        (),
        Error,
    >)
        requires
            old(self).wf(),
            !to.spec_is_zero() ==> old(self).bal_map()[(to, id)] + amount.val() <= u256_max(),
        ensures
            final(self).wf(),
            r is Ok <==> !to.spec_is_zero(),
            r is Ok ==> final(self).bal_map() == old(self).bal_map().insert(
                (to, id),
                old(self).bal_map()[(to, id)] + amount.val(),
            ),
            r is Ok ==> forall|i: U256| #[trigger]
                sum_bal(final(self).balances@, i) == sum_bal(old(self).balances@, i) + (if i == id {
                    amount.val()
                } else {
                    0
                }),
            final(self).allowances@ == old(self).allowances@,
            final(self).operator_approvals@ == old(self).operator_approvals@,
            r is Ok ==> final(self).events@ == old(self).events@.push(
                Event::TransferSingle { caller, from: Address::spec_zero(), to, id, amount },
            ),
            r is Err ==> final(self).eq_state(*old(self)),
            to.spec_is_zero() ==> r == Err::<(), Error>(Error::InvalidReceiver { receiver: to }),
    {
        let mut ids: Vec<U256> = Vec::new();
        ids.push(id);
        let mut amounts: Vec<U256> = Vec::new();
        amounts.push(amount);
        let ghost m = self.bal_map();
        proof {
            assert(ids@.len() == 1 && ids@[0] == id);
            assert(amounts@.len() == 1 && amounts@[0] == amount);
            if !to.spec_is_zero() {
                assert forall|i: U256|
                    m[(to, i)] + #[trigger] legs_total(ids@, amounts@, i, 1) <= u256_max() by {
                    assert(m[(to, i)] == bal_of(self.balances@, (to, i)));
                    lemma_bal_of_bound(self.balances@, (to, i));
                    assert(legs_total(ids@, amounts@, i, 1) == legs_total(ids@, amounts@, i, 0) + (
                    if ids@[0] == i {
                        amounts@[0].val()
                    } else {
                        0
                    }));
                }
            }
            assert(legs_apply(m, Address::spec_zero(), to, ids@, amounts@, 0) == m);
        }
        let r = self._do_mint(caller, to, ids, amounts);
        proof {
            if r is Ok {
                assert(legs_apply(m, Address::spec_zero(), to, ids@, amounts@, 1) == leg_apply(
                    m,
                    Address::spec_zero(),
                    to,
                    id,
                    amount,
                ));
                assert forall|i: U256| #[trigger]
                    sum_bal(self.balances@, i) == sum_bal(old(self).balances@, i) + (if i == id {
                        amount.val()
                    } else {
                        0
                    }) by {
                    assert(legs_total(ids@, amounts@, i, 1) == legs_total(ids@, amounts@, i, 0) + (
                    if ids@[0] == i {
                        amounts@[0].val()
                    } else {
                        0
                    }));
                }
            }
        }
        r
    }

    /// Batched version of [`Erc6909::_mint`]: one leg per id, all
    /// credited to `to`.
    pub fn _mint_batch(
        &mut self,
        caller: Address,
        to: Address,
        ids: Vec<U256>,
        amounts: Vec<U256>,
    ) -> (r: Result<(), Error>)
        requires
            old(self).wf(),
            !to.spec_is_zero() && ids@.len() == amounts@.len() ==> forall|i: U256|
                old(self).bal_map()[(to, i)] + #[trigger] legs_total(
                    ids@,
                    amounts@,
                    i,
                    ids@.len() as int,
                ) <= u256_max(),
        ensures
            final(self).wf(),
            r is Ok <==> (!to.spec_is_zero() && ids@.len() == amounts@.len()),
            r is Ok ==> final(self).bal_map() == legs_apply(
                old(self).bal_map(),
                Address::spec_zero(),
                to,
                ids@,
                amounts@,
                ids@.len() as int,
            ),
            r is Ok ==> forall|i: U256| #[trigger]
                sum_bal(final(self).balances@, i) == sum_bal(old(self).balances@, i) + legs_total(
                    ids@,
                    amounts@,
                    i,
                    ids@.len() as int,
                ),
            final(self).allowances@ == old(self).allowances@,
            final(self).operator_approvals@ == old(self).operator_approvals@,
            r is Ok && ids@.len() == 1 ==> final(self).events@ == old(self).events@.push(
                Event::TransferSingle {
                    caller,
                    from: Address::spec_zero(),
                    to,
                    id: ids@[0],
                    amount: amounts@[0],
                },
            ),
            r is Ok && ids@.len() != 1 ==> final(self).events@ == old(self).events@.push(
                Event::TransferBatch { caller, from: Address::spec_zero(), to, ids, amounts },
            ),
            r is Err ==> final(self).eq_state(*old(self)),
            to.spec_is_zero() ==> r == Err::<(), Error>(Error::InvalidReceiver { receiver: to }),
            !to.spec_is_zero() && ids@.len() != amounts@.len() ==> (r matches Err(
            Error::InvalidArrayLength {
                ids_length: el,
                values_length: vl,
            }) && el.val() == ids@.len() && vl.val() == amounts@.len()),
    {
        self._do_mint(caller, to, ids, amounts)
    }

    /// Destroys `amount` of token `id` held by `from`, conceptually sent
    /// to the null address.
    pub fn _burn(&mut self, caller: Address, from: Address, id: U256, amount: U256) -> (r: Result<
        (),
        Error,
    >)
        requires
            old(self).wf(),
        ensures
            final(self).wf(),
            r is Ok <==> (!from.spec_is_zero() && amount.val() <= old(self).bal_map()[(from, id)]),
            r is Ok ==> final(self).bal_map() == old(self).bal_map().insert(
                (from, id),
                old(self).bal_map()[(from, id)] - amount.val(),
            ),
            r is Ok ==> forall|i: U256| #[trigger]
                sum_bal(final(self).balances@, i) == sum_bal(old(self).balances@, i) - (if i == id {
                    amount.val()
                } else {
                    0
                }),
            final(self).allowances@ == old(self).allowances@,
            final(self).operator_approvals@ == old(self).operator_approvals@,
            r is Ok ==> final(self).events@ == old(self).events@.push(
                Event::TransferSingle { caller, from, to: Address::spec_zero(), id, amount },
            ),
            r is Err ==> final(self).eq_state(*old(self)),
            from.spec_is_zero() ==> r == Err::<(), Error>(Error::InvalidSender { sender: from }),
            !from.spec_is_zero() && amount.val() > old(self).bal_map()[(from, id)] ==> (r matches
                Err(Error::InsufficientBalance {
                sender: es,
                balance: eb,
                needed: en,
                id: ei,
            }) && es == from && eb.val() == old(self).bal_map()[(from, id)] && en == amount && ei
                == id),
    {
        let mut ids: Vec<U256> = Vec::new();
        ids.push(id);
        let mut amounts: Vec<U256> = Vec::new();
        amounts.push(amount);
        let ghost m = self.bal_map();
        let ghost z = Address::spec_zero();
        proof {
            assert(ids@.len() == 1 && ids@[0] == id);
            assert(amounts@.len() == 1 && amounts@[0] == amount);
            assert(legs_apply(m, from, z, ids@, amounts@, 0) == m);
            assert(legs_ok(m, from, z, ids@, amounts@, 0));
            assert(legs_ok(m, from, z, ids@, amounts@, 1) == leg_ok(m, from, id, amount));
        }
        let r = self._do_burn(caller, from, ids, amounts);
        proof {
            assert(legs_apply(m, from, z, ids@, amounts@, 1) == leg_apply(m, from, z, id, amount));
            if r is Ok {
                assert forall|i: U256| #[trigger]
                    sum_bal(self.balances@, i) == sum_bal(old(self).balances@, i) - (if i == id {
                        amount.val()
                    } else {
                        0
                    }) by {
                    assert(legs_total(ids@, amounts@, i, 1) == legs_total(ids@, amounts@, i, 0) + (
                    if ids@[0] == i {
                        amounts@[0].val()
                    } else {
                        0
                    }));
                }
            } else if !from.spec_is_zero() {
                lemma_first_insufficient_at(m, from, z, ids@, amounts@, 0);
            }
        }
        r
    }

    /// Batched version of [`Erc6909::_burn`]: one leg per id, all debited
    /// from `from`.
    pub fn _burn_batch(
        &mut self,
        caller: Address,
        from: Address,
        ids: Vec<U256>,
        amounts: Vec<U256>,
    ) -> (r: Result<(), Error>)
        requires
            old(self).wf(),
        ensures
            final(self).wf(),
            r is Ok <==> (!from.spec_is_zero() && ids@.len() == amounts@.len() && legs_ok(
                old(self).bal_map(),
                from,
                Address::spec_zero(),
                ids@,
                amounts@,
                ids@.len() as int,
            )),
            r is Ok ==> final(self).bal_map() == legs_apply(
                old(self).bal_map(),
                from,
                Address::spec_zero(),
                ids@,
                amounts@,
                ids@.len() as int,
            ),
            r is Ok ==> forall|i: U256| #[trigger]
                sum_bal(final(self).balances@, i) == sum_bal(old(self).balances@, i) - legs_total(
                    ids@,
                    amounts@,
                    i,
                    ids@.len() as int,
                ),
            final(self).allowances@ == old(self).allowances@,
            final(self).operator_approvals@ == old(self).operator_approvals@,
            r is Ok && ids@.len() == 1 ==> final(self).events@ == old(self).events@.push(
                Event::TransferSingle {
                    caller,
                    from,
                    to: Address::spec_zero(),
                    id: ids@[0],
                    amount: amounts@[0],
                },
            ),
            r is Ok && ids@.len() != 1 ==> final(self).events@ == old(self).events@.push(
                Event::TransferBatch { caller, from, to: Address::spec_zero(), ids, amounts },
            ),
            r is Err ==> final(self).eq_state(*old(self)),
            from.spec_is_zero() ==> r == Err::<(), Error>(Error::InvalidSender { sender: from }),
            !from.spec_is_zero() && ids@.len() != amounts@.len() ==> (r matches Err(
            Error::InvalidArrayLength {
                ids_length: el,
                values_length: vl,
            }) && el.val() == ids@.len() && vl.val() == amounts@.len()),
    {
        self._do_burn(caller, from, ids, amounts)
    }

    /// Whether the base ledger claims an interface identifier: exactly
    /// its own and the introspection interface.
    pub open spec fn spec_supports_interface(interface_id: u32) -> bool {
        interface_id == ERC6909_INTERFACE_ID || interface_id == ERC165_INTERFACE_ID
    }

    /// Runtime interface introspection for the base ledger.
    pub fn supports_interface(&self, interface_id: u32) -> (r: bool)
        ensures
            r == Erc6909::spec_supports_interface(interface_id),
    {
        interface_id == ERC6909_INTERFACE_ID || interface_id == ERC165_INTERFACE_ID
    }

    /// The 4-byte identifier of the base multi-token interface.
    pub fn interface_id() -> (r: u32)
        ensures
            r == ERC6909_INTERFACE_ID,
    {
        ERC6909_INTERFACE_ID
    }

    /// The 4-byte identifier of the introspection interface.
    pub fn erc165_interface_id() -> (r: u32)
        ensures
            r == ERC165_INTERFACE_ID,
    {
        ERC165_INTERFACE_ID
    }
}

} // verus!
