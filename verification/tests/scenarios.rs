//! End-to-end scenarios over the extended ledger: mint, transfer,
//! approve, operator flows, batch events, and the round-trip behavior of
//! burning and minting the same amount.

use erc6909::address::Address;
use erc6909::error::Error;
use erc6909::event::Event;
use erc6909::supply::Erc6909Supply;
use erc6909::u256::U256;

fn alice() -> Address {
    Address::new(0, 1)
}

fn bob() -> Address {
    Address::new(0, 2)
}

fn charlie() -> Address {
    Address::new(0, 3)
}

fn id(x: u128) -> U256 {
    U256::from_u128(x)
}

fn amt(x: u128) -> U256 {
    U256::from_u128(x)
}

fn minted(owner: Address, amount: u128) -> Erc6909Supply {
    let mut contract = Erc6909Supply::new();
    contract
        ._mint(owner, owner, id(1), amt(amount))
        .expect("should mint");
    contract
}

#[test]
fn mint_then_balance() {
    let contract = minted(alice(), 1000);
    assert_eq!(contract.balance_of(alice(), id(1)), amt(1000));
    assert_eq!(contract.total_supply(id(1)), amt(1000));
    assert_eq!(
        contract.erc6909.events[0],
        Event::TransferSingle {
            caller: alice(),
            from: Address::zero(),
            to: alice(),
            id: id(1),
            amount: amt(1000),
        }
    );
}

#[test]
fn transfer_keeps_supply() {
    let mut contract = minted(alice(), 1000);
    contract
        .transfer(alice(), bob(), id(1), amt(500))
        .expect("should transfer");
    assert_eq!(contract.balance_of(alice(), id(1)), amt(500));
    assert_eq!(contract.balance_of(bob(), id(1)), amt(500));
    assert_eq!(contract.total_supply(id(1)), amt(1000));
}

#[test]
fn approve_then_transfer_from() {
    let mut contract = minted(alice(), 1000);
    contract
        .approve(alice(), bob(), id(1), amt(500))
        .expect("should approve");
    contract
        .transfer_from(bob(), alice(), charlie(), id(1), amt(500))
        .expect("should transfer on the allowance");
    assert_eq!(contract.balance_of(alice(), id(1)), amt(500));
    assert_eq!(contract.balance_of(charlie(), id(1)), amt(500));
    assert_eq!(contract.allowance(alice(), bob(), id(1)), U256::zero());
}

#[test]
fn partial_approve() {
    let mut contract = minted(alice(), 1000);
    contract
        .approve(alice(), bob(), id(1), amt(300))
        .expect("should approve");
    contract
        .transfer_from(bob(), alice(), charlie(), id(1), amt(200))
        .expect("should transfer part of the allowance");
    assert_eq!(contract.balance_of(alice(), id(1)), amt(800));
    assert_eq!(contract.balance_of(charlie(), id(1)), amt(200));
    assert_eq!(contract.allowance(alice(), bob(), id(1)), amt(100));
}

#[test]
fn operator_bypasses_allowance() {
    let mut contract = minted(alice(), 1000);
    contract
        .set_operator(alice(), bob(), true)
        .expect("should set the operator flag");
    contract
        .transfer_from(bob(), alice(), charlie(), id(1), amt(100))
        .expect("an operator spends without an allowance");
    assert_eq!(contract.balance_of(charlie(), id(1)), amt(100));
    assert_eq!(contract.allowance(alice(), bob(), id(1)), U256::zero());
}

#[test]
fn operator_leaves_allowance_unread() {
    let mut contract = minted(alice(), 1000);
    contract
        .approve(alice(), bob(), id(1), amt(77))
        .expect("should approve");
    contract
        .set_operator(alice(), bob(), true)
        .expect("should set the operator flag");
    contract
        .transfer_from(bob(), alice(), charlie(), id(1), amt(100))
        .expect("an operator spends without an allowance");
    assert_eq!(contract.allowance(alice(), bob(), id(1)), amt(77));
}

#[test]
fn transfer_full_balance_leaves_zero() {
    let mut contract = minted(alice(), 1000);
    contract
        .transfer(alice(), bob(), id(1), amt(1000))
        .expect("should transfer everything");
    assert_eq!(contract.balance_of(alice(), id(1)), U256::zero());
    assert_eq!(contract.balance_of(bob(), id(1)), amt(1000));
}

#[test]
fn spending_whole_allowance_zeroes_it() {
    let mut contract = minted(alice(), 1000);
    contract
        .approve(alice(), bob(), id(1), amt(250))
        .expect("should approve");
    contract
        .transfer_from(bob(), alice(), charlie(), id(1), amt(250))
        .expect("spending the whole allowance succeeds");
    assert_eq!(contract.allowance(alice(), bob(), id(1)), U256::zero());
}

#[test]
fn burn_then_mint_restores_state() {
    let mut contract = minted(alice(), 1000);
    contract
        .approve(alice(), bob(), id(1), amt(77))
        .expect("should approve");
    contract
        .set_operator(alice(), charlie(), true)
        .expect("should set the operator flag");

    contract
        ._burn(alice(), alice(), id(1), amt(400))
        .expect("should burn");
    contract
        ._mint(alice(), alice(), id(1), amt(400))
        .expect("should mint the amount back");

    assert_eq!(contract.balance_of(alice(), id(1)), amt(1000));
    assert_eq!(contract.total_supply(id(1)), amt(1000));
    assert_eq!(contract.allowance(alice(), bob(), id(1)), amt(77));
    assert!(contract.is_operator(alice(), charlie()));
}

#[test]
fn batch_operations_emit_batch_events() {
    let mut contract = Erc6909Supply::new();
    let ids = vec![id(0), id(1), id(2), id(3)];
    let amounts = vec![amt(1), amt(2), amt(3), amt(4)];

    contract
        ._mint_batch(alice(), bob(), ids.clone(), amounts.clone())
        .expect("should mint the batch");
    contract
        ._burn_batch(alice(), bob(), ids.clone(), amounts.clone())
        .expect("should burn the batch");

    assert_eq!(contract.erc6909.events.len(), 2);
    assert_eq!(
        contract.erc6909.events[0],
        Event::TransferBatch {
            caller: alice(),
            from: Address::zero(),
            to: bob(),
            ids: ids.clone(),
            amounts: amounts.clone(),
        }
    );
    assert_eq!(
        contract.erc6909.events[1],
        Event::TransferBatch {
            caller: alice(),
            from: bob(),
            to: Address::zero(),
            ids,
            amounts,
        }
    );
}

#[test]
fn single_element_batch_emits_single_event() {
    let mut contract = Erc6909Supply::new();
    contract
        ._mint_batch(alice(), bob(), vec![id(5)], vec![amt(9)])
        .expect("should mint the batch of one");
    assert_eq!(
        contract.erc6909.events[0],
        Event::TransferSingle {
            caller: alice(),
            from: Address::zero(),
            to: bob(),
            id: id(5),
            amount: amt(9),
        }
    );
}

#[test]
fn mismatched_batch_fails_before_any_mutation() {
    let mut contract = minted(alice(), 1000);

    let err = contract
        ._mint_batch(alice(), bob(), vec![id(1), id(2)], vec![amt(5)])
        .expect_err("mismatched lengths must be rejected");
    assert!(matches!(
        err,
        Error::InvalidArrayLength { ids_length, values_length }
            if ids_length == amt(2) && values_length == amt(1)
    ));

    let err = contract
        ._burn_batch(alice(), alice(), vec![id(1)], vec![amt(5), amt(6)])
        .expect_err("mismatched lengths must be rejected");
    assert!(matches!(
        err,
        Error::InvalidArrayLength { ids_length, values_length }
            if ids_length == amt(1) && values_length == amt(2)
    ));

    assert_eq!(contract.balance_of(alice(), id(1)), amt(1000));
    assert_eq!(contract.balance_of(bob(), id(1)), U256::zero());
    assert_eq!(contract.total_supply(id(1)), amt(1000));
    assert_eq!(contract.erc6909.events.len(), 1);
}

#[test]
fn failing_batch_leg_rolls_everything_back() {
    let mut contract = Erc6909Supply::new();
    contract
        ._mint_batch(alice(), bob(), vec![id(0), id(1)], vec![amt(10), amt(20)])
        .expect("should mint the batch");

    let err = contract
        ._burn_batch(alice(), bob(), vec![id(0), id(1)], vec![amt(10), amt(21)])
        .expect_err("the second leg exceeds the balance");
    assert!(matches!(
        err,
        Error::InsufficientBalance { sender, balance, needed, id: eid }
            if sender == bob() && balance == amt(20) && needed == amt(21) && eid == id(1)
    ));

    assert_eq!(contract.balance_of(bob(), id(0)), amt(10));
    assert_eq!(contract.balance_of(bob(), id(1)), amt(20));
    assert_eq!(contract.total_supply(id(0)), amt(10));
    assert_eq!(contract.total_supply(id(1)), amt(20));
}

#[test]
fn all_ones_interface_is_rejected_everywhere() {
    let base = erc6909::erc6909::Erc6909::new();
    let extended = Erc6909Supply::new();
    assert!(!base.supports_interface(0xffffffff));
    assert!(!extended.supports_interface(0xffffffff));
}

#[test]
fn duplicate_ids_in_a_batch_accumulate() {
    let mut contract = Erc6909Supply::new();
    contract
        ._mint_batch(alice(), bob(), vec![id(7), id(7)], vec![amt(5), amt(6)])
        .expect("should mint both legs");
    assert_eq!(contract.balance_of(bob(), id(7)), amt(11));
    assert_eq!(contract.total_supply(id(7)), amt(11));
}
