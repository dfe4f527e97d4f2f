//! Tests of the base ledger: single transfers, approvals, operators,
//! interface introspection.

use erc6909::address::Address;
use erc6909::erc6909::Erc6909;
use erc6909::error::Error;
use erc6909::event::Event;
use erc6909::u256::U256;

fn alice() -> Address {
    Address::new(0, 1)
}

fn bob() -> Address {
    Address::new(0, 2)
}

fn charlie() -> Address {
    Address::new(0, 3)
}

fn token_id() -> U256 {
    U256::from_u128(1)
}

fn amt(x: u128) -> U256 {
    U256::from_u128(x)
}

#[test]
fn mod_interface_id() {
    let actual = Erc6909::interface_id();
    let expected: u32 = 0x0f632fb3;
    assert_eq!(actual, expected);
}

#[test]
fn mod_supports_interface() {
    let contract = Erc6909::new();
    assert!(contract.supports_interface(Erc6909::interface_id()));
    assert!(contract.supports_interface(Erc6909::erc165_interface_id()));

    let fake_interface_id = 0x12345678u32;
    assert!(!contract.supports_interface(fake_interface_id));
}

#[test]
fn mint() {
    let mut contract = Erc6909::new();
    contract
        ._mint(alice(), alice(), token_id(), amt(1000))
        .expect("should mint a token to Alice");

    let alice_balance = contract.balance_of(alice(), token_id());

    assert_eq!(alice_balance, amt(1000));
}

#[test]
fn transfer() {
    let mut contract = Erc6909::new();
    contract
        ._mint(alice(), alice(), token_id(), amt(1000))
        .expect("should mint a token to Alice");

    contract
        .transfer(alice(), bob(), token_id(), amt(500))
        .expect("should transfer 500 tokens from Alice to Bob");

    let bob_balance = contract.balance_of(bob(), token_id());

    assert_eq!(bob_balance, amt(500));
}

#[test]
fn transfer_from() {
    let mut contract = Erc6909::new();
    contract
        ._mint(alice(), alice(), token_id(), amt(1000))
        .expect("should mint a token to Alice");

    contract
        .approve(alice(), bob(), token_id(), amt(500))
        .expect("Bob should be able to spend to 300 of Alice's tokens");

    contract
        .transfer_from(bob(), alice(), charlie(), token_id(), amt(500))
        .expect("should transfer 500 tokens from Alice to Bob");

    let charlie_balance = contract.balance_of(charlie(), token_id());

    assert_eq!(charlie_balance, amt(500));
}

#[test]
fn burn() {
    let mut contract = Erc6909::new();
    contract
        ._mint(alice(), alice(), token_id(), amt(1000))
        .expect("should mint a token to Alice");

    contract
        ._burn(alice(), alice(), token_id(), amt(700))
        .expect("should mint a token to Alice");

    let alice_balance = contract.balance_of(alice(), token_id());

    assert_eq!(alice_balance, amt(300));
}

#[test]
fn approve() {
    let mut contract = Erc6909::new();
    contract
        ._mint(alice(), alice(), token_id(), amt(1000))
        .expect("should mint a token to Alice");

    contract
        .approve(alice(), bob(), token_id(), amt(300))
        .expect("Bob should be able to spend to 300 of Alice's tokens");

    contract
        .transfer_from(bob(), alice(), charlie(), token_id(), amt(200))
        .expect("should transfer 200 tokens from Alice to Charlie");

    let alice_balance = contract.balance_of(alice(), token_id());
    let charlie_balance = contract.balance_of(charlie(), token_id());

    assert_eq!(alice_balance, amt(800));
    assert_eq!(charlie_balance, amt(200));
}

#[test]
fn set_operator() {
    let mut contract = Erc6909::new();
    contract
        ._mint(alice(), alice(), token_id(), amt(1000))
        .expect("should mint a token to Alice");

    contract
        .set_operator(alice(), bob(), true)
        .expect("Bob should become an operator of Alice's account'");

    contract
        .transfer_from(bob(), alice(), charlie(), token_id(), amt(100))
        .expect("should transfer 100 tokens from Alice to Charlie");

    let alice_balance = contract.balance_of(alice(), token_id());
    let charlie_balance = contract.balance_of(charlie(), token_id());

    assert_eq!(alice_balance, amt(900));
    assert_eq!(charlie_balance, amt(100));
}

#[test]
fn approve_is_absolute() {
    let mut contract = Erc6909::new();
    contract
        .approve(alice(), bob(), token_id(), amt(300))
        .expect("should approve 300");
    assert_eq!(contract.allowance(alice(), bob(), token_id()), amt(300));

    contract
        .approve(alice(), bob(), token_id(), amt(50))
        .expect("should approve 50");
    assert_eq!(contract.allowance(alice(), bob(), token_id()), amt(50));
}

#[test]
fn set_operator_toggles() {
    let mut contract = Erc6909::new();
    assert!(!contract.is_operator(alice(), bob()));

    contract
        .set_operator(alice(), bob(), true)
        .expect("should set the operator flag");
    assert!(contract.is_operator(alice(), bob()));

    contract
        .set_operator(alice(), bob(), false)
        .expect("should clear the operator flag");
    assert!(!contract.is_operator(alice(), bob()));
}

#[test]
fn transfer_leaves_authorizations_alone() {
    let mut contract = Erc6909::new();
    contract
        ._mint(alice(), alice(), token_id(), amt(1000))
        .expect("should mint a token to Alice");
    contract
        .approve(alice(), bob(), token_id(), amt(77))
        .expect("should approve 77");
    contract
        .set_operator(alice(), charlie(), true)
        .expect("should set the operator flag");

    contract
        .transfer(alice(), bob(), token_id(), amt(10))
        .expect("should transfer");
    contract
        ._burn(alice(), alice(), token_id(), amt(10))
        .expect("should burn");
    contract
        ._mint(alice(), alice(), token_id(), amt(10))
        .expect("should mint");

    assert_eq!(contract.allowance(alice(), bob(), token_id()), amt(77));
    assert!(contract.is_operator(alice(), charlie()));
}

#[test]
fn transfer_errors() {
    let mut contract = Erc6909::new();
    contract
        ._mint(alice(), alice(), token_id(), amt(100))
        .expect("should mint a token to Alice");

    let err = contract
        .transfer(Address::zero(), bob(), token_id(), amt(1))
        .expect_err("the null address cannot send");
    assert!(matches!(err, Error::InvalidSender { sender } if sender == Address::zero()));

    let err = contract
        .transfer(alice(), Address::zero(), token_id(), amt(1))
        .expect_err("the null address cannot receive");
    assert!(matches!(err, Error::InvalidReceiver { receiver } if receiver == Address::zero()));

    let err = contract
        .transfer(alice(), bob(), token_id(), amt(101))
        .expect_err("the balance is too small");
    assert!(matches!(
        err,
        Error::InsufficientBalance { sender, balance, needed, id }
            if sender == alice() && balance == amt(100) && needed == amt(101) && id == token_id()
    ));
    assert_eq!(contract.balance_of(alice(), token_id()), amt(100));
}

#[test]
fn approve_errors() {
    let mut contract = Erc6909::new();

    let err = contract
        .approve(Address::zero(), bob(), token_id(), amt(1))
        .expect_err("the null address cannot approve");
    assert!(matches!(err, Error::InvalidApprover { approver } if approver == Address::zero()));

    let err = contract
        .approve(alice(), Address::zero(), token_id(), amt(1))
        .expect_err("the null address cannot be approved");
    assert!(matches!(err, Error::InvalidSpender { spender } if spender == Address::zero()));
}

#[test]
fn insufficient_allowance_reports_current_allowance() {
    let mut contract = Erc6909::new();
    contract
        ._mint(alice(), alice(), token_id(), amt(1000))
        .expect("should mint a token to Alice");
    contract
        .approve(alice(), bob(), token_id(), amt(30))
        .expect("should approve 30");

    let err = contract
        .transfer_from(bob(), alice(), charlie(), token_id(), amt(40))
        .expect_err("the allowance is too small");
    assert!(matches!(
        err,
        Error::InsufficientAllowance { spender, allowance, needed, id }
            if spender == bob() && allowance == amt(30) && needed == amt(30) && id == token_id()
    ));
    assert_eq!(contract.allowance(alice(), bob(), token_id()), amt(30));
    assert_eq!(contract.balance_of(alice(), token_id()), amt(1000));
}

#[test]
fn self_transfer_from_needs_no_allowance() {
    let mut contract = Erc6909::new();
    contract
        ._mint(alice(), alice(), token_id(), amt(100))
        .expect("should mint a token to Alice");

    contract
        .transfer_from(alice(), alice(), bob(), token_id(), amt(40))
        .expect("the sender spends without an allowance");

    assert_eq!(contract.balance_of(alice(), token_id()), amt(60));
    assert_eq!(contract.balance_of(bob(), token_id()), amt(40));
}

#[test]
fn events_record_every_change() {
    let mut contract = Erc6909::new();
    contract
        ._mint(alice(), alice(), token_id(), amt(1000))
        .expect("should mint a token to Alice");
    contract
        .approve(alice(), bob(), token_id(), amt(300))
        .expect("should approve 300");
    contract
        .set_operator(alice(), bob(), true)
        .expect("should set the operator flag");
    contract
        .transfer(alice(), charlie(), token_id(), amt(100))
        .expect("should transfer 100");

    assert_eq!(contract.events.len(), 4);
    assert_eq!(
        contract.events[0],
        Event::TransferSingle {
            caller: alice(),
            from: Address::zero(),
            to: alice(),
            id: token_id(),
            amount: amt(1000),
        }
    );
    assert_eq!(
        contract.events[1],
        Event::Approval { owner: alice(), spender: bob(), id: token_id(), amount: amt(300) }
    );
    assert_eq!(
        contract.events[2],
        Event::OperatorSet { owner: alice(), spender: bob(), approved: true }
    );
    assert_eq!(
        contract.events[3],
        Event::TransferSingle {
            caller: alice(),
            from: alice(),
            to: charlie(),
            id: token_id(),
            amount: amt(100),
        }
    );
}

#[test]
fn failed_operations_emit_nothing() {
    let mut contract = Erc6909::new();
    let _ = contract.transfer(alice(), bob(), token_id(), amt(1));
    let _ = contract.approve(Address::zero(), bob(), token_id(), amt(1));
    assert_eq!(contract.events.len(), 0);
}

#[test]
fn zero_address_balance_is_zero() {
    let mut contract = Erc6909::new();
    contract
        ._mint(alice(), alice(), token_id(), amt(1000))
        .expect("should mint a token to Alice");
    contract
        ._burn(alice(), alice(), token_id(), amt(400))
        .expect("should burn 400");

    assert_eq!(contract.balance_of(Address::zero(), token_id()), U256::zero());
}
