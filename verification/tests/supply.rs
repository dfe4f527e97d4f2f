//! Tests of the supply extension: supply tracking across mints and
//! burns, batch operations, and interface introspection.

use erc6909::address::Address;
use erc6909::erc6909::Erc6909;
use erc6909::error::Error;
use erc6909::supply::Erc6909Supply;
use erc6909::u256::U256;

fn alice() -> Address {
    Address::new(0, 1)
}

fn bob() -> Address {
    Address::new(0, 2)
}

fn dave() -> Address {
    Address::new(0, 4)
}

fn token_ids(size: usize) -> Vec<U256> {
    let mut r: Vec<U256> = Vec::new();
    let mut t: usize = 0;
    while t < size {
        r.push(U256::from_usize(t));
        t += 1;
    }
    r
}

fn values(size: usize) -> Vec<U256> {
    let mut r: Vec<U256> = Vec::new();
    let mut t: usize = 1;
    while t <= size {
        r.push(U256::from_usize(t));
        t += 1;
    }
    r
}

fn init(contract: &mut Erc6909Supply, receiver: Address, size: usize) -> (Vec<U256>, Vec<U256>) {
    let ids = token_ids(size);
    let amounts = values(size);

    contract
        ._mint_batch(alice(), receiver, ids.clone(), amounts.clone())
        .expect("should mint");
    (ids, amounts)
}

#[test]
fn before_mint() {
    let contract = Erc6909Supply::new();
    let token_id = token_ids(1)[0];
    assert_eq!(U256::zero(), contract.total_supply(token_id));
}

#[test]
fn after_mint_single() {
    let mut contract = Erc6909Supply::new();
    let (ids, amounts) = init(&mut contract, bob(), 1);
    assert_eq!(amounts[0], contract.balance_of(bob(), ids[0]));
    assert_eq!(amounts[0], contract.total_supply(ids[0]));
}

#[test]
fn after_mint_batch() {
    let mut contract = Erc6909Supply::new();
    let (ids, amounts) = init(&mut contract, bob(), 4);
    for t in 0..ids.len() {
        assert_eq!(amounts[t], contract.balance_of(bob(), ids[t]));
        assert_eq!(amounts[t], contract.total_supply(ids[t]));
    }
}

#[test]
fn mint_reverts_on_invalid_receiver() {
    let mut contract = Erc6909Supply::new();
    let token_id = token_ids(1)[0];
    let two = U256::from_u128(2);
    let invalid_receiver = Address::zero();

    let err = contract
        ._mint(alice(), invalid_receiver, token_id, two)
        .expect_err("should revert with `InvalidReceiver`");

    assert!(matches!(
        err,
        Error::InvalidReceiver { receiver } if receiver == invalid_receiver
    ));
    assert_eq!(contract.total_supply(token_id), U256::zero());
}

#[test]
#[should_panic]
fn mint_panics_on_total_supply_overflow() {
    let mut contract = Erc6909Supply::new();
    let token_id = token_ids(1)[0];
    let three = U256::from_u128(3);
    let half_max = U256::new(u128::MAX / 2, u128::MAX);
    contract
        ._mint(alice(), bob(), token_id, half_max)
        .expect("should mint to bob");
    contract
        ._mint(alice(), dave(), token_id, half_max)
        .expect("should mint to dave");
    // This should panic.
    let _ = contract._mint(alice(), bob(), token_id, three);
}

#[test]
fn after_burn_single() {
    let mut contract = Erc6909Supply::new();
    let (ids, amounts) = init(&mut contract, bob(), 1);
    contract
        ._burn(alice(), bob(), ids[0], amounts[0])
        .expect("should burn");

    assert_eq!(U256::zero(), contract.total_supply(ids[0]));
}

#[test]
fn after_burn_batch() {
    let mut contract = Erc6909Supply::new();
    let (ids, amounts) = init(&mut contract, bob(), 4);
    contract
        ._burn_batch(alice(), bob(), ids.clone(), amounts.clone())
        .expect("should burn batch");

    for t in 0..ids.len() {
        assert_eq!(U256::zero(), contract.balance_of(bob(), ids[t]));
        assert_eq!(U256::zero(), contract.total_supply(ids[t]));
    }
}

#[test]
fn burn_reverts_when_invalid_sender() {
    let mut contract = Erc6909Supply::new();
    let (ids, amounts) = init(&mut contract, bob(), 1);
    let invalid_sender = Address::zero();

    let err = contract
        ._burn(alice(), invalid_sender, ids[0], amounts[0])
        .expect_err("should not burn token for invalid sender");

    assert!(matches!(
        err,
        Error::InvalidSender { sender } if sender == invalid_sender
    ));
}

#[test]
fn supply_interface_id() {
    let actual = Erc6909Supply::interface_id();
    let expected: u32 = 0xbd85b039;
    assert_eq!(actual, expected);
}

#[test]
fn supply_supports_interface() {
    let contract = Erc6909Supply::new();
    assert!(contract.supports_interface(Erc6909Supply::interface_id()));
    assert!(contract.supports_interface(Erc6909::erc165_interface_id()));
    assert!(contract.supports_interface(Erc6909::interface_id()));

    let fake_interface_id = 0x12345678u32;
    assert!(!contract.supports_interface(fake_interface_id));
}
