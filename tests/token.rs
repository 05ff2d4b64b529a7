use aleph_xtf::aleph_xtf::Error as XtfError;
use aleph_xtf::fungible_token::Error;
use aleph_xtf::{AccountId, AlephXtf, FungibleToken};

fn alice() -> AccountId {
    AccountId([1u8; 32])
}

fn bob() -> AccountId {
    AccountId([2u8; 32])
}

#[test]
fn total_supply_works() {
    let mytoken = FungibleToken::new(alice(), 100);
    assert_eq!(mytoken.total_supply(), 100);
}

#[test]
fn balance_of_works() {
    let mytoken = FungibleToken::new(alice(), 100);
    assert_eq!(mytoken.balance_of(alice()), 100);
    assert_eq!(mytoken.balance_of(bob()), 0);
}

#[test]
fn transfer_works() {
    let total_supply = 100;
    let quantity_to_bob = 10;
    let mut mytoken = FungibleToken::new(alice(), total_supply);

    assert_eq!(mytoken.balance_of(bob()), 0);
    assert_eq!(
        mytoken.transfer(alice(), bob(), quantity_to_bob),
        Ok(total_supply - quantity_to_bob)
    );
    assert_eq!(mytoken.balance_of(bob()), quantity_to_bob);
}

#[test]
fn mint_to_works() {
    let total_supply = 100;
    let quantity_to_bob = 10;
    let mut mytoken = FungibleToken::new(alice(), total_supply);

    assert_eq!(mytoken.balance_of(bob()), 0);
    mytoken.mint_to(alice(), bob(), quantity_to_bob);
    assert_eq!(mytoken.balance_of(bob()), quantity_to_bob);
    assert_eq!(mytoken.total_supply(), total_supply + quantity_to_bob);
}

#[test]
fn lib_total_supply_works() {
    let mytoken = AlephXtf::new(alice(), 100);
    assert_eq!(mytoken.total_supply(), 100);
}

#[test]
fn lib_balance_of_works() {
    let mytoken = AlephXtf::new(alice(), 100);
    assert_eq!(mytoken.balance_of(alice()), 100);
    assert_eq!(mytoken.balance_of(bob()), 0);
}

#[test]
fn lib_transfer_works() {
    let total_supply = 100;
    let quantity_to_bob = 10;
    let mut mytoken = AlephXtf::new(alice(), total_supply);

    assert_eq!(mytoken.balance_of(bob()), 0);
    assert_eq!(
        mytoken.transfer(alice(), bob(), quantity_to_bob),
        Ok(total_supply - quantity_to_bob)
    );
    assert_eq!(mytoken.balance_of(bob()), quantity_to_bob);
}

#[test]
fn token_transfer_over_balance_fails_and_changes_nothing() {
    let mut mytoken = FungibleToken::new(alice(), 100);
    assert_eq!(mytoken.transfer(alice(), bob(), 101), Err(Error::InsufficientBalance));
    assert_eq!(mytoken.balance_of(alice()), 100);
    assert_eq!(mytoken.balance_of(bob()), 0);
    assert_eq!(mytoken.total_supply(), 100);
}

#[test]
fn token_transfer_from_any_sender() {
    let mut mytoken = FungibleToken::new(alice(), 100);
    assert_eq!(mytoken.transfer_from(alice(), bob(), 30), Ok(70));
    assert_eq!(mytoken.balance_of(bob()), 30);
    assert_eq!(mytoken.get_owner(), alice());
}

#[test]
fn token_self_transfer_keeps_balance() {
    let mut mytoken = AlephXtf::new(alice(), 100);
    assert_eq!(mytoken.transfer(alice(), alice(), 40), Ok(100));
    assert_eq!(mytoken.balance_of(alice()), 100);
    assert_eq!(mytoken.total_supply(), 100);
    assert_eq!(mytoken.get_owner(), alice());
}

#[test]
fn token_transfer_whole_supply_and_back() {
    let mut mytoken = AlephXtf::new(alice(), u128::MAX);
    assert_eq!(mytoken.transfer(alice(), bob(), u128::MAX), Ok(0));
    assert_eq!(mytoken.balance_of(bob()), u128::MAX);
    assert_eq!(mytoken.transfer(alice(), bob(), 1), Err(XtfError::InsufficientBalance));
    assert_eq!(mytoken.transfer(bob(), alice(), u128::MAX), Ok(0));
    assert_eq!(mytoken.balance_of(alice()), u128::MAX);
    assert_eq!(mytoken.total_supply(), u128::MAX);
}
