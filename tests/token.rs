use token_todo::account::AccountId;
use token_todo::token::{Error, Token, MAX_BALANCE};

fn alice() -> AccountId {
    AccountId::new([1u8; 32])
}

fn bob() -> AccountId {
    AccountId::new([2u8; 32])
}

fn charlie() -> AccountId {
    AccountId::new([3u8; 32])
}

#[test]
fn lib_default_works() {
    let token = Token::default();
    assert_eq!(token.balance_of(alice()), 0);
}

#[test]
fn mint_works() {
    let mut token = Token::new();
    assert!(token.mint(alice(), 100).is_ok());
    assert_eq!(token.balance_of(alice()), 100);
    assert!(token.mint(alice(), 50).is_ok());
    assert_eq!(token.balance_of(alice()), 150);
}

#[test]
fn lib_transfer_works() {
    let mut token = Token::new();
    assert!(token.mint(alice(), 100).is_ok());
    assert_eq!(token.balance_of(alice()), 100);
    assert_eq!(token.balance_of(bob()), 0);
    let result = token.transfer(alice(), bob(), 30);
    assert!(result.is_ok());
    assert_eq!(token.balance_of(alice()), 70);
    assert_eq!(token.balance_of(bob()), 30);
}

#[test]
fn transfer_insufficient_balance() {
    let mut token = Token::new();
    let result = token.transfer(alice(), bob(), 100);
    assert!(result.is_err());
    assert_eq!(result.unwrap_err(), Error::InsufficientBalance);
    assert_eq!(token.balance_of(alice()), 0);
    assert_eq!(token.balance_of(bob()), 0);
}

#[test]
fn mint_and_balance_works() {
    let mut token = Token::new();
    assert!(token.mint(alice(), 100).is_ok());
    assert_eq!(token.balance_of(alice()), 100);
}

#[test]
fn transfer_works() {
    let mut token = Token::new();
    assert!(token.mint(alice(), 100).is_ok());
    assert!(token.transfer(alice(), bob(), 30).is_ok());
    assert_eq!(token.balance_of(alice()), 70);
    assert_eq!(token.balance_of(bob()), 30);
}

#[test]
fn mint_zero_changes_nothing() {
    let mut token = Token::new();
    assert!(token.mint(alice(), 0).is_ok());
    assert_eq!(token.balance_of(alice()), 0);
    assert_eq!(token.balance_of(bob()), 0);
}

#[test]
fn mint_overflow_is_refused() {
    let mut token = Token::new();
    assert!(token.mint(alice(), MAX_BALANCE).is_ok());
    assert_eq!(token.balance_of(alice()), u128::MAX);
    assert_eq!(token.mint(alice(), 1), Err(Error::Overflow));
    assert_eq!(token.balance_of(alice()), u128::MAX);
    assert!(token.mint(alice(), 0).is_ok());
}

#[test]
fn transfer_overflow_is_refused() {
    let mut token = Token::new();
    assert!(token.mint(alice(), 10).is_ok());
    assert!(token.mint(bob(), u128::MAX - 5).is_ok());
    assert_eq!(token.transfer(alice(), bob(), 6), Err(Error::Overflow));
    assert_eq!(token.balance_of(alice()), 10);
    assert_eq!(token.balance_of(bob()), u128::MAX - 5);
    assert!(token.transfer(alice(), bob(), 5).is_ok());
    assert_eq!(token.balance_of(alice()), 5);
    assert_eq!(token.balance_of(bob()), u128::MAX);
}

#[test]
fn insufficient_balance_leaves_both_accounts() {
    let mut token = Token::new();
    assert!(token.mint(alice(), 40).is_ok());
    assert!(token.mint(bob(), 7).is_ok());
    assert_eq!(token.transfer(alice(), bob(), 41), Err(Error::InsufficientBalance));
    assert_eq!(token.balance_of(alice()), 40);
    assert_eq!(token.balance_of(bob()), 7);
}

#[test]
fn self_transfer_keeps_balance() {
    let mut token = Token::new();
    assert!(token.mint(alice(), 100).is_ok());
    assert!(token.transfer(alice(), alice(), 60).is_ok());
    assert_eq!(token.balance_of(alice()), 100);
    assert!(token.transfer(alice(), alice(), 100).is_ok());
    assert_eq!(token.balance_of(alice()), 100);
    assert_eq!(token.transfer(alice(), alice(), 101), Err(Error::InsufficientBalance));
    assert_eq!(token.balance_of(alice()), 100);
}

#[test]
fn self_transfer_still_checks_overflow() {
    let mut token = Token::new();
    assert!(token.mint(alice(), u128::MAX).is_ok());
    assert_eq!(token.transfer(alice(), alice(), 1), Err(Error::Overflow));
    assert_eq!(token.balance_of(alice()), u128::MAX);
}

#[test]
fn supply_equals_minted_total() {
    let mut token = Token::new();
    assert!(token.mint(alice(), 100).is_ok());
    assert!(token.mint(bob(), 25).is_ok());
    assert!(token.transfer(alice(), bob(), 30).is_ok());
    assert!(token.transfer(bob(), charlie(), 50).is_ok());
    assert!(token.mint(charlie(), 5).is_ok());
    assert!(token.transfer(charlie(), alice(), 55).is_ok());
    let total = token.balance_of(alice()) + token.balance_of(bob()) + token.balance_of(charlie());
    assert_eq!(total, 130);
    assert_eq!(token.balance_of(alice()), 125);
    assert_eq!(token.balance_of(bob()), 5);
    assert_eq!(token.balance_of(charlie()), 0);
}

#[test]
fn balance_read_twice_agrees() {
    let mut token = Token::new();
    assert!(token.mint(bob(), 9).is_ok());
    let first = token.balance_of(bob());
    let second = token.balance_of(bob());
    assert_eq!(first, second);
    assert_eq!(first, 9);
}

#[test]
fn account_identity_compares_bytes() {
    let mut bytes = [1u8; 32];
    assert!(alice().same_as(&AccountId::new(bytes)));
    bytes[31] = 9;
    assert!(!alice().same_as(&AccountId::new(bytes)));
    assert_eq!(AccountId::new(bytes).to_bytes(), bytes);
}

#[test]
fn default_trait_gives_empty_ledger() {
    let token: Token = Default::default();
    assert_eq!(token.balance_of(bob()), 0);
}
