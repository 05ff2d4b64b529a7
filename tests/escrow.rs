use aleph_xtf::{calculate_selector, AccountId, Escrow, EscrowError, RemoteCall, TokenCall};

fn admin() -> AccountId {
    AccountId([1u8; 32])
}

fn stranger() -> AccountId {
    AccountId([2u8; 32])
}

fn escrow_account() -> AccountId {
    AccountId([9u8; 32])
}

fn token_a() -> AccountId {
    AccountId([10u8; 32])
}

fn token_b() -> AccountId {
    AccountId([11u8; 32])
}

fn is_transfer_from(call: &RemoteCall, token: AccountId, from: AccountId, to: AccountId, value: u128) -> bool {
    call.token == token
        && matches!(call.call, TokenCall::TransferFrom { from: f, to: t, value: v }
            if f == from && t == to && v == value)
}

fn is_transfer(call: &RemoteCall, token: AccountId, to: AccountId, value: u128) -> bool {
    call.token == token
        && matches!(call.call, TokenCall::Transfer { to: t, value: v } if t == to && v == value)
}

#[test]
fn escrow_deposit_withdraw_sequence() {
    let mut escrow = Escrow::new(admin(), vec![token_a()]);
    assert!(escrow.deposit(admin(), escrow_account(), token_a(), 50).is_ok());
    assert_eq!(escrow.get_balance(token_a()), 50);
    assert!(escrow.withdraw(admin(), token_a(), 30).is_ok());
    assert_eq!(escrow.get_balance(token_a()), 20);
    assert_eq!(
        escrow.withdraw(admin(), token_a(), 30).unwrap_err(),
        EscrowError::InsufficientBalance
    );
    assert_eq!(escrow.get_balance(token_a()), 20);
}

#[test]
fn escrow_deposit_adds_exactly_the_amount() {
    let mut escrow = Escrow::new(admin(), vec![token_a(), token_b()]);
    let call = escrow.deposit(stranger(), escrow_account(), token_b(), 7).unwrap();
    assert!(is_transfer_from(&call, token_b(), stranger(), escrow_account(), 7));
    assert_eq!(call.selector(), calculate_selector("transfer_from"));
    assert!(escrow.deposit(stranger(), escrow_account(), token_b(), 5).is_ok());
    assert_eq!(escrow.get_balance(token_b()), 12);
    assert!(escrow.deposit(stranger(), escrow_account(), token_b(), 0).is_ok());
    assert_eq!(escrow.get_balance(token_b()), 12);
    assert_eq!(escrow.get_balance(token_a()), 0);
}

#[test]
fn escrow_deposit_unsupported_token() {
    let mut escrow = Escrow::new(admin(), vec![token_a()]);
    assert!(escrow.deposit(admin(), escrow_account(), token_a(), 3).is_ok());
    assert_eq!(
        escrow.deposit(admin(), escrow_account(), token_b(), 3).unwrap_err(),
        EscrowError::UnsupportedToken
    );
    assert_eq!(escrow.get_balance(token_b()), 0);
    assert_eq!(escrow.get_balance(token_a()), 3);
}

#[test]
fn escrow_deposit_overflow() {
    let mut escrow = Escrow::new(admin(), vec![token_a()]);
    assert!(escrow.deposit(admin(), escrow_account(), token_a(), u128::MAX).is_ok());
    assert_eq!(escrow.deposit(admin(), escrow_account(), token_a(), 1).unwrap_err(), EscrowError::Overflow);
    assert_eq!(escrow.get_balance(token_a()), u128::MAX);
}

#[test]
fn escrow_withdraw_by_non_admin_fails() {
    let mut escrow = Escrow::new(admin(), vec![token_a()]);
    assert!(escrow.deposit(admin(), escrow_account(), token_a(), 50).is_ok());
    assert_eq!(
        escrow.withdraw(stranger(), token_a(), 10).unwrap_err(),
        EscrowError::TransferFailed
    );
    assert_eq!(escrow.get_balance(token_a()), 50);
    assert_eq!(
        escrow.withdraw(admin(), token_b(), 10).unwrap_err(),
        EscrowError::UnsupportedToken
    );
    let call = escrow.withdraw(admin(), token_a(), 10).unwrap();
    assert!(is_transfer(&call, token_a(), admin(), 10));
}

#[test]
fn escrow_withdraw_all_sweeps() {
    let mut escrow = Escrow::new(admin(), vec![token_a(), token_b(), token_a()]);
    assert!(escrow.deposit(admin(), escrow_account(), token_a(), 4).is_ok());
    assert_eq!(escrow.withdraw_all(stranger()).unwrap_err(), EscrowError::TransferFailed);
    assert_eq!(escrow.get_balance(token_a()), 4);
    let calls = escrow.withdraw_all(admin()).unwrap();
    assert_eq!(calls.len(), 1);
    assert!(is_transfer(&calls[0], token_a(), admin(), 4));
    assert_eq!(escrow.get_balance(token_a()), 0);
    assert_eq!(escrow.get_balance(token_b()), 0);
    assert_eq!(escrow.withdraw_all(admin()).unwrap().len(), 0);
}

#[test]
fn escrow_admin_handover() {
    let mut escrow = Escrow::new(admin(), vec![token_a()]);
    assert_eq!(escrow.get_tokens(), vec![token_a()]);
    escrow.set_admin(stranger(), stranger());
    assert_eq!(escrow.get_admin(), admin());
    escrow.set_admin(admin(), stranger());
    assert_eq!(escrow.get_admin(), stranger());
}
