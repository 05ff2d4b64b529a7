use aleph_xtf::{calculate_selector, AccountId, ContractError, EtfEscrow, RemoteCall, TokenCall};

fn alice() -> AccountId {
    AccountId([1u8; 32])
}

fn bob() -> AccountId {
    AccountId([2u8; 32])
}

fn pool() -> AccountId {
    AccountId([9u8; 32])
}

fn token_x() -> AccountId {
    AccountId([20u8; 32])
}

fn token_y() -> AccountId {
    AccountId([21u8; 32])
}

fn is_transfer_from(call: &RemoteCall, token: AccountId, from: AccountId, to: AccountId, value: u128) -> bool {
    call.token == token
        && matches!(call.call, TokenCall::TransferFrom { from: f, to: t, value: v }
            if f == from && t == to && v == value)
}

#[test]
fn etf_open_with_insufficient_collateral_changes_nothing() {
    let mut etf = EtfEscrow::new(vec![token_x()], vec![40]);
    assert_eq!(
        etf.open_vault(alice(), pool(), alice(), 0).unwrap_err(),
        ContractError::InsufficientBalance
    );
    assert_eq!(etf.get_vaults_quantity(), 0);
    assert_eq!(etf.get_vault_owner(0), None);
    assert_eq!(etf.get_vaults_quantity_per_owner(alice()), 0);
    assert_eq!(etf.get_balance(alice()), 0);
    assert_eq!(etf.get_balance(token_x()), 0);
    assert_eq!(etf.total_supply(), 0);
}

#[test]
fn etf_open_locks_basket_and_mints_shares() {
    let mut etf = EtfEscrow::new(vec![token_x(), token_y()], vec![0, 0]);
    let (id, calls) = etf.open_vault(alice(), pool(), bob(), 7).unwrap();
    assert_eq!(id, 0);
    assert_eq!(etf.get_vaults_quantity(), 1);
    assert_eq!(etf.get_balance(alice()), 100);
    assert_eq!(etf.total_supply(), 100);
    assert_eq!(etf.get_vault_owner(0), Some(bob()));
    assert_eq!(etf.get_vaults_quantity_per_owner(bob()), 1);
    assert_eq!(etf.get_vaults_quantity_per_owner(alice()), 0);
    assert_eq!(calls.len(), 2);
    assert!(is_transfer_from(&calls[0], token_x(), alice(), pool(), 0));
    assert!(is_transfer_from(&calls[1], token_y(), alice(), pool(), 0));
    assert_eq!(calls[0].selector(), calculate_selector("transfer_from"));
    assert_eq!(etf.get_required_tokens(), vec![token_x(), token_y()]);
    assert_eq!(etf.get_required_balances(), vec![0, 0]);
}

#[test]
fn etf_collateral_accumulates_on_open() {
    // Shares sent to the token's own address count as its collateral record.
    let mut etf = EtfEscrow::new(vec![token_x()], vec![0]);
    assert!(etf.open_vault(alice(), pool(), alice(), 0).is_ok());
    assert_eq!(etf.transfer(alice(), token_x(), 40), Ok(60));
    assert_eq!(etf.get_balance(token_x()), 40);
    assert!(etf.open_vault(alice(), pool(), alice(), 5).is_ok());
    assert_eq!(etf.get_vaults_quantity(), 2);
    assert_eq!(etf.get_balance(alice()), 160);
    assert_eq!(etf.get_balance(token_x()), 40);
}

#[test]
fn etf_open_then_close_restores_balances() {
    let mut etf = EtfEscrow::new(vec![token_x()], vec![0]);
    let (id, _) = etf.open_vault(alice(), pool(), bob(), 0).unwrap();
    let calls = etf.close_vault(alice(), pool(), id).unwrap();
    assert_eq!(calls.len(), 1);
    assert!(is_transfer_from(&calls[0], token_x(), pool(), alice(), 0));
    assert_eq!(etf.get_balance(alice()), 0);
    assert_eq!(etf.get_balance(token_x()), 0);
    assert_eq!(etf.total_supply(), 0);
    assert_eq!(etf.get_vault_owner(id), None);
    assert_eq!(etf.get_vaults_quantity_per_owner(bob()), 0);
    assert_eq!(etf.get_vaults_quantity(), 1);
}

#[test]
fn etf_vault_counts_follow_opens_and_closes() {
    let mut etf = EtfEscrow::new(vec![], vec![]);
    assert_eq!(etf.open_vault(alice(), pool(), bob(), 0).unwrap().0, 0);
    assert_eq!(etf.open_vault(alice(), pool(), bob(), 1).unwrap().0, 1);
    assert_eq!(etf.open_vault(alice(), pool(), alice(), 2).unwrap().0, 2);
    assert_eq!(etf.get_vaults_quantity_per_owner(bob()), 2);
    assert_eq!(etf.get_vaults_quantity_per_owner(alice()), 1);
    assert!(etf.close_vault(alice(), pool(), 1).is_ok());
    assert_eq!(etf.get_vaults_quantity_per_owner(bob()), 1);
    assert_eq!(etf.get_vaults_quantity_per_owner(alice()), 1);
    assert_eq!(etf.get_balance(alice()), 200);
}

#[test]
fn etf_vault_errors() {
    let mut etf = EtfEscrow::new(vec![], vec![]);
    assert!(etf.open_vault(alice(), pool(), alice(), 0).is_ok());
    assert_eq!(
        etf.open_vault(alice(), pool(), alice(), 0).unwrap_err(),
        ContractError::VaultAlreadyExists
    );
    assert_eq!(etf.close_vault(alice(), pool(), 3).unwrap_err(), ContractError::VaultNotFound);
    assert_eq!(
        etf.close_vault(bob(), pool(), 0).unwrap_err(),
        ContractError::InsufficientBalance
    );
    assert_eq!(etf.get_vaults_quantity(), 1);
    assert_eq!(etf.get_balance(alice()), 100);
}

#[test]
fn etf_counter_overflow_is_refused() {
    let mut etf = EtfEscrow::new(vec![], vec![]);
    let mut i: u16 = 0;
    while i < 255 {
        assert_eq!(etf.open_vault(alice(), pool(), bob(), 255).unwrap().0 as u16, i);
        i += 1;
    }
    assert_eq!(etf.get_vaults_quantity(), 255);
    assert_eq!(etf.open_vault(alice(), pool(), bob(), 255).unwrap_err(), ContractError::Overflow);
}

#[test]
fn etf_share_transfer_conserves_supply() {
    let mut etf = EtfEscrow::new(vec![], vec![]);
    assert!(etf.open_vault(alice(), pool(), alice(), 0).is_ok());
    assert_eq!(etf.transfer(alice(), bob(), 101), Err(ContractError::InsufficientBalance));
    assert_eq!(etf.get_balance(alice()), 100);
    assert_eq!(etf.get_balance(bob()), 0);
    assert_eq!(etf.transfer_from(alice(), bob(), 30), Ok(70));
    assert_eq!(etf.balance_of(bob()), 30);
    assert_eq!(etf.transfer(alice(), alice(), 70), Ok(70));
    assert_eq!(etf.total_supply(), 100);
    assert_eq!(etf.get_owner(bob()), bob());
}
