use amm_ledger::errors::AmmError;
use amm_ledger::ledger::Ledger;

const RENT_OK: u64 = 2_000_000;
const RENT_MIN: u64 = 1_461_600;

fn ledger_with_mint() -> (Ledger, usize) {
    let mut ledger = Ledger::new();
    let mint = ledger.add_mint_slot();
    ledger
        .initialize_mint(mint, 6, Some(7), RENT_OK, RENT_MIN)
        .unwrap();
    (ledger, mint)
}

#[test]
fn initialize_mint_on_empty_slot_succeeds_with_zero_supply() {
    let mut ledger = Ledger::new();
    let slot = ledger.add_mint_slot();
    let r = ledger.initialize_mint(slot, 6, Some(11), RENT_OK, RENT_MIN);
    assert_eq!(r, Ok(()));
    assert!(ledger.mints[slot].initialized);
    assert_eq!(ledger.mints[slot].decimals, 6);
    assert_eq!(ledger.mints[slot].authority, Some(11));
    assert_eq!(ledger.mints[slot].supply, 0);
}

#[test]
fn initialize_mint_twice_fails_already_initialized() {
    let (mut ledger, mint) = ledger_with_mint();
    let r = ledger.initialize_mint(mint, 9, None, RENT_OK, RENT_MIN);
    assert_eq!(r, Err(AmmError::AlreadyInitialized));
    assert_eq!(ledger.mints[mint].decimals, 6);
}

#[test]
fn initialize_mint_below_rent_minimum_fails_not_rent_exempt() {
    let mut ledger = Ledger::new();
    let slot = ledger.add_mint_slot();
    let r = ledger.initialize_mint(slot, 6, None, RENT_MIN - 1, RENT_MIN);
    assert_eq!(r, Err(AmmError::NotRentExempt));
    assert!(!ledger.mints[slot].initialized);
}

#[test]
fn initialize_account_binds_mint_owner_and_zero_balance() {
    let (mut ledger, mint) = ledger_with_mint();
    let slot = ledger.add_account_slot();
    let r = ledger.initialize_account(slot, mint, 42);
    assert_eq!(r, Ok(()));
    assert!(ledger.accounts[slot].initialized);
    assert_eq!(ledger.accounts[slot].mint, mint);
    assert_eq!(ledger.accounts[slot].owner, 42);
    assert_eq!(ledger.accounts[slot].balance, 0);
}

#[test]
fn initialize_account_twice_fails_already_initialized() {
    let (mut ledger, mint) = ledger_with_mint();
    let slot = ledger.add_account_slot();
    ledger.initialize_account(slot, mint, 42).unwrap();
    assert_eq!(
        ledger.initialize_account(slot, mint, 43),
        Err(AmmError::AlreadyInitialized)
    );
    assert_eq!(ledger.accounts[slot].owner, 42);
}

#[test]
fn initialize_account_on_uninitialized_mint_fails_invalid_mint() {
    let mut ledger = Ledger::new();
    let mint = ledger.add_mint_slot();
    let slot = ledger.add_account_slot();
    assert_eq!(
        ledger.initialize_account(slot, mint, 42),
        Err(AmmError::InvalidMint)
    );
    assert_eq!(
        ledger.initialize_account(slot, mint + 9, 42),
        Err(AmmError::InvalidMint)
    );
}

#[test]
fn transfer_with_insufficient_balance_fails_and_changes_nothing() {
    let (mut ledger, mint) = ledger_with_mint();
    let source = ledger.add_account_slot();
    let destination = ledger.add_account_slot();
    ledger.initialize_account(source, mint, 1).unwrap();
    ledger.initialize_account(destination, mint, 2).unwrap();
    ledger.mint_to(source, mint, 50).unwrap();
    let r = ledger.transfer(source, destination, 100, 1);
    assert_eq!(r, Err(AmmError::InsufficientFunds));
    assert_eq!(ledger.accounts[source].balance, 50);
    assert_eq!(ledger.accounts[destination].balance, 0);
    assert_eq!(ledger.mints[mint].supply, 50);
}

#[test]
fn transfer_moves_balance_and_conserves_supply() {
    let (mut ledger, mint) = ledger_with_mint();
    let source = ledger.add_account_slot();
    let destination = ledger.add_account_slot();
    ledger.initialize_account(source, mint, 1).unwrap();
    ledger.initialize_account(destination, mint, 2).unwrap();
    ledger.mint_to(source, mint, 500).unwrap();
    let r = ledger.transfer(source, destination, 120, 1);
    assert_eq!(r, Ok(()));
    assert_eq!(ledger.accounts[source].balance, 380);
    assert_eq!(ledger.accounts[destination].balance, 120);
    assert_eq!(ledger.mints[mint].supply, 500);
}

#[test]
fn transfer_from_uninitialized_account_fails() {
    let (mut ledger, mint) = ledger_with_mint();
    let source = ledger.add_account_slot();
    let destination = ledger.add_account_slot();
    ledger.initialize_account(destination, mint, 2).unwrap();
    assert_eq!(
        ledger.transfer(source, destination, 1, 1),
        Err(AmmError::UninitializedAccount)
    );
}

#[test]
fn transfer_across_mints_fails_mint_mismatch() {
    let (mut ledger, mint_a) = ledger_with_mint();
    let mint_b = ledger.add_mint_slot();
    ledger
        .initialize_mint(mint_b, 0, None, RENT_OK, RENT_MIN)
        .unwrap();
    let source = ledger.add_account_slot();
    let destination = ledger.add_account_slot();
    ledger.initialize_account(source, mint_a, 1).unwrap();
    ledger.initialize_account(destination, mint_b, 2).unwrap();
    ledger.mint_to(source, mint_a, 10).unwrap();
    assert_eq!(
        ledger.transfer(source, destination, 1, 1),
        Err(AmmError::MintMismatch)
    );
}

#[test]
fn transfer_by_non_owner_fails_unauthorized() {
    let (mut ledger, mint) = ledger_with_mint();
    let source = ledger.add_account_slot();
    let destination = ledger.add_account_slot();
    ledger.initialize_account(source, mint, 1).unwrap();
    ledger.initialize_account(destination, mint, 2).unwrap();
    ledger.mint_to(source, mint, 10).unwrap();
    assert_eq!(
        ledger.transfer(source, destination, 1, 2),
        Err(AmmError::Unauthorized)
    );
    assert_eq!(ledger.accounts[source].balance, 10);
}

#[test]
fn transfer_at_the_supply_ceiling_does_not_wrap() {
    // Conservation keeps source + destination within the supply, so even a
    // transfer that fills the destination to the full 64-bit range is exact.
    let (mut ledger, mint) = ledger_with_mint();
    let source = ledger.add_account_slot();
    let destination = ledger.add_account_slot();
    ledger.initialize_account(source, mint, 1).unwrap();
    ledger.initialize_account(destination, mint, 2).unwrap();
    ledger.mint_to(source, mint, u64::MAX - 10).unwrap();
    ledger.transfer(source, destination, u64::MAX - 10, 1).unwrap();
    ledger.mint_to(source, mint, 10).unwrap();
    assert_eq!(
        ledger.transfer(source, destination, 11, 1),
        Err(AmmError::InsufficientFunds)
    );
    assert_eq!(ledger.transfer(source, destination, 10, 1), Ok(()));
    assert_eq!(ledger.accounts[source].balance, 0);
    assert_eq!(ledger.accounts[destination].balance, u64::MAX);
    assert_eq!(ledger.mints[mint].supply, u64::MAX);
}

#[test]
fn mint_to_overflowing_supply_fails_arithmetic_overflow() {
    let (mut ledger, mint) = ledger_with_mint();
    let slot = ledger.add_account_slot();
    ledger.initialize_account(slot, mint, 1).unwrap();
    ledger.mint_to(slot, mint, u64::MAX).unwrap();
    assert_eq!(
        ledger.mint_to(slot, mint, 1),
        Err(AmmError::ArithmeticOverflow)
    );
    assert_eq!(ledger.mints[mint].supply, u64::MAX);
}

#[test]
fn burn_from_lowers_balance_and_supply_together() {
    let (mut ledger, mint) = ledger_with_mint();
    let slot = ledger.add_account_slot();
    ledger.initialize_account(slot, mint, 1).unwrap();
    ledger.mint_to(slot, mint, 300).unwrap();
    assert_eq!(ledger.burn_from(slot, mint, 120), Ok(()));
    assert_eq!(ledger.accounts[slot].balance, 180);
    assert_eq!(ledger.mints[mint].supply, 180);
    assert_eq!(
        ledger.burn_from(slot, mint, 181),
        Err(AmmError::InsufficientFunds)
    );
}

#[test]
fn transfer_to_the_same_account_leaves_the_balance_unchanged() {
    let (mut ledger, mint) = ledger_with_mint();
    let slot = ledger.add_account_slot();
    ledger.initialize_account(slot, mint, 1).unwrap();
    ledger.mint_to(slot, mint, 70).unwrap();
    assert_eq!(ledger.transfer(slot, slot, 50, 1), Ok(()));
    assert_eq!(ledger.accounts[slot].balance, 70);
    assert_eq!(
        ledger.transfer(slot, slot, 71, 1),
        Err(AmmError::InsufficientFunds)
    );
}

#[test]
fn supply_equals_sum_of_balances_after_many_operations() {
    let (mut ledger, mint) = ledger_with_mint();
    let a = ledger.add_account_slot();
    let b = ledger.add_account_slot();
    let c = ledger.add_account_slot();
    ledger.initialize_account(a, mint, 1).unwrap();
    ledger.initialize_account(b, mint, 2).unwrap();
    ledger.initialize_account(c, mint, 3).unwrap();
    ledger.mint_to(a, mint, 1000).unwrap();
    ledger.transfer(a, b, 250, 1).unwrap();
    ledger.transfer(b, c, 100, 2).unwrap();
    ledger.burn_from(c, mint, 40).unwrap();
    ledger.mint_to(b, mint, 5).unwrap();
    let sum = ledger.accounts[a].balance + ledger.accounts[b].balance + ledger.accounts[c].balance;
    assert_eq!(ledger.mints[mint].supply, sum);
    assert_eq!(sum, 965);
}
