use amm_ledger::math::isqrt_u128;
use amm_ledger::rent::default_rent_minimum;
use amm_ledger::rent::mint_slot_rent_minimum;
use amm_ledger::rent::MAX_RENT_DATA_LEN;
use amm_ledger::rent::MINT_SLOT_LEN;
use amm_ledger::rent::TOKEN_ACCOUNT_SLOT_LEN;

#[test]
fn rent_minimum_matches_the_default_rate() {
    // (128 + 82) * 6960 for a mint-sized slot.
    assert_eq!(mint_slot_rent_minimum(), 1_461_600);
    assert_eq!(default_rent_minimum(MINT_SLOT_LEN), Some(1_461_600));
    // (128 + 165) * 6960 for a token-account-sized slot.
    assert_eq!(default_rent_minimum(TOKEN_ACCOUNT_SLOT_LEN), Some(2_039_280));
    // An empty record still pays for the fixed overhead.
    assert_eq!(default_rent_minimum(0), Some(890_880));
}

#[test]
fn rent_minimum_refuses_oversized_records() {
    assert_eq!(default_rent_minimum(MAX_RENT_DATA_LEN + 1), None);
    assert!(default_rent_minimum(MAX_RENT_DATA_LEN).is_some());
}

#[test]
fn isqrt_rounds_down_at_every_boundary() {
    assert_eq!(isqrt_u128(0), 0);
    assert_eq!(isqrt_u128(1), 1);
    assert_eq!(isqrt_u128(3), 1);
    assert_eq!(isqrt_u128(4), 2);
    assert_eq!(isqrt_u128(4_000_000), 2000);
    assert_eq!(isqrt_u128(4_000_001), 2000);
    assert_eq!(isqrt_u128(3_999_999), 1999);
    assert_eq!(isqrt_u128(u128::MAX), u64::MAX);
    let exact = (u64::MAX as u128) * (u64::MAX as u128);
    assert_eq!(isqrt_u128(exact), u64::MAX);
    assert_eq!(isqrt_u128(exact - 1), u64::MAX - 1);
}
