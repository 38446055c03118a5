use vstd::prelude::*;

verus! {

/// Number of bytes a packed mint record occupies in its storage slot.
pub const MINT_SLOT_LEN: usize = 82;

/// Number of bytes a packed token-account record occupies in its storage slot.
pub const TOKEN_ACCOUNT_SLOT_LEN: usize = 165;

/// Largest record size the rent oracle accepts, ten mebibytes.
pub const MAX_RENT_DATA_LEN: usize = 10485760;

/// Relies on solana_program::rent::Rent: under the default configuration
/// (6960 lamports per byte, exemption threshold one) `minimum_balance`
/// returns `(128 + data_len) * 6960`, the 128 being the fixed per-record
/// storage overhead; on a `data_len` above the permitted ten mebibytes it
/// panics, so such lengths are excluded here.
#[verifier::external_body]
fn rent_minimum_balance(data_len: usize) -> (r: u64)
    requires
        data_len <= MAX_RENT_DATA_LEN,
    ensures
        r == (128 + data_len as int) * 6960,
{
    solana_program::rent::Rent::default().minimum_balance(data_len)
}

/// The rent oracle: the minimum lamport balance that makes a record slot of
/// `data_len` bytes rent-exempt under the default rent configuration, or
/// `None` when the length exceeds the largest permitted record.
pub fn default_rent_minimum(data_len: usize) -> (r: Option<u64>)
    ensures
        r.is_some() <==> data_len <= MAX_RENT_DATA_LEN,
        r.is_some() ==> r.unwrap() == (128 + data_len as int) * 6960,
{
    if data_len <= MAX_RENT_DATA_LEN {
        Some(rent_minimum_balance(data_len))
    } else {
        None
    }
}

/// The rent-exempt minimum for a mint-sized slot, the one `initialize_mint`
/// compares a slot's backing balance against.
pub fn mint_slot_rent_minimum() -> (r: u64)
    ensures
        r == 1461600,
{
    default_rent_minimum(MINT_SLOT_LEN).unwrap()
}

} // verus!
