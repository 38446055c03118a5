use vstd::prelude::*;

use crate::errors::AmmError;
use crate::ledger::Ledger;
use crate::ledger::TokenAccount;
use crate::ledger::spec_transfer_accounts;
use crate::ledger::spec_transfer_error;
use crate::math::lemma_div_lt_when_lt_mul;
use crate::math::lemma_div_le_when_le_mul;
use crate::math::lemma_div_mul_le;
use crate::math::mul_div_u64;
use crate::pool::Pool;
use crate::OpResult;

verus! {

/// The input amount left once the fee is withheld:
/// `amount_in * (fee_denominator - fee_numerator) / fee_denominator`,
/// rounded down. The withheld part stays in the input reserve.
pub open spec fn spec_fee_adjusted(amount_in: u64, fee_numerator: u64, fee_denominator: u64)
    -> int {
    amount_in as int * (fee_denominator - fee_numerator) / fee_denominator as int
}

/// The constant-product output for a fee-adjusted input `f` against the
/// given reserves: `reserve_out * f / (reserve_in + f)`, rounded down.
pub open spec fn spec_swap_output(reserve_in: u64, reserve_out: u64, f: int) -> int {
    reserve_out as int * f / (reserve_in + f)
}

/// What a quote returns for the given reserves, input and fee: the output
/// amount, or the failure for a zero input or an empty reserve.
pub open spec fn spec_quote(
    reserve_in: u64,
    reserve_out: u64,
    amount_in: u64,
    fee_numerator: u64,
    fee_denominator: u64,
) -> Result<u64, AmmError> {
    if amount_in == 0 {
        Err(AmmError::ZeroInput)
    } else if reserve_in == 0 || reserve_out == 0 {
        Err(AmmError::InsufficientLiquidity)
    } else {
        Ok(spec_swap_output(reserve_in, reserve_out,
            spec_fee_adjusted(amount_in, fee_numerator, fee_denominator)) as u64)
    }
}

/// The fee never exceeds the input: the fee-adjusted amount lies between
/// zero and the full input.
pub proof fn lemma_fee_adjusted_bounds(amount_in: u64, fee_numerator: u64, fee_denominator: u64)
    requires
        fee_numerator <= fee_denominator,
        fee_denominator > 0,
    ensures
        0 <= spec_fee_adjusted(amount_in, fee_numerator, fee_denominator),
        spec_fee_adjusted(amount_in, fee_numerator, fee_denominator) <= amount_in,
{
    let num = amount_in as int * (fee_denominator - fee_numerator);
    assert(0 <= num && num <= amount_in as int * fee_denominator as int) by (nonlinear_arith)
        requires
            num == amount_in as int * (fee_denominator - fee_numerator),
            0 <= amount_in,
            0 <= fee_denominator - fee_numerator,
            fee_denominator - fee_numerator <= fee_denominator,
    ;
    lemma_div_mul_le(num, fee_denominator as int);
    lemma_div_le_when_le_mul(num, fee_denominator as int, amount_in as int);
}

/// A constant-product payout never reaches the output reserve itself.
pub proof fn lemma_swap_output_lt_reserve(reserve_in: u64, reserve_out: u64, f: int)
    requires
        reserve_in > 0,
        reserve_out > 0,
        f >= 0,
    ensures
        0 <= spec_swap_output(reserve_in, reserve_out, f),
        spec_swap_output(reserve_in, reserve_out, f) < reserve_out,
{
    let num = reserve_out as int * f;
    let den = reserve_in + f;
    assert(0 <= num && num < reserve_out as int * den) by (nonlinear_arith)
        requires
            num == reserve_out as int * f,
            reserve_out > 0,
            f >= 0,
            reserve_in > 0,
            den == reserve_in + f,
    ;
    lemma_div_mul_le(num, den);
    lemma_div_lt_when_lt_mul(num, den, reserve_out as int);
}

/// Constant-product monotonicity, stated on its own: a swap that pays out
/// `spec_swap_output` for a fee-adjusted input `f` and takes in the full
/// `amount_in` never decreases the product of the reserves, and strictly
/// increases it whenever a fee is withheld.
pub proof fn lemma_constant_product(
    reserve_in: u64,
    reserve_out: u64,
    f: int,
    amount_in: u64,
    amount_out: int,
)
    requires
        reserve_in > 0,
        reserve_out > 0,
        0 <= f,
        f <= amount_in,
        amount_out == spec_swap_output(reserve_in, reserve_out, f),
    ensures
        (reserve_in + amount_in) * (reserve_out - amount_out)
            >= reserve_in as int * reserve_out as int,
        f < amount_in ==> (reserve_in + amount_in) * (reserve_out - amount_out)
            > reserve_in as int * reserve_out as int,
{
    let den = reserve_in + f;
    let num = reserve_out as int * f;
    lemma_div_mul_le(num, den);
    lemma_swap_output_lt_reserve(reserve_in, reserve_out, f);
    // The payout repays at most the fee-adjusted share of the output
    // reserve, so the input side's growth covers it with the fee to spare.
    assert((reserve_in + amount_in) * (reserve_out - amount_out)
        >= reserve_in as int * reserve_out as int) by (nonlinear_arith)
        requires
            amount_out * den <= num,
            num == reserve_out as int * f,
            den == reserve_in + f,
            f <= amount_in,
            amount_out < reserve_out,
            0 <= amount_out,
            reserve_in > 0,
            reserve_out > 0,
            0 <= f,
    ;
    if f < amount_in {
        assert((reserve_in + amount_in) * (reserve_out - amount_out)
            > reserve_in as int * reserve_out as int) by (nonlinear_arith)
            requires
                amount_out * den <= num,
                num == reserve_out as int * f,
                den == reserve_in + f,
                f < amount_in,
                amount_out < reserve_out,
                0 <= amount_out,
                reserve_in > 0,
                reserve_out > 0,
                0 <= f,
        ;
    }
}

/// Prices a swap against the given reserves without touching them: withholds
/// the fee from the input, then pays out of the output reserve so that the
/// reserve product cannot fall. Fails with `ZeroInput` on a zero input and
/// with `InsufficientLiquidity` while either reserve is empty. The fee is a
/// configuration surface: `fee_numerator / fee_denominator` is the withheld
/// fraction, three per thousand in the conventional setting.
pub fn quote(
    reserve_in: u64,
    reserve_out: u64,
    amount_in: u64,
    fee_numerator: u64,
    fee_denominator: u64,
) -> (r: Result<u64, AmmError>)
    requires
        fee_numerator <= fee_denominator,
        fee_denominator > 0,
    ensures
        r == spec_quote(reserve_in, reserve_out, amount_in, fee_numerator, fee_denominator),
        r matches Ok(out) ==> out < reserve_out,
{
    if amount_in == 0 {
        return Err(AmmError::ZeroInput);
    }
    if reserve_in == 0 || reserve_out == 0 {
        return Err(AmmError::InsufficientLiquidity);
    }
    let fee_adjusted_wide = mul_div_u64(amount_in, fee_denominator - fee_numerator,
        fee_denominator);
    proof {
        lemma_fee_adjusted_bounds(amount_in, fee_numerator, fee_denominator);
    }
    let fee_adjusted = fee_adjusted_wide as u64;
    proof {
        assert(reserve_out as int * fee_adjusted as int
            <= 0xffffffffffffffff * 0xffffffffffffffff) by (nonlinear_arith)
            requires
                0 <= reserve_out <= 0xffffffffffffffff,
                0 <= fee_adjusted <= 0xffffffffffffffff,
        ;
        lemma_swap_output_lt_reserve(reserve_in, reserve_out, fee_adjusted as int);
    }
    let amount_out = (reserve_out as u128) * (fee_adjusted as u128)
        / (reserve_in as u128 + fee_adjusted as u128);
    Ok(amount_out as u64)
}

/// The first precondition a priced swap violates, checked against the state
/// before any mutation: the slippage bound, then the inbound leg from the
/// trader, then the outbound leg to the trader.
pub open spec fn spec_swap_ledger_error(
    pool: Pool,
    l: Ledger,
    trader_in: int,
    trader_out: int,
    input_is_token0: bool,
    amount_in: u64,
    amount_out: u64,
    minimum_amount_out: u64,
    caller: u64,
) -> Option<AmmError> {
    let reserve_in_account = if input_is_token0 {
        pool.reserve0_account
    } else {
        pool.reserve1_account
    };
    let reserve_out_account = if input_is_token0 {
        pool.reserve1_account
    } else {
        pool.reserve0_account
    };
    if amount_out < minimum_amount_out {
        Some(AmmError::SlippageExceeded)
    } else {
        let e0 = spec_transfer_error(l, trader_in, reserve_in_account as int, amount_in, caller);
        let e1 = spec_transfer_error(l, reserve_out_account as int, trader_out, amount_out,
            pool.authority);
        if e0.is_some() {
            e0
        } else {
            e1
        }
    }
}

/// The account records after a successful swap: the inbound leg, then the
/// outbound leg.
pub open spec fn spec_swap_accounts(
    accounts: Seq<TokenAccount>,
    pool: Pool,
    trader_in: int,
    trader_out: int,
    input_is_token0: bool,
    amount_in: u64,
    amount_out: u64,
) -> Seq<TokenAccount> {
    let reserve_in_account = if input_is_token0 {
        pool.reserve0_account
    } else {
        pool.reserve1_account
    };
    let reserve_out_account = if input_is_token0 {
        pool.reserve1_account
    } else {
        pool.reserve0_account
    };
    let leg0 = spec_transfer_accounts(accounts, trader_in, reserve_in_account as int, amount_in);
    spec_transfer_accounts(leg0, reserve_out_account as int, trader_out, amount_out)
}

/// The pool after a successful swap: the input reserve grown by the full
/// input, the output reserve shrunk by the payout.
pub open spec fn spec_swap_pool(pool: Pool, input_is_token0: bool, amount_in: u64, amount_out: u64)
    -> Pool {
    if input_is_token0 {
        Pool {
            reserve0: (pool.reserve0 + amount_in) as u64,
            reserve1: (pool.reserve1 - amount_out) as u64,
            ..pool
        }
    } else {
        Pool {
            reserve0: (pool.reserve0 - amount_out) as u64,
            reserve1: (pool.reserve1 + amount_in) as u64,
            ..pool
        }
    }
}

/// Swaps `amount_in` of one reserve's token for the other's against the
/// pool, atomically: every precondition of both legs is checked against the
/// state before the call, and the first violated one aborts the whole
/// operation with no record changed. On success the product of the reserves
/// never falls — it strictly rises whenever a fee is withheld.
///
/// `caller` is the identity the host verified as a signer; it must own the
/// trader's input account. The trader's accounts may not be the pool's own
/// reserve accounts: a swap must move tokens across the pool boundary.
pub fn swap(
    pool: &mut Pool,
    ledger: &mut Ledger,
    trader_in: usize,
    trader_out: usize,
    input_is_token0: bool,
    amount_in: u64,
    minimum_amount_out: u64,
    fee_numerator: u64,
    fee_denominator: u64,
    caller: u64,
) -> (r: OpResult)
    requires
        old(ledger).wf(),
        old(pool).wf(*old(ledger)),
        trader_in < old(ledger).accounts@.len(),
        trader_out < old(ledger).accounts@.len(),
        trader_in != old(pool).reserve0_account,
        trader_in != old(pool).reserve1_account,
        trader_out != old(pool).reserve0_account,
        trader_out != old(pool).reserve1_account,
        fee_numerator <= fee_denominator,
        fee_denominator > 0,
    ensures
        final(ledger).wf(),
        final(pool).wf(*final(ledger)),
        final(ledger).accounts@.len() == old(ledger).accounts@.len(),
        final(ledger).mints@ == old(ledger).mints@,
        r.is_err() ==> *final(pool) == *old(pool) && *final(ledger) == *old(ledger),
        r.is_ok() ==> final(pool).reserve0 as int * final(pool).reserve1 as int
            >= old(pool).reserve0 as int * old(pool).reserve1 as int,
        r.is_ok() && spec_fee_adjusted(amount_in, fee_numerator, fee_denominator) < amount_in
            ==> final(pool).reserve0 as int * final(pool).reserve1 as int
                > old(pool).reserve0 as int * old(pool).reserve1 as int,
        match spec_quote(
            if input_is_token0 { old(pool).reserve0 } else { old(pool).reserve1 },
            if input_is_token0 { old(pool).reserve1 } else { old(pool).reserve0 },
            amount_in, fee_numerator, fee_denominator) {
            Err(e) => r == Err::<(), AmmError>(e),
            Ok(amount_out) => match spec_swap_ledger_error(*old(pool), *old(ledger),
                trader_in as int, trader_out as int, input_is_token0, amount_in, amount_out,
                minimum_amount_out, caller) {
                Some(e) => r == Err::<(), AmmError>(e),
                None => {
                    &&& r == Ok::<(), AmmError>(())
                    &&& *final(pool) == spec_swap_pool(*old(pool), input_is_token0, amount_in,
                        amount_out)
                    &&& final(ledger).accounts@ == spec_swap_accounts(old(ledger).accounts@,
                        *old(pool), trader_in as int, trader_out as int, input_is_token0,
                        amount_in, amount_out)
                },
            },
        },
{
    let ghost pool0 = *pool;
    let ghost ledger0 = *ledger;

    let reserve_in = if input_is_token0 { pool.reserve0 } else { pool.reserve1 };
    let reserve_out = if input_is_token0 { pool.reserve1 } else { pool.reserve0 };
    let reserve_in_account = if input_is_token0 {
        pool.reserve0_account
    } else {
        pool.reserve1_account
    };
    let reserve_out_account = if input_is_token0 {
        pool.reserve1_account
    } else {
        pool.reserve0_account
    };

    // Pricing.
    let amount_out: u64;
    match quote(reserve_in, reserve_out, amount_in, fee_numerator, fee_denominator) {
        Ok(out) => {
            amount_out = out;
        },
        Err(e) => {
            return Err(e);
        },
    }
    if amount_out < minimum_amount_out {
        return Err(AmmError::SlippageExceeded);
    }

    // Validation: both legs, against the untouched state.
    if let Some(e) = ledger.transfer_check(trader_in, reserve_in_account, amount_in, caller) {
        return Err(e);
    }
    if let Some(e) = ledger.transfer_check(reserve_out_account, trader_out, amount_out,
        pool.authority) {
        return Err(e);
    }

    proof {
        // On the success path the four records are pairwise distinct: the
        // trader's accounts hold the two reserve mints, which differ.
        assert(ledger0.accounts@[trader_in as int].mint
            == ledger0.accounts@[reserve_in_account as int].mint);
        assert(ledger0.accounts@[trader_out as int].mint
            == ledger0.accounts@[reserve_out_account as int].mint);
        assert(trader_in != trader_out);
    }

    // Commit: the checks above make both legs succeed.
    let leg0 = ledger.transfer(trader_in, reserve_in_account, amount_in, caller);
    match leg0 {
        Ok(()) => {},
        Err(e) => {
            return Err(e);
        },
    }
    let leg1 = ledger.transfer(reserve_out_account, trader_out, amount_out, pool.authority);
    match leg1 {
        Ok(()) => {},
        Err(e) => {
            return Err(e);
        },
    }
    if input_is_token0 {
        pool.reserve0 = pool.reserve0 + amount_in;
        pool.reserve1 = pool.reserve1 - amount_out;
    } else {
        pool.reserve1 = pool.reserve1 + amount_in;
        pool.reserve0 = pool.reserve0 - amount_out;
    }

    proof {
        let f = spec_fee_adjusted(amount_in, fee_numerator, fee_denominator);
        lemma_fee_adjusted_bounds(amount_in, fee_numerator, fee_denominator);
        lemma_swap_output_lt_reserve(reserve_in, reserve_out, f);
        lemma_constant_product(reserve_in, reserve_out, f, amount_in, amount_out as int);
        assert((reserve_in + amount_in) * (reserve_out - amount_out)
            == final(pool).reserve0 as int * final(pool).reserve1 as int) by (nonlinear_arith)
            requires
                input_is_token0 ==> final(pool).reserve0 == reserve_in + amount_in
                    && final(pool).reserve1 == reserve_out - amount_out,
                !input_is_token0 ==> final(pool).reserve1 == reserve_in + amount_in
                    && final(pool).reserve0 == reserve_out - amount_out,
        ;
        assert(reserve_in as int * reserve_out as int
            == pool0.reserve0 as int * pool0.reserve1 as int) by (nonlinear_arith)
            requires
                input_is_token0 ==> reserve_in == pool0.reserve0 && reserve_out == pool0.reserve1,
                !input_is_token0 ==> reserve_in == pool0.reserve1 && reserve_out == pool0.reserve0,
        ;
    }
    Ok(())
}

} // verus!
