use vstd::prelude::*;

use crate::errors::AmmError;
use crate::ledger::Ledger;
use crate::ledger::Mint;
use crate::ledger::TokenAccount;
use crate::ledger::lemma_balance_le_supply;
use crate::ledger::spec_mint_to_error;
use crate::ledger::spec_transfer_accounts;
use crate::ledger::spec_transfer_error;
use crate::math::isqrt_u128;
use crate::math::lemma_div_le_when_le_mul;
use crate::math::lemma_div_lt_when_lt_mul;
use crate::math::lemma_mul_div_exact;
use crate::math::mul_div_u64;
use crate::math::spec_floor_sqrt;
use crate::OpResult;

verus! {

/// One liquidity market for an ordered pair of distinct mints. The reserve
/// fields mirror the balances of two ledger accounts the pool's authority
/// owns, and the share supply mirrors the share mint's recorded supply;
/// [`Pool::wf`] states the mirror exactly and every operation preserves it.
#[derive(Clone, Copy, Debug, PartialEq, Eq)]
pub struct Pool {
    /// Index of the mint that tracks liquidity shares.
    pub share_mint: usize,
    /// Index of the ledger account holding the token-0 reserve.
    pub reserve0_account: usize,
    /// Index of the ledger account holding the token-1 reserve.
    pub reserve1_account: usize,
    /// The identity that owns both reserve accounts.
    pub authority: u64,
    /// Mirror of the token-0 reserve account's balance.
    pub reserve0: u64,
    /// Mirror of the token-1 reserve account's balance.
    pub reserve1: u64,
    /// Mirror of the share mint's total supply.
    pub total_shares: u64,
}

impl Pool {
    /// The pool invariant against its ledger: every named record exists and
    /// is initialized, the two reserves hold distinct mints and neither is
    /// the share mint, the pool's authority owns both reserve accounts, the
    /// mirrored fields agree with the ledger, and reserves are positive
    /// exactly while shares exist.
    pub open spec fn wf(self, l: Ledger) -> bool {
        let r0 = l.accounts@[self.reserve0_account as int];
        let r1 = l.accounts@[self.reserve1_account as int];
        &&& (self.share_mint as int) < l.mints@.len()
        &&& l.mints@[self.share_mint as int].initialized
        &&& (self.reserve0_account as int) < l.accounts@.len()
        &&& (self.reserve1_account as int) < l.accounts@.len()
        &&& self.reserve0_account != self.reserve1_account
        &&& r0.initialized
        &&& r1.initialized
        &&& r0.mint != r1.mint
        &&& r0.mint != self.share_mint
        &&& r1.mint != self.share_mint
        &&& r0.owner == self.authority
        &&& r1.owner == self.authority
        &&& r0.balance == self.reserve0
        &&& r1.balance == self.reserve1
        &&& l.mints@[self.share_mint as int].supply == self.total_shares
        &&& self.total_shares == 0 ==> self.reserve0 == 0 && self.reserve1 == 0
        &&& self.total_shares > 0 ==> self.reserve0 > 0 && self.reserve1 > 0
    }

    /// Runtime twin of [`Self::wf`].
    pub fn check_wf(&self, ledger: &Ledger) -> (b: bool)
        ensures
            b == self.wf(*ledger),
    {
        if !(self.share_mint < ledger.mints.len()) {
            return false;
        }
        if !(self.reserve0_account < ledger.accounts.len()) {
            return false;
        }
        if !(self.reserve1_account < ledger.accounts.len()) {
            return false;
        }
        let r0 = ledger.accounts[self.reserve0_account];
        let r1 = ledger.accounts[self.reserve1_account];
        let m = ledger.mints[self.share_mint];
        m.initialized && self.reserve0_account != self.reserve1_account && r0.initialized
            && r1.initialized && r0.mint != r1.mint && r0.mint != self.share_mint
            && r1.mint != self.share_mint && r0.owner == self.authority
            && r1.owner == self.authority && r0.balance == self.reserve0
            && r1.balance == self.reserve1 && m.supply == self.total_shares
            && (self.total_shares != 0 || (self.reserve0 == 0 && self.reserve1 == 0))
            && (self.total_shares == 0 || (self.reserve0 > 0 && self.reserve1 > 0))
    }

    /// The pool view of the given ledger records: mirrored fields read
    /// straight from the ledger.
    pub open spec fn spec_candidate(
        l: Ledger,
        share_mint: usize,
        reserve0_account: usize,
        reserve1_account: usize,
        authority: u64,
    ) -> Pool {
        Pool {
            share_mint,
            reserve0_account,
            reserve1_account,
            authority,
            reserve0: l.accounts@[reserve0_account as int].balance,
            reserve1: l.accounts@[reserve1_account as int].balance,
            total_shares: l.mints@[share_mint as int].supply,
        }
    }

    /// Builds the pool view of existing ledger records, or `None` when the
    /// records do not satisfy the pool invariant.
    pub fn attach(
        ledger: &Ledger,
        share_mint: usize,
        reserve0_account: usize,
        reserve1_account: usize,
        authority: u64,
    ) -> (r: Option<Pool>)
        ensures
            r.is_some() <==> share_mint < ledger.mints@.len()
                && reserve0_account < ledger.accounts@.len()
                && reserve1_account < ledger.accounts@.len()
                && Pool::spec_candidate(*ledger, share_mint, reserve0_account,
                    reserve1_account, authority).wf(*ledger),
            r.is_some() ==> r.unwrap() == Pool::spec_candidate(*ledger, share_mint,
                reserve0_account, reserve1_account, authority),
    {
        if !(share_mint < ledger.mints.len() && reserve0_account < ledger.accounts.len()
            && reserve1_account < ledger.accounts.len()) {
            return None;
        }
        let pool = Pool {
            share_mint,
            reserve0_account,
            reserve1_account,
            authority,
            reserve0: ledger.accounts[reserve0_account].balance,
            reserve1: ledger.accounts[reserve1_account].balance,
            total_shares: ledger.mints[share_mint].supply,
        };
        if pool.check_wf(ledger) {
            Some(pool)
        } else {
            None
        }
    }
}

/// Shares minted for a deposit into a non-empty pool: the smaller of the two
/// pro-rata entitlements, rounded down.
pub open spec fn spec_shares_minted(a0: int, a1: int, r0: int, r1: int, t: int) -> int {
    let m0 = a0 * t / r0;
    let m1 = a1 * t / r1;
    if m0 <= m1 {
        m0
    } else {
        m1
    }
}

/// The deposit pair a non-empty pool accepts for the desired amounts: pair
/// the full first amount with its pro-rata partner when that partner fits,
/// otherwise pair the full second amount; when neither candidate fits within
/// the desired amounts the deposit fails as slippage.
pub open spec fn spec_paired_amounts(pool: Pool, amount0_desired: u64, amount1_desired: u64)
    -> Result<(int, int), AmmError> {
    let a1_required = amount0_desired as int * pool.reserve1 as int / pool.reserve0 as int;
    if a1_required <= amount1_desired {
        Ok((amount0_desired as int, a1_required))
    } else {
        let a0_required = amount1_desired as int * pool.reserve0 as int / pool.reserve1 as int;
        if a0_required <= amount0_desired {
            Ok((a0_required, amount1_desired as int))
        } else {
            Err(AmmError::SlippageExceeded)
        }
    }
}

/// The pricing outcome of a deposit: the amounts taken from the depositor
/// and the shares minted, or the pricing failure. A first deposit is taken
/// verbatim and mints the floor square root of the amount product; a later
/// deposit is paired pro-rata. No ledger state is consulted here.
pub open spec fn spec_liquidity_quote(pool: Pool, amount0_desired: u64, amount1_desired: u64)
    -> Result<(int, int, int), AmmError> {
    if pool.total_shares == 0 {
        let minted = spec_floor_sqrt(amount0_desired * amount1_desired);
        if minted == 0 {
            Err(AmmError::InsufficientInitialLiquidity)
        } else {
            Ok((amount0_desired as int, amount1_desired as int, minted))
        }
    } else {
        match spec_paired_amounts(pool, amount0_desired, amount1_desired) {
            Err(e) => Err(e),
            Ok((a0, a1)) => {
                let minted = spec_shares_minted(a0, a1, pool.reserve0 as int,
                    pool.reserve1 as int, pool.total_shares as int);
                if minted > u64::MAX {
                    Err(AmmError::ArithmeticOverflow)
                } else {
                    Ok((a0, a1, minted))
                }
            },
        }
    }
}

/// The first ledger precondition a priced deposit violates, checked against
/// the state before any mutation: the token-0 leg, then the token-1 leg,
/// then the share issue.
pub open spec fn spec_add_liquidity_ledger_error(
    pool: Pool,
    l: Ledger,
    depositor_token0: int,
    depositor_token1: int,
    depositor_shares: int,
    amount0: u64,
    amount1: u64,
    minted: u64,
    caller: u64,
) -> Option<AmmError> {
    let e0 = spec_transfer_error(l, depositor_token0, pool.reserve0_account as int, amount0, caller);
    let e1 = spec_transfer_error(l, depositor_token1, pool.reserve1_account as int, amount1, caller);
    let e2 = spec_mint_to_error(l, depositor_shares, pool.share_mint as int, minted);
    if e0.is_some() {
        e0
    } else if e1.is_some() {
        e1
    } else {
        e2
    }
}

/// The account records after a successful deposit: the two transfer legs in
/// order, then the share credit.
pub open spec fn spec_add_liquidity_accounts(
    accounts: Seq<TokenAccount>,
    pool: Pool,
    depositor_token0: int,
    depositor_token1: int,
    depositor_shares: int,
    amount0: u64,
    amount1: u64,
    minted: u64,
) -> Seq<TokenAccount> {
    let leg0 = spec_transfer_accounts(accounts, depositor_token0, pool.reserve0_account as int, amount0);
    let leg1 = spec_transfer_accounts(leg0, depositor_token1, pool.reserve1_account as int, amount1);
    let sa = leg1[depositor_shares];
    leg1.update(depositor_shares, TokenAccount { balance: (sa.balance + minted) as u64, ..sa })
}

/// Deposits tokens into both reserves and mints liquidity shares for them,
/// atomically: every precondition of every leg is checked against the state
/// before the call, and the first violated one aborts the whole operation
/// with no record changed.
///
/// An empty pool takes the desired amounts verbatim as its initial reserves;
/// a non-empty pool pairs them pro-rata as [`spec_paired_amounts`] states.
/// `caller` is the identity the host verified as a signer; it must own both
/// depositor token accounts. The depositor's token accounts may not be the
/// pool's own reserve accounts: a deposit must move tokens into the pool.
pub fn add_liquidity(
    pool: &mut Pool,
    ledger: &mut Ledger,
    depositor_token0: usize,
    depositor_token1: usize,
    depositor_shares: usize,
    amount0_desired: u64,
    amount1_desired: u64,
    caller: u64,
) -> (r: OpResult)
    requires
        old(ledger).wf(),
        old(pool).wf(*old(ledger)),
        depositor_token0 < old(ledger).accounts@.len(),
        depositor_token1 < old(ledger).accounts@.len(),
        depositor_shares < old(ledger).accounts@.len(),
        depositor_token0 != old(pool).reserve0_account,
        depositor_token0 != old(pool).reserve1_account,
        depositor_token1 != old(pool).reserve0_account,
        depositor_token1 != old(pool).reserve1_account,
    ensures
        final(ledger).wf(),
        final(pool).wf(*final(ledger)),
        final(ledger).accounts@.len() == old(ledger).accounts@.len(),
        final(ledger).mints@.len() == old(ledger).mints@.len(),
        r.is_err() ==> *final(pool) == *old(pool) && *final(ledger) == *old(ledger),
        match spec_liquidity_quote(*old(pool), amount0_desired, amount1_desired) {
            Err(e) => r == Err::<(), AmmError>(e),
            Ok((a0, a1, minted)) => match spec_add_liquidity_ledger_error(*old(pool), *old(ledger),
                depositor_token0 as int, depositor_token1 as int, depositor_shares as int,
                a0 as u64, a1 as u64, minted as u64, caller) {
                Some(e) => r == Err::<(), AmmError>(e),
                None => {
                    &&& r == Ok::<(), AmmError>(())
                    &&& *final(pool) == (Pool {
                        reserve0: (old(pool).reserve0 + a0) as u64,
                        reserve1: (old(pool).reserve1 + a1) as u64,
                        total_shares: (old(pool).total_shares + minted) as u64,
                        ..*old(pool)
                    })
                    &&& final(ledger).accounts@ == spec_add_liquidity_accounts(
                        old(ledger).accounts@, *old(pool), depositor_token0 as int,
                        depositor_token1 as int, depositor_shares as int, a0 as u64, a1 as u64,
                        minted as u64)
                    &&& final(ledger).mints@ == old(ledger).mints@.update(
                        old(pool).share_mint as int,
                        (Mint {
                            supply: (old(ledger).mints@[old(pool).share_mint as int].supply
                                + minted) as u64,
                            ..old(ledger).mints@[old(pool).share_mint as int]
                        }))
                },
            },
        },
{
    let ghost pool0 = *pool;
    let ghost ledger0 = *ledger;

    // Pricing: fix the deposited amounts and the shares they mint.
    let amount0: u64;
    let amount1: u64;
    let minted: u64;
    if pool.total_shares == 0 {
        proof {
            assert(amount0_desired as int * amount1_desired as int
                <= 0xffffffffffffffff * 0xffffffffffffffff) by (nonlinear_arith)
                requires
                    0 <= amount0_desired <= 0xffffffffffffffff,
                    0 <= amount1_desired <= 0xffffffffffffffff,
            ;
        }
        let product = (amount0_desired as u128) * (amount1_desired as u128);
        let root = isqrt_u128(product);
        if root == 0 {
            return Err(AmmError::InsufficientInitialLiquidity);
        }
        amount0 = amount0_desired;
        amount1 = amount1_desired;
        minted = root;
    } else {
        let a1_required = mul_div_u64(amount0_desired, pool.reserve1, pool.reserve0);
        let a0_final: u64;
        let a1_final: u64;
        if a1_required <= amount1_desired as u128 {
            a0_final = amount0_desired;
            a1_final = a1_required as u64;
        } else {
            let a0_required = mul_div_u64(amount1_desired, pool.reserve0, pool.reserve1);
            if a0_required <= amount0_desired as u128 {
                a0_final = a0_required as u64;
                a1_final = amount1_desired;
            } else {
                return Err(AmmError::SlippageExceeded);
            }
        }
        let m0 = mul_div_u64(a0_final, pool.total_shares, pool.reserve0);
        let m1 = mul_div_u64(a1_final, pool.total_shares, pool.reserve1);
        let m = if m0 <= m1 { m0 } else { m1 };
        if m > u64::MAX as u128 {
            return Err(AmmError::ArithmeticOverflow);
        }
        amount0 = a0_final;
        amount1 = a1_final;
        minted = m as u64;
    }
    assert(spec_liquidity_quote(pool0, amount0_desired, amount1_desired)
        == Ok::<(int, int, int), AmmError>((amount0 as int, amount1 as int, minted as int)));

    // Validation: every ledger precondition, against the untouched state.
    if let Some(e) = ledger.transfer_check(depositor_token0, pool.reserve0_account, amount0, caller) {
        return Err(e);
    }
    if let Some(e) = ledger.transfer_check(depositor_token1, pool.reserve1_account, amount1, caller) {
        return Err(e);
    }
    if let Some(e) = ledger.mint_to_check(depositor_shares, pool.share_mint, minted) {
        return Err(e);
    }

    proof {
        // On the success path the five records are pairwise distinct: the
        // depositor accounts hold the two reserve mints and the share
        // account holds the share mint, and those three mints differ.
        assert(ledger0.accounts@[depositor_token0 as int].mint
            == ledger0.accounts@[pool0.reserve0_account as int].mint);
        assert(ledger0.accounts@[depositor_token1 as int].mint
            == ledger0.accounts@[pool0.reserve1_account as int].mint);
        assert(ledger0.accounts@[depositor_shares as int].mint == pool0.share_mint);
        assert(depositor_token0 != depositor_token1);
        assert(depositor_shares != depositor_token0);
        assert(depositor_shares != depositor_token1);
        assert(depositor_shares != pool0.reserve0_account);
        assert(depositor_shares != pool0.reserve1_account);
    }

    // Commit: the checks above make every step below succeed.
    let leg0 = ledger.transfer(depositor_token0, pool.reserve0_account, amount0, caller);
    match leg0 {
        Ok(()) => {},
        Err(e) => {
            return Err(e);
        },
    }
    let leg1 = ledger.transfer(depositor_token1, pool.reserve1_account, amount1, caller);
    match leg1 {
        Ok(()) => {},
        Err(e) => {
            return Err(e);
        },
    }
    let issue = ledger.mint_to(depositor_shares, pool.share_mint, minted);
    match issue {
        Ok(()) => {},
        Err(e) => {
            return Err(e);
        },
    }
    pool.reserve0 = pool.reserve0 + amount0;
    pool.reserve1 = pool.reserve1 + amount1;
    pool.total_shares = pool.total_shares + minted;

    proof {
        if pool0.total_shares == 0 {
            // A first deposit mints at least one share, so its amount
            // product is at least one and both amounts are positive.
            assert(minted as int * minted as int >= 1) by (nonlinear_arith)
                requires
                    minted >= 1,
            ;
            assert(amount0 as int * amount1 as int >= 1);
            assert(amount0 > 0 && amount1 > 0) by (nonlinear_arith)
                requires
                    amount0 as int * amount1 as int >= 1,
                    amount0 >= 0,
                    amount1 >= 0,
            ;
        }
    }
    Ok(())
}

/// What a redemption of `liquidity` shares pays out of each reserve: the
/// pro-rata slice of each, rounded down; nothing for nothing.
pub open spec fn spec_remove_amounts(pool: Pool, liquidity: u64) -> (int, int) {
    if liquidity == 0 {
        (0, 0)
    } else {
        (
            liquidity as int * pool.reserve0 as int / pool.total_shares as int,
            liquidity as int * pool.reserve1 as int / pool.total_shares as int,
        )
    }
}

/// The first precondition a share redemption violates, checked against the
/// state before any mutation: the share account and its holding, then the
/// payout amounts, then the two payout transfer legs.
pub open spec fn spec_remove_liquidity_error(
    pool: Pool,
    l: Ledger,
    depositor_shares: int,
    recipient0: int,
    recipient1: int,
    liquidity: u64,
) -> Option<AmmError> {
    let sa = l.accounts@[depositor_shares];
    let amounts = spec_remove_amounts(pool, liquidity);
    if !sa.initialized {
        Some(AmmError::UninitializedAccount)
    } else if sa.mint != pool.share_mint {
        Some(AmmError::MintMismatch)
    } else if sa.balance < liquidity {
        Some(AmmError::InsufficientShares)
    } else if liquidity > 0 && (amounts.0 == 0 || amounts.1 == 0) {
        Some(AmmError::ZeroOutput)
    } else {
        let e0 = spec_transfer_error(l, pool.reserve0_account as int, recipient0,
            amounts.0 as u64, pool.authority);
        let e1 = spec_transfer_error(l, pool.reserve1_account as int, recipient1,
            amounts.1 as u64, pool.authority);
        if e0.is_some() {
            e0
        } else {
            e1
        }
    }
}

/// The account records after a successful redemption: the share debit, then
/// the two payout transfer legs in order.
pub open spec fn spec_remove_liquidity_accounts(
    accounts: Seq<TokenAccount>,
    pool: Pool,
    depositor_shares: int,
    recipient0: int,
    recipient1: int,
    liquidity: u64,
    amount0_out: u64,
    amount1_out: u64,
) -> Seq<TokenAccount> {
    let sa = accounts[depositor_shares];
    let burned = accounts.update(depositor_shares,
        TokenAccount { balance: (sa.balance - liquidity) as u64, ..sa });
    let leg0 = spec_transfer_accounts(burned, pool.reserve0_account as int, recipient0, amount0_out);
    spec_transfer_accounts(leg0, pool.reserve1_account as int, recipient1, amount1_out)
}

/// Burns liquidity shares and pays out the pro-rata slice of both reserves,
/// atomically: every precondition of every leg is checked against the state
/// before the call, and the first violated one aborts the whole operation
/// with no record changed.
///
/// The host verifies the depositor's signature over the share account before
/// invoking this; the payout transfers themselves are authorized by the
/// pool's own authority over its reserve accounts. The recipient accounts
/// may not be the pool's own reserve accounts: a redemption must move tokens
/// out of the pool.
pub fn remove_liquidity(
    pool: &mut Pool,
    ledger: &mut Ledger,
    depositor_shares: usize,
    recipient0: usize,
    recipient1: usize,
    liquidity_amount: u64,
) -> (r: OpResult)
    requires
        old(ledger).wf(),
        old(pool).wf(*old(ledger)),
        depositor_shares < old(ledger).accounts@.len(),
        recipient0 < old(ledger).accounts@.len(),
        recipient1 < old(ledger).accounts@.len(),
        recipient0 != old(pool).reserve0_account,
        recipient0 != old(pool).reserve1_account,
        recipient1 != old(pool).reserve0_account,
        recipient1 != old(pool).reserve1_account,
    ensures
        final(ledger).wf(),
        final(pool).wf(*final(ledger)),
        final(ledger).accounts@.len() == old(ledger).accounts@.len(),
        final(ledger).mints@.len() == old(ledger).mints@.len(),
        r.is_err() ==> *final(pool) == *old(pool) && *final(ledger) == *old(ledger),
        match spec_remove_liquidity_error(*old(pool), *old(ledger), depositor_shares as int,
            recipient0 as int, recipient1 as int, liquidity_amount) {
            Some(e) => r == Err::<(), AmmError>(e),
            None => {
                let amounts = spec_remove_amounts(*old(pool), liquidity_amount);
                &&& r == Ok::<(), AmmError>(())
                &&& *final(pool) == (Pool {
                    reserve0: (old(pool).reserve0 - amounts.0) as u64,
                    reserve1: (old(pool).reserve1 - amounts.1) as u64,
                    total_shares: (old(pool).total_shares - liquidity_amount) as u64,
                    ..*old(pool)
                })
                &&& final(ledger).accounts@ == spec_remove_liquidity_accounts(
                    old(ledger).accounts@, *old(pool), depositor_shares as int, recipient0 as int,
                    recipient1 as int, liquidity_amount, amounts.0 as u64, amounts.1 as u64)
                &&& final(ledger).mints@ == old(ledger).mints@.update(
                    old(pool).share_mint as int,
                    (Mint {
                        supply: (old(ledger).mints@[old(pool).share_mint as int].supply
                            - liquidity_amount) as u64,
                        ..old(ledger).mints@[old(pool).share_mint as int]
                    }))
            },
        },
{
    let ghost pool0 = *pool;
    let ghost ledger0 = *ledger;

    let sa = ledger.accounts[depositor_shares];
    if !sa.initialized {
        return Err(AmmError::UninitializedAccount);
    }
    if sa.mint != pool.share_mint {
        return Err(AmmError::MintMismatch);
    }
    if sa.balance < liquidity_amount {
        return Err(AmmError::InsufficientShares);
    }

    // Pricing: the pro-rata payout of each reserve.
    let amount0_out: u64;
    let amount1_out: u64;
    if liquidity_amount == 0 {
        amount0_out = 0;
        amount1_out = 0;
    } else {
        proof {
            // Shares in one account never exceed the share supply, so a
            // positive holding means a positive supply to divide by.
            lemma_balance_le_supply(ledger0, depositor_shares as int);
        }
        let q0 = mul_div_u64(liquidity_amount, pool.reserve0, pool.total_shares);
        let q1 = mul_div_u64(liquidity_amount, pool.reserve1, pool.total_shares);
        proof {
            // Each payout stays within its reserve: the redeemed shares are
            // at most the whole supply.
            assert(liquidity_amount as int * pool.reserve0 as int
                <= pool.reserve0 as int * pool.total_shares as int) by (nonlinear_arith)
                requires
                    liquidity_amount <= pool.total_shares,
                    pool.reserve0 >= 0,
            ;
            assert(liquidity_amount as int * pool.reserve1 as int
                <= pool.reserve1 as int * pool.total_shares as int) by (nonlinear_arith)
                requires
                    liquidity_amount <= pool.total_shares,
                    pool.reserve1 >= 0,
            ;
            lemma_div_le_when_le_mul(liquidity_amount as int * pool.reserve0 as int,
                pool.total_shares as int, pool.reserve0 as int);
            lemma_div_le_when_le_mul(liquidity_amount as int * pool.reserve1 as int,
                pool.total_shares as int, pool.reserve1 as int);
        }
        amount0_out = q0 as u64;
        amount1_out = q1 as u64;
        if amount0_out == 0 || amount1_out == 0 {
            return Err(AmmError::ZeroOutput);
        }
    }

    // Validation: both payout legs, against the untouched state.
    if let Some(e) = ledger.transfer_check(pool.reserve0_account, recipient0, amount0_out,
        pool.authority) {
        return Err(e);
    }
    if let Some(e) = ledger.transfer_check(pool.reserve1_account, recipient1, amount1_out,
        pool.authority) {
        return Err(e);
    }

    proof {
        // On the success path the five records are pairwise distinct: the
        // recipients hold the two reserve mints, the share account holds the
        // share mint, and those three mints differ.
        assert(ledger0.accounts@[recipient0 as int].mint
            == ledger0.accounts@[pool0.reserve0_account as int].mint);
        assert(ledger0.accounts@[recipient1 as int].mint
            == ledger0.accounts@[pool0.reserve1_account as int].mint);
        assert(ledger0.accounts@[depositor_shares as int].mint == pool0.share_mint);
        assert(recipient0 != recipient1);
        assert(depositor_shares != recipient0);
        assert(depositor_shares != recipient1);
        assert(depositor_shares != pool0.reserve0_account);
        assert(depositor_shares != pool0.reserve1_account);
        assert(recipient0 != pool0.reserve1_account);
        assert(recipient1 != pool0.reserve0_account);
    }

    // Commit: the checks above make every step below succeed.
    let redeem = ledger.burn_from(depositor_shares, pool.share_mint, liquidity_amount);
    match redeem {
        Ok(()) => {},
        Err(e) => {
            return Err(e);
        },
    }
    let leg0 = ledger.transfer(pool.reserve0_account, recipient0, amount0_out, pool.authority);
    match leg0 {
        Ok(()) => {},
        Err(e) => {
            return Err(e);
        },
    }
    let leg1 = ledger.transfer(pool.reserve1_account, recipient1, amount1_out, pool.authority);
    match leg1 {
        Ok(()) => {},
        Err(e) => {
            return Err(e);
        },
    }
    pool.reserve0 = pool.reserve0 - amount0_out;
    pool.reserve1 = pool.reserve1 - amount1_out;
    pool.total_shares = pool.total_shares - liquidity_amount;

    proof {
        // Redeeming every share drains both reserves exactly; redeeming
        // fewer leaves both reserves positive.
        if liquidity_amount > 0 {
            let t = pool0.total_shares as int;
            let r0 = pool0.reserve0 as int;
            let r1 = pool0.reserve1 as int;
            let l = liquidity_amount as int;
            if l == t {
                assert(l * r0 == r0 * t) by (nonlinear_arith)
                    requires
                        l == t,
                ;
                assert(l * r1 == r1 * t) by (nonlinear_arith)
                    requires
                        l == t,
                ;
                lemma_mul_div_exact(r0, t);
                lemma_mul_div_exact(r1, t);
            } else {
                assert(l * r0 < r0 * t) by (nonlinear_arith)
                    requires
                        0 <= l < t,
                        r0 > 0,
                ;
                assert(l * r1 < r1 * t) by (nonlinear_arith)
                    requires
                        0 <= l < t,
                        r1 > 0,
                ;
                lemma_div_lt_when_lt_mul(l * r0, t, r0);
                lemma_div_lt_when_lt_mul(l * r1, t, r1);
            }
        }
    }
    Ok(())
}

/// Proportional issuance, stated on its own: the shares a non-empty pool
/// mints for a deposit claim no greater a fraction of the grown pool than
/// the deposit added to either reserve, and one share more would claim a
/// greater fraction of at least one reserve — proportionality within the
/// tolerance of rounding down.
pub proof fn lemma_proportional_shares(a0: int, a1: int, r0: int, r1: int, t: int, minted: int)
    requires
        r0 > 0,
        r1 > 0,
        t > 0,
        a0 >= 0,
        a1 >= 0,
        minted == spec_shares_minted(a0, a1, r0, r1, t),
    ensures
        minted * r0 <= a0 * t,
        minted * r1 <= a1 * t,
        (minted + 1) * r0 > a0 * t || (minted + 1) * r1 > a1 * t,
{
    let m0 = a0 * t / r0;
    let m1 = a1 * t / r1;
    assert(a0 * t >= 0) by (nonlinear_arith)
        requires
            a0 >= 0,
            t > 0,
    ;
    assert(a1 * t >= 0) by (nonlinear_arith)
        requires
            a1 >= 0,
            t > 0,
    ;
    crate::math::lemma_div_mul_le(a0 * t, r0);
    crate::math::lemma_div_mul_le(a1 * t, r1);
    // The floor quotient is the largest multiple that fits, so one more
    // share would overshoot its own reserve's entitlement.
    vstd::arithmetic::div_mod::lemma_fundamental_div_mod(a0 * t, r0);
    vstd::arithmetic::div_mod::lemma_mod_division_less_than_divisor(a0 * t, r0);
    vstd::arithmetic::div_mod::lemma_fundamental_div_mod(a1 * t, r1);
    vstd::arithmetic::div_mod::lemma_mod_division_less_than_divisor(a1 * t, r1);
    assert((m0 + 1) * r0 > a0 * t) by (nonlinear_arith)
        requires
            a0 * t == r0 * m0 + (a0 * t) % r0,
            (a0 * t) % r0 < r0,
    ;
    assert((m1 + 1) * r1 > a1 * t) by (nonlinear_arith)
        requires
            a1 * t == r1 * m1 + (a1 * t) % r1,
            (a1 * t) % r1 < r1,
    ;
    if minted == m0 {
        assert(minted * r1 <= m1 * r1) by (nonlinear_arith)
            requires
                minted <= m1,
                r1 > 0,
        ;
        assert(m1 * r1 <= a1 * t) by {
            crate::math::lemma_div_mul_le(a1 * t, r1);
        }
    } else {
        assert(minted * r0 <= m0 * r0) by (nonlinear_arith)
            requires
                minted <= m0,
                r0 > 0,
        ;
    }
}

} // verus!
