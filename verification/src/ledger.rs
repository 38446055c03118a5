use vstd::prelude::*;

use crate::errors::AmmError;
use crate::OpResult;

verus! {

/// A token type's global metadata. A mint slot starts uninitialized; a
/// successful `initialize_mint` fills it exactly once.
#[derive(Clone, Copy, Debug, PartialEq, Eq)]
pub struct Mint {
    /// False while the slot is still empty backing storage.
    pub initialized: bool,
    /// Number of base-10 digits to the right of the decimal point.
    pub decimals: u8,
    /// The identity allowed to mint new tokens, or `None` once revoked.
    pub authority: Option<u64>,
    /// Total number of tokens of this mint in existence. Equal to the sum
    /// of the balances of all accounts that reference this mint.
    pub supply: u64,
}

/// One holder's balance of one mint. An account slot starts uninitialized;
/// a successful `initialize_account` binds it to a mint and an owner.
#[derive(Clone, Copy, Debug, PartialEq, Eq)]
pub struct TokenAccount {
    /// False while the slot is still empty backing storage.
    pub initialized: bool,
    /// Index of the mint slot this account holds tokens of.
    pub mint: usize,
    /// The identity that may authorize debits from this account.
    pub owner: u64,
    /// Number of tokens held.
    pub balance: u64,
}

/// The record store: every mint slot and token-account slot an operation may
/// name, passed by reference into each operation. There is no process-wide
/// registry; the caller owns the store and serializes access to it.
pub struct Ledger {
    pub mints: Vec<Mint>,
    pub accounts: Vec<TokenAccount>,
}

/// The contribution of one account record to the supply of mint `m`:
/// its balance when it is an initialized account of that mint, else zero.
pub open spec fn balance_toward(a: TokenAccount, m: int) -> int {
    if a.initialized && a.mint == m {
        a.balance as int
    } else {
        0
    }
}

/// Sum of the balances of all initialized accounts that reference mint `m`.
pub open spec fn sum_balances(accounts: Seq<TokenAccount>, m: int) -> int
    decreases accounts.len(),
{
    if accounts.len() == 0 {
        0
    } else {
        sum_balances(accounts.drop_last(), m) + balance_toward(accounts.last(), m)
    }
}

/// Changing one record changes each mint's balance sum by exactly the
/// difference of that record's contribution.
pub proof fn lemma_sum_update(accounts: Seq<TokenAccount>, i: int, a: TokenAccount, m: int)
    requires
        0 <= i < accounts.len(),
    ensures
        sum_balances(accounts.update(i, a), m) == sum_balances(accounts, m)
            - balance_toward(accounts[i], m) + balance_toward(a, m),
    decreases accounts.len(),
{
    let updated = accounts.update(i, a);
    if i == accounts.len() - 1 {
        assert(updated.drop_last() =~= accounts.drop_last());
    } else {
        assert(updated.drop_last() =~= accounts.drop_last().update(i, a));
        lemma_sum_update(accounts.drop_last(), i, a, m);
    }
}

/// Appending a record adds exactly that record's contribution to each sum.
pub proof fn lemma_sum_push(accounts: Seq<TokenAccount>, a: TokenAccount, m: int)
    ensures
        sum_balances(accounts.push(a), m) == sum_balances(accounts, m) + balance_toward(a, m),
{
    assert(accounts.push(a).drop_last() =~= accounts);
}

/// A mint that no initialized account references has a zero balance sum.
pub proof fn lemma_sum_no_contributors(accounts: Seq<TokenAccount>, m: int)
    requires
        forall|i: int| 0 <= i < accounts.len()
            ==> !(#[trigger] accounts[i].initialized && accounts[i].mint == m),
    ensures
        sum_balances(accounts, m) == 0,
    decreases accounts.len(),
{
    if accounts.len() > 0 {
        lemma_sum_no_contributors(accounts.drop_last(), m);
    }
}

/// A balance sum is never negative.
pub proof fn lemma_sum_nonneg(accounts: Seq<TokenAccount>, m: int)
    ensures
        sum_balances(accounts, m) >= 0,
    decreases accounts.len(),
{
    if accounts.len() > 0 {
        lemma_sum_nonneg(accounts.drop_last(), m);
    }
}

/// Each contributing record's balance is at most the whole sum.
pub proof fn lemma_balance_le_sum(accounts: Seq<TokenAccount>, i: int, m: int)
    requires
        0 <= i < accounts.len(),
        accounts[i].initialized,
        accounts[i].mint == m,
    ensures
        accounts[i].balance as int <= sum_balances(accounts, m),
    decreases accounts.len(),
{
    if i == accounts.len() - 1 {
        lemma_sum_nonneg(accounts.drop_last(), m);
    } else {
        lemma_balance_le_sum(accounts.drop_last(), i, m);
    }
}

/// The outcome a transfer is obliged to produce: the debited record, then the
/// credited record, written back in that order. Writing the debit first makes
/// a transfer from an account to itself leave the balance unchanged.
pub open spec fn spec_transfer_accounts(
    accounts: Seq<TokenAccount>,
    source: int,
    destination: int,
    amount: u64,
) -> Seq<TokenAccount> {
    let s = accounts[source];
    let debited = TokenAccount { balance: (s.balance - amount) as u64, ..s };
    let after_debit = accounts.update(source, debited);
    let d = after_debit[destination];
    let credited = TokenAccount { balance: (d.balance + amount) as u64, ..d };
    after_debit.update(destination, credited)
}

/// The first precondition of a transfer that the given state violates, or
/// `None` when the transfer must succeed. Checks run in this order:
/// initialization of both sides, mint agreement, ownership, funds, overflow.
pub open spec fn spec_transfer_error(
    l: Ledger,
    source: int,
    destination: int,
    amount: u64,
    caller: u64,
) -> Option<AmmError> {
    let s = l.accounts@[source];
    let d = l.accounts@[destination];
    if !s.initialized || !d.initialized {
        Some(AmmError::UninitializedAccount)
    } else if s.mint != d.mint {
        Some(AmmError::MintMismatch)
    } else if caller != s.owner {
        Some(AmmError::Unauthorized)
    } else if s.balance < amount {
        Some(AmmError::InsufficientFunds)
    } else if source != destination && d.balance + amount > u64::MAX {
        Some(AmmError::ArithmeticOverflow)
    } else {
        None
    }
}

/// The first precondition of minting `amount` into account `account` that the
/// given state violates, or `None` when the mint must succeed. `share_mint`
/// is the mint the caller intends to issue; crediting an account of another
/// mint is refused so that supply moves only where the caller meant it to.
pub open spec fn spec_mint_to_error(
    l: Ledger,
    account: int,
    intended_mint: int,
    amount: u64,
) -> Option<AmmError> {
    let a = l.accounts@[account];
    if !a.initialized {
        Some(AmmError::UninitializedAccount)
    } else if a.mint != intended_mint {
        Some(AmmError::MintMismatch)
    } else if l.mints@[intended_mint].supply + amount > u64::MAX {
        Some(AmmError::ArithmeticOverflow)
    } else {
        None
    }
}

/// The first precondition of burning `amount` from account `account` of mint
/// `intended_mint` that the given state violates, or `None`.
pub open spec fn spec_burn_from_error(
    l: Ledger,
    account: int,
    intended_mint: int,
    amount: u64,
) -> Option<AmmError> {
    let a = l.accounts@[account];
    if !a.initialized {
        Some(AmmError::UninitializedAccount)
    } else if a.mint != intended_mint {
        Some(AmmError::MintMismatch)
    } else if a.balance < amount {
        Some(AmmError::InsufficientFunds)
    } else {
        None
    }
}

impl Ledger {
    /// An initialized account references an initialized mint of this store,
    /// and an uninitialized account holds nothing.
    pub open spec fn account_wf(self, i: int) -> bool {
        let a = self.accounts@[i];
        &&& a.initialized ==> (a.mint as int) < self.mints@.len()
            && self.mints@[a.mint as int].initialized
        &&& !a.initialized ==> a.balance == 0
    }

    /// Conservation for one mint: its recorded total supply equals the sum
    /// of the balances of all accounts that reference it.
    pub open spec fn supply_wf(self, m: int) -> bool {
        self.mints@[m].supply as int == sum_balances(self.accounts@, m)
    }

    /// The ledger invariant: every account is well formed and every mint's
    /// supply is conserved. Every operation requires and preserves it.
    pub open spec fn wf(self) -> bool {
        &&& forall|i: int| 0 <= i < self.accounts@.len() ==> #[trigger] self.account_wf(i)
        &&& forall|m: int| 0 <= m < self.mints@.len() ==> #[trigger] self.supply_wf(m)
    }

    /// An empty record store.
    pub fn new() -> (l: Ledger)
        ensures
            l.wf(),
            l.mints@.len() == 0,
            l.accounts@.len() == 0,
    {
        Ledger { mints: Vec::new(), accounts: Vec::new() }
    }

    /// Adds one empty mint slot (empty backing storage the host allocated)
    /// and returns its index.
    pub fn add_mint_slot(&mut self) -> (slot: usize)
        requires
            old(self).wf(),
        ensures
            final(self).wf(),
            slot == old(self).mints@.len(),
            final(self).mints@ == old(self).mints@.push(
                (Mint { initialized: false, decimals: 0, authority: None, supply: 0 }),
            ),
            final(self).accounts@ == old(self).accounts@,
    {
        let slot = self.mints.len();
        self.mints.push(Mint { initialized: false, decimals: 0, authority: None, supply: 0 });
        proof {
            let new_m = self.mints@.len() - 1;
            assert forall|i: int| 0 <= i < self.accounts@.len()
                implies !(#[trigger] self.accounts@[i].initialized
                    && self.accounts@[i].mint == new_m) by {
                assert(old(self).account_wf(i));
            }
            lemma_sum_no_contributors(self.accounts@, new_m);
            assert forall|m: int| 0 <= m < new_m implies #[trigger] self.supply_wf(m) by {
                assert(old(self).supply_wf(m));
            }
            assert(forall|i: int| 0 <= i < self.accounts@.len()
                ==> old(self).account_wf(i) == #[trigger] self.account_wf(i));
        }
        slot
    }

    /// Adds one empty token-account slot and returns its index.
    pub fn add_account_slot(&mut self) -> (slot: usize)
        requires
            old(self).wf(),
        ensures
            final(self).wf(),
            slot == old(self).accounts@.len(),
            final(self).accounts@ == old(self).accounts@.push(
                (TokenAccount { initialized: false, mint: 0, owner: 0, balance: 0 }),
            ),
            final(self).mints@ == old(self).mints@,
    {
        let slot = self.accounts.len();
        self.accounts.push(TokenAccount { initialized: false, mint: 0, owner: 0, balance: 0 });
        proof {
            assert forall|m: int| 0 <= m < self.mints@.len() implies #[trigger] self.supply_wf(m) by {
                assert(old(self).supply_wf(m));
                lemma_sum_push(old(self).accounts@, self.accounts@.last(), m);
            }
            assert(forall|i: int| 0 <= i < old(self).accounts@.len()
                ==> old(self).account_wf(i) == #[trigger] self.account_wf(i));
        }
        slot
    }

    /// Creates the token type held by mint slot `slot`.
    ///
    /// The host's account-resolution service supplies the slot's backing
    /// lamport balance and the rent oracle's minimum for a mint-sized slot;
    /// the slot is refused while that balance is below the minimum.
    pub fn initialize_mint(
        &mut self,
        slot: usize,
        decimals: u8,
        authority: Option<u64>,
        slot_lamports: u64,
        rent_minimum: u64,
    ) -> (r: OpResult)
        requires
            old(self).wf(),
            slot < old(self).mints@.len(),
        ensures
            final(self).wf(),
            final(self).accounts@ == old(self).accounts@,
            final(self).mints@.len() == old(self).mints@.len(),
            r.is_err() ==> *final(self) == *old(self),
            old(self).mints@[slot as int].initialized
                ==> r == Err::<(), AmmError>(AmmError::AlreadyInitialized),
            !old(self).mints@[slot as int].initialized && slot_lamports < rent_minimum
                ==> r == Err::<(), AmmError>(AmmError::NotRentExempt),
            !old(self).mints@[slot as int].initialized && slot_lamports >= rent_minimum ==> {
                &&& r == Ok::<(), AmmError>(())
                &&& final(self).mints@ == old(self).mints@.update(slot as int,
                    (Mint { initialized: true, decimals, authority, supply: 0 }))
            },
    {
        if self.mints[slot].initialized {
            return Err(AmmError::AlreadyInitialized);
        }
        if slot_lamports < rent_minimum {
            return Err(AmmError::NotRentExempt);
        }
        self.mints[slot] = Mint { initialized: true, decimals, authority, supply: 0 };
        proof {
            // No initialized account can reference a mint slot that was
            // uninitialized, so the new mint's balance sum is zero.
            assert forall|i: int| 0 <= i < self.accounts@.len()
                implies !(#[trigger] self.accounts@[i].initialized
                    && self.accounts@[i].mint == slot as int) by {
                assert(old(self).account_wf(i));
            }
            lemma_sum_no_contributors(self.accounts@, slot as int);
            assert(self.supply_wf(slot as int));
            assert forall|i: int| 0 <= i < self.accounts@.len()
                implies #[trigger] self.account_wf(i) by {
                assert(old(self).account_wf(i));
            }
            assert(forall|m: int| 0 <= m < self.mints@.len() && m != slot as int
                ==> old(self).supply_wf(m) == #[trigger] self.supply_wf(m));
        }
        Ok(())
    }

    /// Binds account slot `slot` to a mint and an owner with a zero balance.
    pub fn initialize_account(&mut self, slot: usize, mint: usize, owner: u64) -> (r: OpResult)
        requires
            old(self).wf(),
            slot < old(self).accounts@.len(),
        ensures
            final(self).wf(),
            final(self).mints@ == old(self).mints@,
            final(self).accounts@.len() == old(self).accounts@.len(),
            r.is_err() ==> *final(self) == *old(self),
            old(self).accounts@[slot as int].initialized
                ==> r == Err::<(), AmmError>(AmmError::AlreadyInitialized),
            !old(self).accounts@[slot as int].initialized
                && !(mint < old(self).mints@.len() && old(self).mints@[mint as int].initialized)
                ==> r == Err::<(), AmmError>(AmmError::InvalidMint),
            !old(self).accounts@[slot as int].initialized
                && mint < old(self).mints@.len() && old(self).mints@[mint as int].initialized ==> {
                &&& r == Ok::<(), AmmError>(())
                &&& final(self).accounts@ == old(self).accounts@.update(slot as int,
                    (TokenAccount { initialized: true, mint, owner, balance: 0 }))
            },
    {
        if self.accounts[slot].initialized {
            return Err(AmmError::AlreadyInitialized);
        }
        if !(mint < self.mints.len() && self.mints[mint].initialized) {
            return Err(AmmError::InvalidMint);
        }
        self.accounts[slot] = TokenAccount { initialized: true, mint, owner, balance: 0 };
        proof {
            assert forall|m: int| 0 <= m < self.mints@.len()
                implies #[trigger] self.supply_wf(m) by {
                assert(old(self).supply_wf(m));
                assert(old(self).account_wf(slot as int));
                lemma_sum_update(old(self).accounts@, slot as int, self.accounts@[slot as int], m);
            }
            assert forall|i: int| 0 <= i < self.accounts@.len()
                implies #[trigger] self.account_wf(i) by {
                assert(old(self).account_wf(i));
            }
        }
        Ok(())
    }

    /// The error `transfer` would fail with in the current state, if any.
    /// Lets a compound operation validate every step before mutating, so the
    /// whole operation commits or nothing does.
    pub fn transfer_check(
        &self,
        source: usize,
        destination: usize,
        amount: u64,
        caller: u64,
    ) -> (r: Option<AmmError>)
        requires
            source < self.accounts@.len(),
            destination < self.accounts@.len(),
        ensures
            r == spec_transfer_error(*self, source as int, destination as int, amount, caller),
    {
        let s = self.accounts[source];
        let d = self.accounts[destination];
        if !s.initialized || !d.initialized {
            Some(AmmError::UninitializedAccount)
        } else if s.mint != d.mint {
            Some(AmmError::MintMismatch)
        } else if caller != s.owner {
            Some(AmmError::Unauthorized)
        } else if s.balance < amount {
            Some(AmmError::InsufficientFunds)
        } else if source != destination && amount > u64::MAX - d.balance {
            Some(AmmError::ArithmeticOverflow)
        } else {
            None
        }
    }

    /// The error `mint_to` would fail with in the current state, if any.
    pub fn mint_to_check(&self, account: usize, intended_mint: usize, amount: u64) -> (r: Option<
        AmmError,
    >)
        requires
            account < self.accounts@.len(),
            intended_mint < self.mints@.len(),
        ensures
            r == spec_mint_to_error(*self, account as int, intended_mint as int, amount),
    {
        let a = self.accounts[account];
        if !a.initialized {
            Some(AmmError::UninitializedAccount)
        } else if a.mint != intended_mint {
            Some(AmmError::MintMismatch)
        } else if amount > u64::MAX - self.mints[intended_mint].supply {
            Some(AmmError::ArithmeticOverflow)
        } else {
            None
        }
    }

    /// Moves `amount` tokens from `source` to `destination`, debiting and
    /// crediting as one atomic unit: either both records reflect the move or,
    /// on any failure, neither does. `caller` is the identity the host has
    /// already verified as a signer; it must own the source account.
    pub fn transfer(
        &mut self,
        source: usize,
        destination: usize,
        amount: u64,
        caller: u64,
    ) -> (r: OpResult)
        requires
            old(self).wf(),
            source < old(self).accounts@.len(),
            destination < old(self).accounts@.len(),
        ensures
            final(self).wf(),
            final(self).mints@ == old(self).mints@,
            final(self).accounts@.len() == old(self).accounts@.len(),
            match spec_transfer_error(*old(self), source as int, destination as int, amount, caller) {
                Some(e) => r == Err::<(), AmmError>(e) && *final(self) == *old(self),
                None => r == Ok::<(), AmmError>(()) && final(self).accounts@
                    == spec_transfer_accounts(old(self).accounts@, source as int, destination as int, amount),
            },
    {
        let s = self.accounts[source];
        let d = self.accounts[destination];
        if !s.initialized || !d.initialized {
            return Err(AmmError::UninitializedAccount);
        }
        if s.mint != d.mint {
            return Err(AmmError::MintMismatch);
        }
        if caller != s.owner {
            return Err(AmmError::Unauthorized);
        }
        if s.balance < amount {
            return Err(AmmError::InsufficientFunds);
        }
        if source != destination && amount > u64::MAX - d.balance {
            return Err(AmmError::ArithmeticOverflow);
        }
        let debited = TokenAccount { balance: s.balance - amount, ..s };
        self.accounts[source] = debited;
        let d2 = self.accounts[destination];
        self.accounts[destination] = TokenAccount { balance: d2.balance + amount, ..d2 };
        proof {
            let s0 = old(self).accounts@;
            let s1 = s0.update(source as int, debited);
            let credited = self.accounts@[destination as int];
            assert forall|m: int| 0 <= m < self.mints@.len()
                implies #[trigger] self.supply_wf(m) by {
                assert(old(self).supply_wf(m));
                lemma_sum_update(s0, source as int, debited, m);
                lemma_sum_update(s1, destination as int, credited, m);
            }
            assert forall|i: int| 0 <= i < self.accounts@.len()
                implies #[trigger] self.account_wf(i) by {
                assert(old(self).account_wf(i));
                assert(old(self).account_wf(source as int));
                assert(old(self).account_wf(destination as int));
            }
        }
        Ok(())
    }

    /// Issues `amount` new tokens of `intended_mint` into `account`, raising
    /// the account balance and the mint's total supply together. Used by the
    /// pool to issue liquidity shares; authorization over the share mint is
    /// the pool's, so no signer check happens here.
    pub fn mint_to(&mut self, account: usize, intended_mint: usize, amount: u64) -> (r: OpResult)
        requires
            old(self).wf(),
            account < old(self).accounts@.len(),
            intended_mint < old(self).mints@.len(),
        ensures
            final(self).wf(),
            final(self).mints@.len() == old(self).mints@.len(),
            final(self).accounts@.len() == old(self).accounts@.len(),
            match spec_mint_to_error(*old(self), account as int, intended_mint as int, amount) {
                Some(e) => r == Err::<(), AmmError>(e) && *final(self) == *old(self),
                None => {
                    let a = old(self).accounts@[account as int];
                    let m = old(self).mints@[intended_mint as int];
                    &&& r == Ok::<(), AmmError>(())
                    &&& final(self).accounts@ == old(self).accounts@.update(account as int,
                        (TokenAccount { balance: (a.balance + amount) as u64, ..a }))
                    &&& final(self).mints@ == old(self).mints@.update(intended_mint as int,
                        (Mint { supply: (m.supply + amount) as u64, ..m }))
                },
            },
    {
        let a = self.accounts[account];
        if !a.initialized {
            return Err(AmmError::UninitializedAccount);
        }
        if a.mint != intended_mint {
            return Err(AmmError::MintMismatch);
        }
        let m = self.mints[intended_mint];
        if amount > u64::MAX - m.supply {
            return Err(AmmError::ArithmeticOverflow);
        }
        proof {
            // The account's balance is part of the supply sum, so it cannot
            // overflow when the supply itself does not.
            assert(old(self).supply_wf(intended_mint as int));
            lemma_balance_le_sum(old(self).accounts@, account as int, intended_mint as int);
        }
        self.accounts[account] = TokenAccount { balance: a.balance + amount, ..a };
        self.mints[intended_mint] = Mint { supply: m.supply + amount, ..m };
        proof {
            let credited = self.accounts@[account as int];
            assert forall|mm: int| 0 <= mm < self.mints@.len()
                implies #[trigger] self.supply_wf(mm) by {
                assert(old(self).supply_wf(mm));
                lemma_sum_update(old(self).accounts@, account as int, credited, mm);
            }
            assert forall|i: int| 0 <= i < self.accounts@.len()
                implies #[trigger] self.account_wf(i) by {
                assert(old(self).account_wf(i));
                assert(old(self).account_wf(account as int));
            }
        }
        Ok(())
    }

    /// Destroys `amount` tokens of `intended_mint` held by `account`,
    /// lowering the account balance and the mint's total supply together.
    /// Used by the pool to redeem liquidity shares.
    pub fn burn_from(&mut self, account: usize, intended_mint: usize, amount: u64) -> (r: OpResult)
        requires
            old(self).wf(),
            account < old(self).accounts@.len(),
            intended_mint < old(self).mints@.len(),
        ensures
            final(self).wf(),
            final(self).mints@.len() == old(self).mints@.len(),
            final(self).accounts@.len() == old(self).accounts@.len(),
            match spec_burn_from_error(*old(self), account as int, intended_mint as int, amount) {
                Some(e) => r == Err::<(), AmmError>(e) && *final(self) == *old(self),
                None => {
                    let a = old(self).accounts@[account as int];
                    let m = old(self).mints@[intended_mint as int];
                    &&& r == Ok::<(), AmmError>(())
                    &&& final(self).accounts@ == old(self).accounts@.update(account as int,
                        (TokenAccount { balance: (a.balance - amount) as u64, ..a }))
                    &&& final(self).mints@ == old(self).mints@.update(intended_mint as int,
                        (Mint { supply: (m.supply - amount) as u64, ..m }))
                },
            },
    {
        let a = self.accounts[account];
        if !a.initialized {
            return Err(AmmError::UninitializedAccount);
        }
        if a.mint != intended_mint {
            return Err(AmmError::MintMismatch);
        }
        if a.balance < amount {
            return Err(AmmError::InsufficientFunds);
        }
        proof {
            // The supply is at least this one balance, so the debit cannot
            // drive it negative.
            assert(old(self).supply_wf(intended_mint as int));
            lemma_balance_le_sum(old(self).accounts@, account as int, intended_mint as int);
        }
        let m = self.mints[intended_mint];
        self.accounts[account] = TokenAccount { balance: a.balance - amount, ..a };
        self.mints[intended_mint] = Mint { supply: m.supply - amount, ..m };
        proof {
            let debited = self.accounts@[account as int];
            assert forall|mm: int| 0 <= mm < self.mints@.len()
                implies #[trigger] self.supply_wf(mm) by {
                assert(old(self).supply_wf(mm));
                lemma_sum_update(old(self).accounts@, account as int, debited, mm);
            }
            assert forall|i: int| 0 <= i < self.accounts@.len()
                implies #[trigger] self.account_wf(i) by {
                assert(old(self).account_wf(i));
                assert(old(self).account_wf(account as int));
            }
        }
        Ok(())
    }
}

/// Conservation, stated on its own: in a well-formed ledger the recorded
/// total supply of every mint equals the sum of all account balances that
/// reference it, so no sequence of successful operations can create or
/// destroy value.
pub proof fn lemma_conservation(l: Ledger, m: int)
    requires
        l.wf(),
        0 <= m < l.mints@.len(),
    ensures
        l.mints@[m].supply as int == sum_balances(l.accounts@, m),
{
    assert(l.supply_wf(m));
}

/// No account can hold more than its mint's total supply.
pub proof fn lemma_balance_le_supply(l: Ledger, i: int)
    requires
        l.wf(),
        0 <= i < l.accounts@.len(),
        l.accounts@[i].initialized,
    ensures
        l.accounts@[i].balance <= l.mints@[l.accounts@[i].mint as int].supply,
{
    let m = l.accounts@[i].mint as int;
    assert(l.account_wf(i));
    assert(l.supply_wf(m));
    lemma_balance_le_sum(l.accounts@, i, m);
}

} // verus!
