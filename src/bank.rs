//! The bank: free, reserved and locked balances, their locks and unlock schedule,
//! interest, and reaping of dust accounts.
use vstd::prelude::*;

use crate::arith::{
    fixed_apply, fixed_from_perbill, fixed_from_rational, fixed_pow, fixed_saturating_mul_int,
    fixed_saturating_pow, FIXED_ONE,
    perbill_apply, perbill_from_rational, perbill_mul, perbill_mul_balance, perbill_product,
    perbill_ratio, lemma_perbill_product_bound, lemma_perbill_product_zero, lemma_perbill_ratio_bound,
    PERBILL_ONE,
};
use crate::roles::{role_check, Roles};
use crate::types::{AccountId, Balance, BlockNumber, Error, LockId, Role};

verus! {

/// Why a fund is locked; this decides where it goes when it is released.
#[derive(Clone, Copy, Debug, PartialEq, Eq, Structural)]
pub enum LockReason {
    Stake,
    Redeem,
    Auditor,
}

/// What released a locked fund.
#[derive(Clone, Copy, Debug, PartialEq, Eq, Structural)]
pub enum UnlockReason {
    Expired,
    Auditor,
}

/// An amount set aside on an account until it is released.
#[derive(Clone, Copy, Debug, PartialEq, Eq, Structural)]
pub struct LockedFund {
    pub id: LockId,
    pub amount: Balance,
    pub reason: LockReason,
}

/// The balances of one account.
#[derive(Clone, Debug, PartialEq, Eq, Default)]
pub struct AccountData {
    pub free: Balance,
    pub reserved: Balance,
    pub locked: Vec<LockedFund>,
}

/// The mathematical value of an `AccountData`.
pub struct AccountState {
    pub free: Balance,
    pub reserved: Balance,
    pub locked: Seq<LockedFund>,
}

/// The sum of the amounts of `s`.
pub open spec fn locked_sum(s: Seq<LockedFund>) -> int
    decreases s.len(),
{
    if s.len() == 0 {
        0
    } else {
        locked_sum(s.drop_last()) + s.last().amount
    }
}

impl AccountState {
    /// The balance of an account with no entry.
    pub open spec fn zero() -> AccountState {
        AccountState { free: 0, reserved: 0, locked: Seq::empty() }
    }

    /// Free, reserved and locked together.
    pub open spec fn total(self) -> int {
        self.free + self.reserved + locked_sum(self.locked)
    }
}

impl View for AccountData {
    type V = AccountState;

    open spec fn view(&self) -> AccountState {
        AccountState { free: self.free, reserved: self.reserved, locked: self.locked@ }
    }
}

/// The sum of the totals of the entries of `s`.
pub open spec fn ledger_sum(s: Seq<(AccountId, AccountData)>) -> int
    decreases s.len(),
{
    if s.len() == 0 {
        0
    } else {
        ledger_sum(s.drop_last()) + s.last().1@.total()
    }
}

/// The ids of `locked` are distinct, and none is above `next`.
pub open spec fn locks_fresh(locked: Seq<LockedFund>, next: LockId) -> bool {
    &&& forall|k: int| 0 <= k < locked.len() ==> locked[k].id <= next
    &&& forall|a: int, b: int| 0 <= a < b < locked.len() ==> locked[a].id != locked[b].id
}

/// Where a released fund goes: `true` for reserved, `false` for free.
pub open spec fn releases_to_reserved(reason: LockReason) -> bool {
    reason == LockReason::Stake
}

proof fn lemma_locked_nonneg(s: Seq<LockedFund>)
    ensures
        locked_sum(s) >= 0,
    decreases s.len(),
{
    if s.len() > 0 {
        lemma_locked_nonneg(s.drop_last());
    }
}

proof fn lemma_locked_push(s: Seq<LockedFund>, f: LockedFund)
    ensures
        locked_sum(s.push(f)) == locked_sum(s) + f.amount,
{
    assert(s.push(f).drop_last() =~= s);
}

proof fn lemma_locked_remove(s: Seq<LockedFund>, i: int)
    requires
        0 <= i < s.len(),
    ensures
        locked_sum(s.remove(i)) == locked_sum(s) - s[i].amount,
    decreases s.len(),
{
    if i == s.len() - 1 {
        assert(s.remove(i) =~= s.drop_last());
    } else {
        lemma_locked_remove(s.drop_last(), i);
        assert(s.remove(i).drop_last() =~= s.drop_last().remove(i));
    }
}

proof fn lemma_ledger_update(s: Seq<(AccountId, AccountData)>, i: int, e: (AccountId, AccountData))
    requires
        0 <= i < s.len(),
    ensures
        ledger_sum(s.update(i, e)) == ledger_sum(s) - s[i].1@.total() + e.1@.total(),
    decreases s.len(),
{
    let t = s.update(i, e);
    if i == s.len() - 1 {
        assert(t.drop_last() =~= s.drop_last());
    } else {
        lemma_ledger_update(s.drop_last(), i, e);
        assert(t.drop_last() =~= s.drop_last().update(i, e));
    }
}

proof fn lemma_ledger_remove(s: Seq<(AccountId, AccountData)>, i: int)
    requires
        0 <= i < s.len(),
    ensures
        ledger_sum(s.remove(i)) == ledger_sum(s) - s[i].1@.total(),
    decreases s.len(),
{
    if i == s.len() - 1 {
        assert(s.remove(i) =~= s.drop_last());
    } else {
        lemma_ledger_remove(s.drop_last(), i);
        assert(s.remove(i).drop_last() =~= s.drop_last().remove(i));
    }
}

proof fn lemma_ledger_push(s: Seq<(AccountId, AccountData)>, e: (AccountId, AccountData))
    ensures
        ledger_sum(s.push(e)) == ledger_sum(s) + e.1@.total(),
{
    assert(s.push(e).drop_last() =~= s);
}

proof fn lemma_ledger_elem(s: Seq<(AccountId, AccountData)>, i: int)
    requires
        0 <= i < s.len(),
    ensures
        0 <= s[i].1@.total() <= ledger_sum(s),
    decreases s.len(),
{
    lemma_locked_nonneg(s[i].1@.locked);
    if i < s.len() - 1 {
        lemma_ledger_elem(s.drop_last(), i);
        lemma_locked_nonneg(s.last().1@.locked);
    } else {
        lemma_ledger_nonneg(s.drop_last());
    }
}

proof fn lemma_ledger_nonneg(s: Seq<(AccountId, AccountData)>)
    ensures
        ledger_sum(s) >= 0,
    decreases s.len(),
{
    if s.len() > 0 {
        lemma_ledger_nonneg(s.drop_last());
        lemma_locked_nonneg(s.last().1@.locked);
    }
}

/// The bank's constants.
#[derive(Clone, Copy, Debug, PartialEq, Eq, Structural)]
pub struct BankConfig {
    /// An account whose total falls below this is reaped.
    pub existential_deposit: Balance,
    /// The smallest amount that may be deposited, withdrawn, transferred, staked or redeemed.
    pub minimum_amount: Balance,
    /// Blocks that redeemed funds stay locked.
    pub redeem_period: BlockNumber,
    /// Blocks that staked funds stay locked.
    pub stake_period: BlockNumber,
    /// Interest is paid on every block that is a multiple of this.
    pub interest_payout_period: BlockNumber,
    /// Blocks in a year.
    pub total_blocks_per_year: BlockNumber,
}

impl BankConfig {
    /// The constants are consistent with one another.
    pub open spec fn valid(self) -> bool {
        &&& self.minimum_amount >= self.existential_deposit
        &&& 0 < self.interest_payout_period
        &&& self.interest_payout_period <= self.stake_period
        &&& self.interest_payout_period <= self.redeem_period
        &&& self.total_blocks_per_year != 0
    }
}

/// An unlock due at block `at` for the lock `lock_id` of `who`.
#[derive(Clone, Copy, Debug, PartialEq, Eq, Structural)]
pub struct ScheduledUnlock {
    pub at: BlockNumber,
    pub who: AccountId,
    pub lock_id: LockId,
}

/// What the bank reports.
#[derive(Clone, Copy, Debug, PartialEq, Eq, Structural)]
pub enum BankEvent {
    Deposited { user: AccountId, amount: Balance },
    Withdrew { user: AccountId, amount: Balance },
    Transferred { from: AccountId, to: AccountId, amount: Balance },
    Reaped { user: AccountId, dust: Balance },
    Locked { user: AccountId, amount: Balance, length: BlockNumber, reason: LockReason },
    Unlocked { user: AccountId, amount: Balance, reason: UnlockReason },
    InterestRateSet { manager: AccountId, old_interest_rate: u32, new_interest_rate: u32 },
    InterestPayed { interest_rate: u32, total_interest_payed: Balance },
    TreasuryAccountRotated { old: Option<AccountId>, new: AccountId },
}

/// The ledger of all accounts.
pub struct Bank {
    pub config: BankConfig,
    /// Each account with an entry, at most once, in order of creation.
    pub accounts: Vec<(AccountId, AccountData)>,
    /// All the currency in existence.
    pub total_issuance: Balance,
    /// Unlocks still to come, in order of scheduling.
    pub unlock_schedule: Vec<ScheduledUnlock>,
    /// The id that the last lock was given.
    pub next_lock_id: LockId,
    /// The yearly interest rate on reserved funds, in parts per billion.
    pub interest_rate: u32,
    /// Where dust goes when accounts are reaped.
    pub treasury: Option<AccountId>,
    /// Every event emitted so far, oldest first.
    pub events: Vec<BankEvent>,
}

impl Bank {
    pub open spec fn keys_unique(&self) -> bool {
        forall|i: int, j: int|
            0 <= i < j < self.accounts@.len() ==> self.accounts@[i].0 != self.accounts@[j].0
    }

    /// The total issuance equals the sum of all account totals.
    pub open spec fn conserves(&self) -> bool {
        self.total_issuance == ledger_sum(self.accounts@)
    }

    pub open spec fn wf(&self) -> bool {
        &&& self.config.valid()
        &&& self.keys_unique()
        &&& self.conserves()
        &&& self.interest_rate <= PERBILL_ONE
        &&& self.locks_valid()
    }

    /// On every account the lock ids are distinct and none is above the last id given.
    pub open spec fn locks_valid(&self) -> bool {
        forall|i: int|
            #![trigger self.accounts@[i]]
            0 <= i < self.accounts@.len() ==> locks_fresh(self.accounts@[i].1@.locked, self.next_lock_id)
    }

    proof fn lemma_account_locks(&self, who: AccountId)
        requires
            self.keys_unique(),
            self.locks_valid(),
        ensures
            locks_fresh(self.account(who).locked, self.next_lock_id),
    {
        if self.has_account(who) {
            let i = choose|i: int| 0 <= i < self.accounts@.len() && self.accounts@[i].0 == who;
            assert(locks_fresh(self.accounts@[i].1@.locked, self.next_lock_id));
        }
    }

    pub open spec fn has_account(&self, who: AccountId) -> bool {
        exists|i: int| 0 <= i < self.accounts@.len() && self.accounts@[i].0 == who
    }

    /// The balances of `who`; zero where it has no entry.
    pub open spec fn account(&self, who: AccountId) -> AccountState {
        if self.has_account(who) {
            let i = choose|i: int| 0 <= i < self.accounts@.len() && self.accounts@[i].0 == who;
            self.accounts@[i].1@
        } else {
            AccountState::zero()
        }
    }

    /// Everything but the ledger and the events is as in `old`.
    pub open spec fn same_settings(&self, old: &Bank) -> bool {
        &&& self.config == old.config
        &&& self.unlock_schedule@ == old.unlock_schedule@
        &&& self.next_lock_id == old.next_lock_id
        &&& self.interest_rate == old.interest_rate
        &&& self.treasury == old.treasury
    }

    /// Only the entry of `who` differs from `old`, and it now holds `st`.
    pub open spec fn only_changed(&self, old: &Bank, who: AccountId, st: AccountState) -> bool {
        &&& self.has_account(who)
        &&& self.account(who) == st
        &&& forall|w: AccountId|
            w != who ==> self.has_account(w) == old.has_account(w) && self.account(w)
                == old.account(w)
    }

    proof fn lemma_account_bounded(&self, who: AccountId)
        requires
            self.keys_unique(),
        ensures
            0 <= self.account(who).total() <= ledger_sum(self.accounts@),
            self.account(who).free + self.account(who).reserved <= self.account(who).total(),
    {
        lemma_ledger_nonneg(self.accounts@);
        lemma_locked_nonneg(self.account(who).locked);
        if self.has_account(who) {
            let i = choose|i: int| 0 <= i < self.accounts@.len() && self.accounts@[i].0 == who;
            lemma_ledger_elem(self.accounts@, i);
        }
    }

    /// Two banks with the same ledger have the same accounts.
    proof fn lemma_same_ledger(&self, other: &Bank)
        requires
            self.accounts@ == other.accounts@,
        ensures
            forall|w: AccountId|
                self.has_account(w) == other.has_account(w) && self.account(w) == other.account(w),
            ledger_sum(self.accounts@) == ledger_sum(other.accounts@),
    {
    }

    /// A bank with no accounts.
    pub fn new(config: BankConfig) -> (r: Bank)
        requires
            config.valid(),
        ensures
            r.wf(),
            r.config == config,
            forall|w: AccountId| !r.has_account(w),
            r.total_issuance == 0,
            r.unlock_schedule@.len() == 0,
            r.next_lock_id == 0,
            r.interest_rate == 0,
            r.treasury is None,
            r.events@.len() == 0,
    {
        Bank {
            config,
            accounts: Vec::new(),
            total_issuance: 0,
            unlock_schedule: Vec::new(),
            next_lock_id: 0,
            interest_rate: 0,
            treasury: None,
            events: Vec::new(),
        }
    }

    fn find(&self, who: AccountId) -> (r: Option<usize>)
        requires
            self.keys_unique(),
        ensures
            match r {
                Some(i) => i < self.accounts@.len() && self.accounts@[i as int].0 == who
                    && self.has_account(who) && self.account(who) == self.accounts@[i as int].1@,
                None => !self.has_account(who),
            },
    {
        let mut i: usize = 0;
        while i < self.accounts.len()
            invariant
                self.keys_unique(),
                i <= self.accounts@.len(),
                forall|k: int| 0 <= k < i ==> self.accounts@[k].0 != who,
            decreases self.accounts@.len() - i,
        {
            if self.accounts[i].0 == who {
                proof {
                    let j = choose|j: int|
                        0 <= j < self.accounts@.len() && self.accounts@[j].0 == who;
                    assert(j == i as int);
                }
                return Some(i);
            }
            i = i + 1;
        }
        None
    }

    /// A copy of the balances of `who`; zero where it has no entry.
    pub fn accounts(&self, who: AccountId) -> (r: AccountData)
        requires
            self.keys_unique(),
        ensures
            r@ == self.account(who),
    {
        match self.find(who) {
            Some(i) => copy_account(&self.accounts[i].1),
            None => AccountData { free: 0, reserved: 0, locked: Vec::new() },
        }
    }

    /// Stores `data` as the balances of `who`, creating its entry where there is none.
    fn write_account(&mut self, who: AccountId, data: AccountData)
        requires
            old(self).keys_unique(),
        ensures
            final(self).keys_unique(),
            final(self).only_changed(old(self), who, data@),
            ledger_sum(final(self).accounts@) == ledger_sum(old(self).accounts@) - old(self).account(who).total() + data@.total(),
            final(self).same_settings(old(self)),
            final(self).config == old(self).config,
            final(self).total_issuance == old(self).total_issuance,
            final(self).events@ == old(self).events@,
            old(self).locks_valid() && locks_fresh(data@.locked, old(self).next_lock_id)
                ==> final(self).locks_valid(),
    {
        let ghost before = self.accounts@;
        let ghost st = data@;
        match self.find(who) {
            Some(i) => {
                self.accounts.set(i, (who, data));
                proof {
                    assert(self.accounts@ == before.update(i as int, (who, data)));
                    lemma_ledger_update(before, i as int, (who, data));
                    self.lemma_index_view(old(self), who, i as int);
                    assert forall|k: int| 0 <= k < before.len() && k != i implies self.accounts@[k] == before[k] by {}
                }
            },
            None => {
                self.accounts.push((who, data));
                proof {
                    lemma_ledger_push(before, (who, data));
                    self.lemma_index_view(old(self), who, before.len() as int);
                    assert forall|k: int| 0 <= k < before.len() implies self.accounts@[k] == before[k] by {}
                }
            },
        }
    }

    /// After entry `i` of the ledger became `who`'s, with every other entry kept, the views agree.
    proof fn lemma_index_view(&self, old: &Bank, who: AccountId, i: int)
        requires
            old.keys_unique(),
            0 <= i < self.accounts@.len(),
            self.accounts@[i].0 == who,
            self.accounts@.len() == old.accounts@.len() || (self.accounts@.len()
                == old.accounts@.len() + 1 && i == old.accounts@.len() && !old.has_account(who)),
            self.accounts@.len() == old.accounts@.len() ==> old.accounts@[i].0 == who,
            forall|k: int| 0 <= k < old.accounts@.len() && k != i ==> self.accounts@[k] == old.accounts@[k],
        ensures
            self.keys_unique(),
            self.has_account(who),
            self.account(who) == self.accounts@[i].1@,
            forall|w: AccountId|
                w != who ==> self.has_account(w) == old.has_account(w) && self.account(w)
                    == old.account(w),
    {
        let s = self.accounts@;
        assert forall|a: int, b: int| 0 <= a < b < s.len() implies s[a].0 != s[b].0 by {
            if a != i && b != i {
                assert(s[a] == old.accounts@[a] && s[b] == old.accounts@[b]);
            } else if a == i {
                if s.len() == old.accounts@.len() {
                    assert(s[b] == old.accounts@[b]);
                } else {
                    assert(false);
                }
            } else {
                if s.len() == old.accounts@.len() {
                    assert(s[a] == old.accounts@[a]);
                } else {
                    assert(s[a] == old.accounts@[a]);
                }
            }
        }
        let j = choose|j: int| 0 <= j < s.len() && s[j].0 == who;
        assert(s[i].0 == who);
        assert(j == i);
        assert forall|w: AccountId| w != who implies self.has_account(w) == old.has_account(w)
            && self.account(w) == old.account(w) by {
            if old.has_account(w) {
                let k = choose|k: int| 0 <= k < old.accounts@.len() && old.accounts@[k].0 == w;
                assert(k != i);
                assert(s[k] == old.accounts@[k]);
                let k2 = choose|k2: int| 0 <= k2 < s.len() && s[k2].0 == w;
                assert(k2 == k);
            }
            if self.has_account(w) {
                let k = choose|k: int| 0 <= k < s.len() && s[k].0 == w;
                assert(k != i);
                assert(s[k] == old.accounts@[k]);
            }
        }
    }
}

impl Bank {
    /// The outcome of minting `amount` into `user`'s free balance.
    pub open spec fn mint_result(&self, roles: &Roles, user: AccountId, amount: Balance) -> Result<
        (),
        Error,
    > {
        let rc = role_check(roles.role_of(user), Role::Customer);
        if rc is Err {
            rc
        } else if self.total_issuance + amount > u128::MAX {
            Err(Error::Overflow)
        } else {
            Ok(())
        }
    }

    /// The outcome of burning `amount` from `user`'s free balance.
    pub open spec fn burn_result(&self, roles: &Roles, user: AccountId, amount: Balance) -> Result<
        (),
        Error,
    > {
        let rc = role_check(roles.role_of(user), Role::Customer);
        if rc is Err {
            rc
        } else if self.account(user).free < amount {
            Err(Error::InsufficientBalance)
        } else {
            Ok(())
        }
    }

    /// The outcome of moving `amount` of free balance away from `from`.
    pub open spec fn move_result(&self, from: AccountId, amount: Balance) -> Result<(), Error> {
        if self.account(from).free < amount {
            Err(Error::InsufficientBalance)
        } else {
            Ok(())
        }
    }

    /// The ledger is `old`'s with `amount` added to the free balance of `who`.
    pub open spec fn credited(&self, old: &Bank, who: AccountId, amount: Balance) -> bool {
        let a = old.account(who);
        self.only_changed(old, who, AccountState { free: (a.free + amount) as u128, ..a })
    }

    /// The ledger is `old`'s with `amount` taken from the free balance of `who`.
    pub open spec fn debited(&self, old: &Bank, who: AccountId, amount: Balance) -> bool {
        let a = old.account(who);
        self.only_changed(old, who, AccountState { free: (a.free - amount) as u128, ..a })
    }

    /// The ledger is `old`'s with `amount` of free balance moved from `from` to `to`.
    pub open spec fn moved(&self, old: &Bank, from: AccountId, to: AccountId, amount: Balance) -> bool {
        let a = old.account(from);
        let b = old.account(to);
        &&& self.has_account(from) && self.has_account(to)
        &&& from == to ==> self.account(from) == a
        &&& from != to ==> self.account(from) == AccountState { free: (a.free - amount) as u128, ..a }
            && self.account(to) == AccountState { free: (b.free + amount) as u128, ..b }
        &&& forall|w: AccountId|
            w != from && w != to ==> self.has_account(w) == old.has_account(w) && self.account(w)
                == old.account(w)
    }

    /// Mints `amount` into the free balance of the customer `user`.
    pub fn mint(&mut self, roles: &Roles, user: AccountId, amount: Balance) -> (r: Result<(), Error>)
        requires
            old(self).wf(),
            roles.wf(),
        ensures
            final(self).wf(),
            r == old(self).mint_result(roles, user, amount),
            r is Err ==> *final(self) == *old(self),
            r is Ok ==> final(self).credited(old(self), user, amount) && final(self).total_issuance
                == old(self).total_issuance + amount && final(self).same_settings(old(self))
                && final(self).events@ == old(self).events@,
    {
        roles.ensure_role(user, Role::Customer)?;
        if amount > u128::MAX - self.total_issuance {
            return Err(Error::Overflow);
        }
        proof {
            self.lemma_account_bounded(user);
        }
        let mut data = self.accounts(user);
        data.free = data.free + amount;
        self.write_account(user, data);
        let ghost mid = *self;
        self.total_issuance = self.total_issuance + amount;
        proof {
            self.lemma_same_ledger(&mid);
        }
        Ok(())
    }

    /// Burns `amount` from the free balance of the customer `user`.
    pub fn burn(&mut self, roles: &Roles, user: AccountId, amount: Balance) -> (r: Result<(), Error>)
        requires
            old(self).wf(),
            roles.wf(),
        ensures
            final(self).wf(),
            r == old(self).burn_result(roles, user, amount),
            r is Err ==> *final(self) == *old(self),
            r is Ok ==> final(self).debited(old(self), user, amount) && final(self).total_issuance
                == old(self).total_issuance - amount && final(self).same_settings(old(self))
                && final(self).events@ == old(self).events@,
    {
        roles.ensure_role(user, Role::Customer)?;
        let mut data = self.accounts(user);
        if data.free < amount {
            return Err(Error::InsufficientBalance);
        }
        proof {
            self.lemma_account_bounded(user);
        }
        data.free = data.free - amount;
        self.write_account(user, data);
        let ghost mid = *self;
        self.total_issuance = self.total_issuance - amount;
        proof {
            self.lemma_same_ledger(&mid);
        }
        Ok(())
    }

    /// Moves `amount` of free balance from `from` to `to`, both or neither.
    pub fn move_free(&mut self, from: AccountId, to: AccountId, amount: Balance) -> (r: Result<
        (),
        Error,
    >)
        requires
            old(self).wf(),
        ensures
            final(self).wf(),
            r == old(self).move_result(from, amount),
            r is Err ==> *final(self) == *old(self),
            r is Ok ==> final(self).moved(old(self), from, to, amount) && final(self).total_issuance
                == old(self).total_issuance && final(self).same_settings(old(self))
                && final(self).events@ == old(self).events@,
    {
        let mut src = self.accounts(from);
        if src.free < amount {
            return Err(Error::InsufficientBalance);
        }
        src.free = src.free - amount;
        self.write_account(from, src);
        let ghost mid = *self;
        proof {
            self.lemma_account_bounded(to);
        }
        let mut dst = self.accounts(to);
        dst.free = dst.free + amount;
        self.write_account(to, dst);
        Ok(())
    }

    /// The outcome of a manager `caller` depositing `amount` into `user`.
    pub open spec fn deposit_result(
        &self,
        roles: &Roles,
        caller: AccountId,
        user: AccountId,
        amount: Balance,
    ) -> Result<(), Error> {
        let rc = role_check(roles.role_of(caller), Role::Manager);
        if rc is Err {
            rc
        } else if amount < self.config.minimum_amount {
            Err(Error::AmountTooSmall)
        } else {
            self.mint_result(roles, user, amount)
        }
    }

    /// The outcome of a manager `caller` withdrawing `amount` from `user`.
    pub open spec fn withdraw_result(
        &self,
        roles: &Roles,
        caller: AccountId,
        user: AccountId,
        amount: Balance,
    ) -> Result<(), Error> {
        let rc = role_check(roles.role_of(caller), Role::Manager);
        if rc is Err {
            rc
        } else if amount < self.config.minimum_amount {
            Err(Error::AmountTooSmall)
        } else {
            self.burn_result(roles, user, amount)
        }
    }

    /// The outcome of the customer `caller` transferring `amount` to `to`.
    pub open spec fn transfer_result(
        &self,
        roles: &Roles,
        caller: AccountId,
        to: AccountId,
        amount: Balance,
    ) -> Result<(), Error> {
        let rc = role_check(roles.role_of(caller), Role::Customer);
        let rt = role_check(roles.role_of(to), Role::Customer);
        if rc is Err {
            rc
        } else if rt is Err {
            rt
        } else if amount < self.config.minimum_amount {
            Err(Error::AmountTooSmall)
        } else {
            self.move_result(caller, amount)
        }
    }

    /// A manager mints `amount` into the free balance of the customer `user`.
    pub fn deposit(&mut self, roles: &Roles, caller: AccountId, user: AccountId, amount: Balance) -> (r:
        Result<(), Error>)
        requires
            old(self).wf(),
            roles.wf(),
        ensures
            final(self).wf(),
            r == old(self).deposit_result(roles, caller, user, amount),
            r is Err ==> *final(self) == *old(self),
            r is Ok ==> final(self).credited(old(self), user, amount) && final(self).total_issuance
                == old(self).total_issuance + amount && final(self).same_settings(old(self))
                && final(self).events@ == old(self).events@.push(
                BankEvent::Deposited { user, amount },
            ),
    {
        roles.ensure_role(caller, Role::Manager)?;
        if amount < self.config.minimum_amount {
            return Err(Error::AmountTooSmall);
        }
        self.mint(roles, user, amount)?;
        let ghost mid = *self;
        self.events.push(BankEvent::Deposited { user, amount });
        proof {
            self.lemma_same_ledger(&mid);
        }
        Ok(())
    }

    /// A manager burns `amount` from the free balance of the customer `user`.
    pub fn withdraw(&mut self, roles: &Roles, caller: AccountId, user: AccountId, amount: Balance) -> (r:
        Result<(), Error>)
        requires
            old(self).wf(),
            roles.wf(),
        ensures
            final(self).wf(),
            r == old(self).withdraw_result(roles, caller, user, amount),
            r is Err ==> *final(self) == *old(self),
            r is Ok ==> final(self).debited(old(self), user, amount) && final(self).total_issuance
                == old(self).total_issuance - amount && final(self).same_settings(old(self))
                && final(self).events@ == old(self).events@.push(
                BankEvent::Withdrew { user, amount },
            ),
    {
        roles.ensure_role(caller, Role::Manager)?;
        if amount < self.config.minimum_amount {
            return Err(Error::AmountTooSmall);
        }
        self.burn(roles, user, amount)?;
        let ghost mid = *self;
        self.events.push(BankEvent::Withdrew { user, amount });
        proof {
            self.lemma_same_ledger(&mid);
        }
        Ok(())
    }

    /// The customer `caller` sends `amount` of free balance to the customer `to`.
    pub fn transfer(&mut self, roles: &Roles, caller: AccountId, to: AccountId, amount: Balance) -> (r:
        Result<(), Error>)
        requires
            old(self).wf(),
            roles.wf(),
        ensures
            final(self).wf(),
            r == old(self).transfer_result(roles, caller, to, amount),
            r is Err ==> *final(self) == *old(self),
            r is Ok ==> final(self).moved(old(self), caller, to, amount) && final(self).total_issuance
                == old(self).total_issuance && final(self).same_settings(old(self))
                && final(self).events@ == old(self).events@.push(
                BankEvent::Transferred { from: caller, to, amount },
            ),
    {
        roles.ensure_role(caller, Role::Customer)?;
        roles.ensure_role(to, Role::Customer)?;
        if amount < self.config.minimum_amount {
            return Err(Error::AmountTooSmall);
        }
        self.move_free(caller, to, amount)?;
        let ghost mid = *self;
        self.events.push(BankEvent::Transferred { from: caller, to, amount });
        proof {
            self.lemma_same_ledger(&mid);
        }
        Ok(())
    }

    /// Moves `amount` of free balance from `from` to `to` on the council's authority; unlike
    /// `transfer`, neither account needs the customer role.
    pub fn force_transfer(&mut self, from: AccountId, to: AccountId, amount: Balance) -> (r: Result<
        (),
        Error,
    >)
        requires
            old(self).wf(),
        ensures
            final(self).wf(),
            r == old(self).move_result(from, amount),
            r is Err ==> *final(self) == *old(self),
            r is Ok ==> final(self).moved(old(self), from, to, amount) && final(self).total_issuance
                == old(self).total_issuance && final(self).same_settings(old(self))
                && final(self).events@ == old(self).events@.push(
                BankEvent::Transferred { from, to, amount },
            ),
    {
        self.move_free(from, to, amount)?;
        let ghost mid = *self;
        self.events.push(BankEvent::Transferred { from, to, amount });
        proof {
            self.lemma_same_ledger(&mid);
        }
        Ok(())
    }

    /// The free balance of `who`.
    pub fn free_balance(&self, who: AccountId) -> (r: Balance)
        requires
            self.keys_unique(),
        ensures
            r == self.account(who).free,
    {
        match self.find(who) {
            Some(i) => self.accounts[i].1.free,
            None => 0,
        }
    }

    /// The reserved (staked) balance of `who`.
    pub fn staked(&self, who: AccountId) -> (r: Balance)
        requires
            self.keys_unique(),
        ensures
            r == self.account(who).reserved,
    {
        match self.find(who) {
            Some(i) => self.accounts[i].1.reserved,
            None => 0,
        }
    }

    /// The treasury account, or `TreasuryAccountNotSet`.
    pub fn treasury(&self) -> (r: Result<AccountId, Error>)
        ensures
            match self.treasury {
                Some(t) => r == Ok::<AccountId, Error>(t),
                None => r == Err::<AccountId, Error>(Error::TreasuryAccountNotSet),
            },
    {
        match self.treasury {
            Some(t) => Ok(t),
            None => Err(Error::TreasuryAccountNotSet),
        }
    }
}

/// `i` is the position of the first lock of `s` with id `id`.
pub open spec fn first_lock(s: Seq<LockedFund>, id: LockId, i: int) -> bool {
    &&& 0 <= i < s.len()
    &&& s[i].id == id
    &&& forall|k: int| 0 <= k < i ==> s[k].id != id
}

/// Some lock of `s` has id `id`.
pub open spec fn has_lock(s: Seq<LockedFund>, id: LockId) -> bool {
    exists|i: int| 0 <= i < s.len() && s[i].id == id
}

/// `a` after its lock at position `i` is released: a stake returns to reserved, anything
/// else to free.
pub open spec fn released(a: AccountState, i: int) -> AccountState {
    let f = a.locked[i];
    if releases_to_reserved(f.reason) {
        AccountState { reserved: (a.reserved + f.amount) as u128, locked: a.locked.remove(i), ..a }
    } else {
        AccountState { free: (a.free + f.amount) as u128, locked: a.locked.remove(i), ..a }
    }
}

/// Where the lock ids of `a` are distinct, releasing the lock at position `i` leaves no lock
/// with its id.
proof fn lemma_released_drops_id(a: AccountState, i: int, next: LockId)
    requires
        locks_fresh(a.locked, next),
        0 <= i < a.locked.len(),
    ensures
        !has_lock(released(a, i).locked, a.locked[i].id),
{
    let r = a.locked.remove(i);
    assert(released(a, i).locked == r);
    if has_lock(r, a.locked[i].id) {
        let k = choose|k: int| 0 <= k < r.len() && r[k].id == a.locked[i].id;
        let k2 = if k < i { k } else { k + 1 };
        assert(r[k] == a.locked[k2]);
    }
}

/// The lock id that follows `n`, wrapping around after the largest.
pub open spec fn lock_id_after(n: LockId) -> LockId {
    if n == u64::MAX {
        0
    } else {
        (n + 1) as u64
    }
}

/// `a` after an auditor lock of `amount`, taken from free first and then from reserved.
pub open spec fn auditor_locked(a: AccountState, amount: Balance, id: LockId) -> AccountState {
    let from_free: int = if a.free < amount {
        a.free as int
    } else {
        amount as int
    };
    AccountState {
        free: (a.free - from_free) as u128,
        reserved: (a.reserved - (amount - from_free)) as u128,
        locked: a.locked.push(LockedFund { id, amount, reason: LockReason::Auditor }),
    }
}

impl Bank {
    /// The ledger and settings are `old`'s with `who` now holding `st`, one more scheduled
    /// unlock of a fresh lock at block `at`, and the lock counter advanced.
    pub open spec fn locked_new(&self, old: &Bank, who: AccountId, st: AccountState, at: BlockNumber) -> bool {
        &&& self.only_changed(old, who, st)
        &&& self.total_issuance == old.total_issuance
        &&& self.next_lock_id == lock_id_after(old.next_lock_id)
        &&& self.unlock_schedule@ == old.unlock_schedule@.push(
            ScheduledUnlock { at, who, lock_id: self.next_lock_id },
        )
        &&& self.config == old.config
        &&& self.interest_rate == old.interest_rate
        &&& self.treasury == old.treasury
    }

    /// Advances the lock counter and returns the new id.
    fn fresh_lock_id(&mut self) -> (r: LockId)
        ensures
            r == lock_id_after(old(self).next_lock_id),
            final(self).next_lock_id == r,
            final(self).accounts@ == old(self).accounts@,
            final(self).total_issuance == old(self).total_issuance,
            final(self).unlock_schedule@ == old(self).unlock_schedule@,
            final(self).config == old(self).config,
            final(self).interest_rate == old(self).interest_rate,
            final(self).treasury == old(self).treasury,
            final(self).events@ == old(self).events@,
    {
        let id = if self.next_lock_id == u64::MAX {
            0
        } else {
            self.next_lock_id + 1
        };
        self.next_lock_id = id;
        id
    }

    /// Records a new lock of `data` for `who`, schedules its release at `at` and emits `Locked`.
    fn add_lock(
        &mut self,
        who: AccountId,
        data: AccountData,
        amount: Balance,
        reason: LockReason,
        at: BlockNumber,
        length: BlockNumber,
    ) -> (id: LockId)
        requires
            old(self).wf(),
            old(self).next_lock_id < u64::MAX,
            data@.locked == old(self).account(who).locked,
            data@.total() + amount == old(self).account(who).total(),
        ensures
            final(self).wf(),
            id == lock_id_after(old(self).next_lock_id),
            !has_lock(old(self).account(who).locked, id),
            final(self).locked_new(
                old(self),
                who,
                AccountState { locked: data@.locked.push(LockedFund { id, amount, reason }), ..data@ },
                at,
            ),
            final(self).events@ == old(self).events@.push(
                BankEvent::Locked { user: who, amount, length, reason },
            ),
    {
        proof {
            self.lemma_account_locks(who);
        }
        let id = self.fresh_lock_id();
        let mut data = data;
        let ghost before = data@;
        data.locked.push(LockedFund { id, amount, reason });
        proof {
            lemma_locked_push(before.locked, LockedFund { id, amount, reason });
            assert forall|i: int| 0 <= i < self.accounts@.len() implies #[trigger] locks_fresh(
                self.accounts@[i].1@.locked,
                self.next_lock_id,
            ) by {
                assert(locks_fresh(old(self).accounts@[i].1@.locked, old(self).next_lock_id));
            }
            let l = data@.locked;
            assert forall|a: int, b: int| 0 <= a < b < l.len() implies l[a].id != l[b].id by {
                if b == l.len() - 1 {
                    assert(l[a] == before.locked[a]);
                } else {
                    assert(l[a] == before.locked[a] && l[b] == before.locked[b]);
                }
            }
            assert forall|k: int| 0 <= k < l.len() implies l[k].id <= id by {
                if k < l.len() - 1 {
                    assert(l[k] == before.locked[k]);
                }
            }
            if has_lock(before.locked, id) {
                let k = choose|k: int| 0 <= k < before.locked.len() && before.locked[k].id == id;
            }
        }
        self.write_account(who, data);
        let ghost mid = *self;
        self.unlock_schedule.push(ScheduledUnlock { at, who, lock_id: id });
        self.events.push(BankEvent::Locked { user: who, amount, length, reason });
        proof {
            self.lemma_same_ledger(&mid);
        }
        id
    }

    /// The outcome of `user` staking `amount` of free balance.
    pub open spec fn stake_result(&self, roles: &Roles, user: AccountId, amount: Balance) -> Result<
        (),
        Error,
    > {
        let rc = role_check(roles.role_of(user), Role::Customer);
        if rc is Err {
            rc
        } else if amount < self.config.minimum_amount {
            Err(Error::AmountTooSmall)
        } else if self.account(user).free < amount {
            Err(Error::InsufficientBalance)
        } else {
            Ok(())
        }
    }

    /// The outcome of `user` redeeming `amount` of reserved balance.
    pub open spec fn redeem_result(&self, roles: &Roles, user: AccountId, amount: Balance) -> Result<
        (),
        Error,
    > {
        let rc = role_check(roles.role_of(user), Role::Customer);
        if rc is Err {
            rc
        } else if amount < self.config.minimum_amount {
            Err(Error::AmountTooSmall)
        } else if self.account(user).reserved < amount {
            Err(Error::InsufficientBalance)
        } else {
            Ok(())
        }
    }

    /// The outcome of the auditor `caller` locking `amount` of `user`'s funds.
    pub open spec fn lock_auditor_result(
        &self,
        roles: &Roles,
        caller: AccountId,
        user: AccountId,
        amount: Balance,
    ) -> Result<(), Error> {
        let ra = role_check(roles.role_of(caller), Role::Auditor);
        let rc = role_check(roles.role_of(user), Role::Customer);
        if ra is Err {
            ra
        } else if rc is Err {
            rc
        } else if self.account(user).free + self.account(user).reserved < amount {
            Err(Error::InsufficientBalance)
        } else {
            Ok(())
        }
    }

    /// The customer `user` stakes `amount` of free balance: it is locked for the stake period
    /// and then released into reserved, where it earns interest.
    pub fn stake_funds(&mut self, roles: &Roles, user: AccountId, amount: Balance, now: BlockNumber) -> (r:
        Result<(), Error>)
        requires
            old(self).wf(),
            roles.wf(),
            now + old(self).config.stake_period <= u32::MAX,
            old(self).next_lock_id < u64::MAX,
        ensures
            final(self).wf(),
            r == old(self).stake_result(roles, user, amount),
            r is Err ==> *final(self) == *old(self),
            r is Ok ==> {
                let a = old(self).account(user);
                let id = lock_id_after(old(self).next_lock_id);
                &&& !has_lock(a.locked, id)
                &&& final(self).locked_new(
                    old(self),
                    user,
                    AccountState {
                        free: (a.free - amount) as u128,
                        locked: a.locked.push(LockedFund { id, amount, reason: LockReason::Stake }),
                        ..a
                    },
                    (now + old(self).config.stake_period) as u32,
                )
                &&& final(self).events@ == old(self).events@.push(
                    BankEvent::Locked {
                        user,
                        amount,
                        length: old(self).config.stake_period,
                        reason: LockReason::Stake,
                    },
                )
            },
    {
        roles.ensure_role(user, Role::Customer)?;
        if amount < self.config.minimum_amount {
            return Err(Error::AmountTooSmall);
        }
        let mut data = self.accounts(user);
        if data.free < amount {
            return Err(Error::InsufficientBalance);
        }
        data.free = data.free - amount;
        let period = self.config.stake_period;
        self.add_lock(user, data, amount, LockReason::Stake, now + period, period);
        Ok(())
    }

    /// The customer `user` redeems `amount` of reserved balance: it is locked for the redeem
    /// period and then released into free.
    pub fn redeem_funds(&mut self, roles: &Roles, user: AccountId, amount: Balance, now: BlockNumber) -> (r:
        Result<(), Error>)
        requires
            old(self).wf(),
            roles.wf(),
            now + old(self).config.redeem_period <= u32::MAX,
            old(self).next_lock_id < u64::MAX,
        ensures
            final(self).wf(),
            r == old(self).redeem_result(roles, user, amount),
            r is Err ==> *final(self) == *old(self),
            r is Ok ==> {
                let a = old(self).account(user);
                let id = lock_id_after(old(self).next_lock_id);
                &&& !has_lock(a.locked, id)
                &&& final(self).locked_new(
                    old(self),
                    user,
                    AccountState {
                        reserved: (a.reserved - amount) as u128,
                        locked: a.locked.push(LockedFund { id, amount, reason: LockReason::Redeem }),
                        ..a
                    },
                    (now + old(self).config.redeem_period) as u32,
                )
                &&& final(self).events@ == old(self).events@.push(
                    BankEvent::Locked {
                        user,
                        amount,
                        length: old(self).config.redeem_period,
                        reason: LockReason::Redeem,
                    },
                )
            },
    {
        roles.ensure_role(user, Role::Customer)?;
        if amount < self.config.minimum_amount {
            return Err(Error::AmountTooSmall);
        }
        let mut data = self.accounts(user);
        if data.reserved < amount {
            return Err(Error::InsufficientBalance);
        }
        data.reserved = data.reserved - amount;
        let period = self.config.redeem_period;
        self.add_lock(user, data, amount, LockReason::Redeem, now + period, period);
        Ok(())
    }

    /// The auditor `caller` locks `amount` of the customer `user`'s funds for `length` blocks,
    /// taking from free first and then from reserved; on release they go to free.
    pub fn lock_funds_auditor(
        &mut self,
        roles: &Roles,
        caller: AccountId,
        user: AccountId,
        amount: Balance,
        length: BlockNumber,
        now: BlockNumber,
    ) -> (r: Result<(), Error>)
        requires
            old(self).wf(),
            roles.wf(),
            now + length <= u32::MAX,
            old(self).next_lock_id < u64::MAX,
        ensures
            final(self).wf(),
            r == old(self).lock_auditor_result(roles, caller, user, amount),
            r is Err ==> *final(self) == *old(self),
            r is Ok ==> !has_lock(old(self).account(user).locked, lock_id_after(old(self).next_lock_id)),
            r is Ok ==> final(self).locked_new(
                old(self),
                user,
                auditor_locked(
                    old(self).account(user),
                    amount,
                    lock_id_after(old(self).next_lock_id),
                ),
                (now + length) as u32,
            ) && final(self).events@ == old(self).events@.push(
                BankEvent::Locked { user, amount, length, reason: LockReason::Auditor },
            ),
    {
        roles.ensure_role(caller, Role::Auditor)?;
        roles.ensure_role(user, Role::Customer)?;
        proof {
            self.lemma_account_bounded(user);
        }
        let mut data = self.accounts(user);
        if data.free + data.reserved < amount {
            return Err(Error::InsufficientBalance);
        }
        let from_free = if data.free < amount {
            data.free
        } else {
            amount
        };
        data.free = data.free - from_free;
        data.reserved = data.reserved - (amount - from_free);
        self.add_lock(user, data, amount, LockReason::Auditor, now + length, length);
        Ok(())
    }

    /// Releases the first lock of `who` with id `lock_id`: a stake returns to reserved,
    /// anything else to free. Through the auditor path only auditor locks may be released.
    pub fn unlock(&mut self, who: AccountId, lock_id: LockId, reason: UnlockReason) -> (r: Result<
        (),
        Error,
    >)
        requires
            old(self).wf(),
        ensures
            final(self).wf(),
            !has_lock(old(self).account(who).locked, lock_id) ==> r == Err::<(), Error>(
                Error::InvalidLockId,
            ),
            forall|i: int|
                first_lock(old(self).account(who).locked, lock_id, i) ==> {
                    let f = old(self).account(who).locked[i];
                    if reason == UnlockReason::Auditor && f.reason != LockReason::Auditor {
                        r == Err::<(), Error>(Error::UnauthorisedUnlock)
                    } else {
                        &&& r is Ok
                        &&& final(self).only_changed(old(self), who, released(old(self).account(who), i))
                        &&& !has_lock(final(self).account(who).locked, lock_id)
                        &&& final(self).events@ == old(self).events@.push(
                            BankEvent::Unlocked { user: who, amount: f.amount, reason },
                        )
                    }
                },
            r is Err ==> *final(self) == *old(self),
            r is Ok ==> final(self).total_issuance == old(self).total_issuance && final(self).same_settings(old(self)),
            forall|w: AccountId|
                final(self).has_account(w) == old(self).has_account(w) && final(self).account(w).total()
                    == old(self).account(w).total(),
    {
        let ghost a = self.account(who);
        let idx = match self.find(who) {
            Some(idx) => idx,
            None => {
                return Err(Error::InvalidLockId);
            },
        };
        let mut i: usize = 0;
        let n = self.accounts[idx].1.locked.len();
        while i < n && self.accounts[idx].1.locked[i].id != lock_id
            invariant
                self.wf(),
                idx < self.accounts@.len(),
                self.accounts@[idx as int].1@ == a,
                n == a.locked.len(),
                i <= n,
                forall|k: int| 0 <= k < i ==> a.locked[k].id != lock_id,
            decreases n - i,
        {
            i = i + 1;
        }
        if i == n {
            return Err(Error::InvalidLockId);
        }
        assert(first_lock(a.locked, lock_id, i as int));
        assert forall|j: int| first_lock(a.locked, lock_id, j) implies j == i as int by {
            if j < i as int {
            } else if j > i as int {
                assert(a.locked[i as int].id == lock_id);
            }
        }
        let f = self.accounts[idx].1.locked[i];
        if reason == UnlockReason::Auditor && f.reason != LockReason::Auditor {
            return Err(Error::UnauthorisedUnlock);
        }
        proof {
            self.lemma_account_bounded(who);
            lemma_locked_nonneg(a.locked);
            lemma_locked_remove(a.locked, i as int);
            lemma_locked_nonneg(a.locked.remove(i as int));
        }
        let mut data = self.accounts(who);
        if f.reason == LockReason::Stake {
            data.reserved = data.reserved + f.amount;
        } else {
            data.free = data.free + f.amount;
        }
        data.locked.remove(i);
        self.write_account(who, data);
        let ghost mid = *self;
        self.events.push(BankEvent::Unlocked { user: who, amount: f.amount, reason });
        proof {
            self.lemma_same_ledger(&mid);
            assert(old(self).has_account(who));
            old(self).lemma_account_locks(who);
            lemma_released_drops_id(a, i as int, old(self).next_lock_id);
        }
        Ok(())
    }

    /// The auditor `caller` releases an auditor lock of the customer `user` early.
    pub fn unlock_funds_auditor(
        &mut self,
        roles: &Roles,
        caller: AccountId,
        user: AccountId,
        lock_id: LockId,
    ) -> (r: Result<(), Error>)
        requires
            old(self).wf(),
            roles.wf(),
        ensures
            final(self).wf(),
            role_check(roles.role_of(caller), Role::Auditor) is Err ==> r == role_check(
                roles.role_of(caller),
                Role::Auditor,
            ),
            role_check(roles.role_of(caller), Role::Auditor) is Ok && role_check(
                roles.role_of(user),
                Role::Customer,
            ) is Err ==> r == role_check(roles.role_of(user), Role::Customer),
            role_check(roles.role_of(caller), Role::Auditor) is Ok && role_check(
                roles.role_of(user),
                Role::Customer,
            ) is Ok ==> {
                &&& !has_lock(old(self).account(user).locked, lock_id) ==> r == Err::<(), Error>(
                    Error::InvalidLockId,
                )
                &&& forall|i: int|
                    first_lock(old(self).account(user).locked, lock_id, i) ==> {
                        let f = old(self).account(user).locked[i];
                        if f.reason != LockReason::Auditor {
                            r == Err::<(), Error>(Error::UnauthorisedUnlock)
                        } else {
                            &&& r is Ok
                            &&& final(self).only_changed(
                                old(self),
                                user,
                                released(old(self).account(user), i),
                            )
                            &&& !has_lock(final(self).account(user).locked, lock_id)
                            &&& final(self).events@ == old(self).events@.push(
                                BankEvent::Unlocked {
                                    user,
                                    amount: f.amount,
                                    reason: UnlockReason::Auditor,
                                },
                            )
                        }
                    }
            },
            r is Err ==> *final(self) == *old(self),
            r is Ok ==> final(self).total_issuance == old(self).total_issuance && final(self).same_settings(old(self)),
    {
        roles.ensure_role(caller, Role::Auditor)?;
        roles.ensure_role(user, Role::Customer)?;
        self.unlock(user, lock_id, UnlockReason::Auditor)
    }

    /// A manager sets the yearly interest rate, given in basis points (at most 10000).
    pub fn set_interest_rate(&mut self, roles: &Roles, caller: AccountId, interest_rate_bps: u32) -> (r:
        Result<(), Error>)
        requires
            old(self).wf(),
            roles.wf(),
        ensures
            final(self).wf(),
            role_check(roles.role_of(caller), Role::Manager) is Err ==> r == role_check(
                roles.role_of(caller),
                Role::Manager,
            ),
            role_check(roles.role_of(caller), Role::Manager) is Ok && interest_rate_bps > 10000
                ==> r == Err::<(), Error>(Error::InvalidInterestRate),
            r is Err ==> *final(self) == *old(self),
            role_check(roles.role_of(caller), Role::Manager) is Ok && interest_rate_bps <= 10000
                ==> {
                &&& r is Ok
                &&& final(self).interest_rate as int == perbill_ratio(interest_rate_bps, 10000)
                &&& final(self).accounts@ == old(self).accounts@
                &&& final(self).total_issuance == old(self).total_issuance
                &&& final(self).unlock_schedule@ == old(self).unlock_schedule@
                &&& final(self).next_lock_id == old(self).next_lock_id
                &&& final(self).treasury == old(self).treasury
                &&& final(self).config == old(self).config
                &&& final(self).events@ == old(self).events@.push(
                    BankEvent::InterestRateSet {
                        manager: caller,
                        old_interest_rate: old(self).interest_rate,
                        new_interest_rate: final(self).interest_rate,
                    },
                )
            },
    {
        roles.ensure_role(caller, Role::Manager)?;
        if interest_rate_bps > 10000 {
            return Err(Error::InvalidInterestRate);
        }
        let old_rate = self.interest_rate;
        let new_rate = perbill_from_rational(interest_rate_bps, 10000);
        self.interest_rate = new_rate;
        self.events.push(
            BankEvent::InterestRateSet {
                manager: caller,
                old_interest_rate: old_rate,
                new_interest_rate: new_rate,
            },
        );
        Ok(())
    }
}

proof fn lemma_locked_prefix(s: Seq<LockedFund>, i: int)
    requires
        0 <= i < s.len(),
    ensures
        locked_sum(s.subrange(0, i + 1)) == locked_sum(s.subrange(0, i)) + s[i].amount,
{
    assert(s.subrange(0, i + 1).drop_last() =~= s.subrange(0, i));
}

proof fn lemma_ledger_prefix(s: Seq<(AccountId, AccountData)>, i: int)
    requires
        0 <= i < s.len(),
    ensures
        ledger_sum(s.subrange(0, i + 1)) == ledger_sum(s.subrange(0, i)) + s[i].1@.total(),
{
    assert(s.subrange(0, i + 1).drop_last() =~= s.subrange(0, i));
}

impl AccountData {
    /// Free, reserved and locked together, capped at the largest balance.
    pub fn total(&self) -> (r: Balance)
        ensures
            r as int == if self@.total() <= u128::MAX as int {
                self@.total()
            } else {
                u128::MAX as int
            },
    {
        let mut acc: u128 = if self.free > u128::MAX - self.reserved {
            u128::MAX
        } else {
            self.free + self.reserved
        };
        let mut i: usize = 0;
        while i < self.locked.len()
            invariant
                i <= self.locked@.len(),
                acc as int == if self.free + self.reserved + locked_sum(
                    self.locked@.subrange(0, i as int),
                ) <= u128::MAX as int {
                    self.free + self.reserved + locked_sum(self.locked@.subrange(0, i as int))
                } else {
                    u128::MAX as int
                },
            decreases self.locked@.len() - i,
        {
            proof {
                lemma_locked_prefix(self.locked@, i as int);
                lemma_locked_nonneg(self.locked@.subrange(0, i as int));
            }
            let amount = self.locked[i].amount;
            acc = if acc > u128::MAX - amount {
                u128::MAX
            } else {
                acc + amount
            };
            i = i + 1;
        }
        assert(self.locked@.subrange(0, self.locked@.len() as int) =~= self.locked@);
        acc
    }
}

impl AccountData {
    /// Free, reserved and locked together, where that fits in a balance.
    pub fn checked_total(&self) -> (r: Option<Balance>)
        ensures
            match r {
                Some(t) => t as int == self@.total(),
                None => self@.total() > u128::MAX as int,
            },
    {
        if self.free > u128::MAX - self.reserved {
            proof {
                lemma_locked_nonneg(self.locked@);
            }
            return None;
        }
        let mut acc: u128 = self.free + self.reserved;
        let mut i: usize = 0;
        while i < self.locked.len()
            invariant
                i <= self.locked@.len(),
                acc as int == self.free + self.reserved + locked_sum(self.locked@.subrange(0, i as int)),
            decreases self.locked@.len() - i,
        {
            proof {
                lemma_locked_prefix(self.locked@, i as int);
            }
            let amount = self.locked[i].amount;
            if acc > u128::MAX - amount {
                proof {
                    lemma_locked_prefix_le(self.locked@, i as int + 1);
                }
                return None;
            }
            acc = acc + amount;
            i = i + 1;
        }
        assert(self.locked@.subrange(0, self.locked@.len() as int) =~= self.locked@);
        Some(acc)
    }
}

proof fn lemma_locked_prefix_le(s: Seq<LockedFund>, i: int)
    requires
        0 <= i <= s.len(),
    ensures
        locked_sum(s.subrange(0, i)) <= locked_sum(s),
    decreases s.len() - i,
{
    if i == s.len() {
        assert(s.subrange(0, i) =~= s);
    } else {
        lemma_locked_prefix_le(s, i + 1);
        lemma_locked_prefix(s, i);
    }
}

impl Bank {
    /// Whether the total issuance equals the sum over all accounts of free, reserved and
    /// locked funds.
    pub fn check_total_issuance(&self) -> (r: bool)
        ensures
            r == (self.total_issuance as int == ledger_sum(self.accounts@)),
    {
        let mut sum: u128 = 0;
        let mut i: usize = 0;
        let n = self.accounts.len();
        while i < n
            invariant
                n == self.accounts@.len(),
                i <= n,
                sum as int == ledger_sum(self.accounts@.subrange(0, i as int)),
            decreases n - i,
        {
            proof {
                lemma_ledger_prefix(self.accounts@, i as int);
                lemma_ledger_prefix_le(self.accounts@, i as int + 1);
            }
            match self.accounts[i].1.checked_total() {
                None => {
                    proof {
                        lemma_ledger_nonneg(self.accounts@.subrange(0, i as int));
                    }
                    return false;
                },
                Some(t) => {
                    if sum > u128::MAX - t {
                        return false;
                    }
                    sum = sum + t;
                },
            }
            i = i + 1;
        }
        assert(self.accounts@.subrange(0, n as int) =~= self.accounts@);
        sum == self.total_issuance
    }
}

/// Whether reaping removes the entry `e`: it is not the treasury and its total is below `ed`.
pub open spec fn is_dust(e: (AccountId, AccountData), ed: Balance, treasury: AccountId) -> bool {
    e.0 != treasury && e.1@.total() < ed
}

/// The summed totals of the entries of `s` that reaping removes.
pub open spec fn dust_sum(s: Seq<(AccountId, AccountData)>, ed: Balance, treasury: AccountId) -> int
    decreases s.len(),
{
    if s.len() == 0 {
        0
    } else {
        dust_sum(s.drop_last(), ed, treasury) + if is_dust(s.last(), ed, treasury) {
            s.last().1@.total()
        } else {
            0
        }
    }
}

/// The events that reaping the entries of `s` emits, in order.
pub open spec fn reap_events(s: Seq<(AccountId, AccountData)>, ed: Balance, treasury: AccountId) -> Seq<
    BankEvent,
>
    decreases s.len(),
{
    if s.len() == 0 {
        Seq::empty()
    } else if is_dust(s.last(), ed, treasury) {
        reap_events(s.drop_last(), ed, treasury).push(
            BankEvent::Reaped { user: s.last().0, dust: s.last().1@.total() as u128 },
        )
    } else {
        reap_events(s.drop_last(), ed, treasury)
    }
}

/// `kept` holds, once each and with their keys distinct, exactly the entries of `os[0..i]`
/// that are not dust (entry `k` coming from `os[src[k]]`), and no key of `os[i..]`.
#[verifier::opaque]
pub open spec fn kept_inv(
    kept: Seq<(AccountId, AccountData)>,
    src: Seq<int>,
    os: Seq<(AccountId, AccountData)>,
    i: int,
    ed: Balance,
    t: AccountId,
) -> bool {
    &&& src.len() == kept.len()
    &&& forall|a: int, b: int| 0 <= a < b < kept.len() ==> kept[a].0 != kept[b].0
    &&& forall|k: int| #![trigger src[k]] 0 <= k < src.len() ==> 0 <= src[k] < i
    &&& forall|k: int|
        #![trigger kept[k]]
        0 <= k < kept.len() ==> same_entry(kept[k], os[src[k]]) && !is_dust(
            os[src[k]],
            ed,
            t,
        )
    &&& forall|j: int|
        #![trigger os[j]]
        0 <= j < i && !is_dust(os[j], ed, t) ==> exists|k: int| 0 <= k < kept.len() && src[k] == j
    &&& forall|j: int, k: int|
        #![trigger kept[k], os[j]]
        i <= j < os.len() && 0 <= k < kept.len() ==> kept[k].0 != os[j].0
}

proof fn lemma_kept_skip(
    kept: Seq<(AccountId, AccountData)>,
    src: Seq<int>,
    os: Seq<(AccountId, AccountData)>,
    i: int,
    ed: Balance,
    t: AccountId,
)
    requires
        0 <= i < os.len(),
        kept_inv(kept, src, os, i, ed, t),
        is_dust(os[i], ed, t),
    ensures
        kept_inv(kept, src, os, i + 1, ed, t),
{
    reveal(kept_inv);
    assert forall|j: int| #![trigger os[j]] 0 <= j < i + 1 && !is_dust(os[j], ed, t) implies exists|k: int|
        0 <= k < kept.len() && src[k] == j by {
        assert(j != i);
    }
    assert forall|j: int, k: int|
        #![trigger kept[k], os[j]]
        i + 1 <= j < os.len() && 0 <= k < kept.len() implies kept[k].0 != os[j].0 by {
        assert(i <= j);
    }
    assert forall|k: int| #![trigger src[k]] 0 <= k < src.len() implies 0 <= src[k] < i + 1 by {
    }
}

proof fn lemma_kept_push(
    before: Seq<(AccountId, AccountData)>,
    kept: Seq<(AccountId, AccountData)>,
    src: Seq<int>,
    os: Seq<(AccountId, AccountData)>,
    i: int,
    ed: Balance,
    t: AccountId,
)
    requires
        0 <= i < os.len(),
        forall|a: int, b: int| 0 <= a < b < os.len() ==> os[a].0 != os[b].0,
        kept_inv(before, src, os, i, ed, t),
        !is_dust(os[i], ed, t),
        kept.len() == before.len() + 1,
        forall|k: int| 0 <= k < before.len() ==> kept[k] == before[k],
        same_entry(kept.last(), os[i]),
    ensures
        kept_inv(kept, src.push(i), os, i + 1, ed, t),
{
    reveal(kept_inv);
    let last = kept.len() - 1;
    let src2 = src.push(i);
    assert forall|a: int, b: int| 0 <= a < b < kept.len() implies kept[a].0 != kept[b].0 by {
        if b == last {
            assert(kept[a] == before[a]);
            assert(before[a].0 != os[i].0);
        } else {
            assert(kept[a] == before[a] && kept[b] == before[b]);
        }
    }
    assert forall|j: int, k: int|
        #![trigger kept[k], os[j]]
        i + 1 <= j < os.len() && 0 <= k < kept.len() implies kept[k].0 != os[j].0 by {
        if k == last {
            assert(os[i].0 != os[j].0);
        } else {
            assert(kept[k] == before[k]);
            assert(before[k].0 != os[j].0);
        }
    }
    assert forall|k: int| #![trigger src2[k]] 0 <= k < src2.len() implies 0 <= src2[k] < i + 1 by {
        if k != last {
            assert(src2[k] == src[k]);
        }
    }
    assert forall|k: int| #![trigger kept[k]] 0 <= k < kept.len() implies same_entry(kept[k], os[src2[k]]) && !is_dust(os[src2[k]], ed, t) by {
        if k != last {
            assert(kept[k] == before[k]);
            assert(same_entry(before[k], os[src[k]]));
            assert(src2[k] == src[k]);
        }
    }
    assert forall|j: int| #![trigger os[j]] 0 <= j < i + 1 && !is_dust(os[j], ed, t) implies exists|k: int|
        0 <= k < kept.len() && src2[k] == j by {
        if j == i {
            assert(src2[last] == j);
        } else {
            let k = choose|k: int| 0 <= k < before.len() && src[k] == j;
            assert(src2[k] == j);
        }
    }
    assert(src2.len() == kept.len());
}

proof fn lemma_ledger_prefix_le(s: Seq<(AccountId, AccountData)>, i: int)
    requires
        0 <= i <= s.len(),
    ensures
        ledger_sum(s.subrange(0, i)) <= ledger_sum(s),
    decreases s.len() - i,
{
    if i == s.len() {
        assert(s.subrange(0, i) =~= s);
    } else {
        lemma_ledger_prefix_le(s, i + 1);
        lemma_ledger_prefix(s, i);
        lemma_locked_nonneg(s[i].1@.locked);
    }
}

/// The entries have the same key and the same balances.
pub open spec fn same_entry(a: (AccountId, AccountData), b: (AccountId, AccountData)) -> bool {
    a.0 == b.0 && a.1@ == b.1@
}

/// A ledger made of the entries of `old` that are not dust, in any order, has the same
/// accounts as `old` less the dust.
proof fn lemma_filter_view(new: &Bank, old: &Bank, src: Seq<int>, t: AccountId, ed: Balance)
    requires
        old.keys_unique(),
        kept_inv(new.accounts@, src, old.accounts@, old.accounts@.len() as int, ed, t),
    ensures
        new.keys_unique(),
        forall|w: AccountId|
            new.has_account(w) == (old.has_account(w) && (w == t || old.account(w).total() >= ed)),
        forall|w: AccountId| new.has_account(w) ==> new.account(w) == old.account(w),
{
    reveal(kept_inv);
    let ns = new.accounts@;
    let os = old.accounts@;
    assert forall|w: AccountId|
        new.has_account(w) == (old.has_account(w) && (w == t || old.account(w).total() >= ed))
            && (new.has_account(w) ==> new.account(w) == old.account(w)) by {
        if old.has_account(w) {
            let j = choose|j: int| 0 <= j < os.len() && os[j].0 == w;
            if !is_dust(os[j], ed, t) {
                let k = choose|k: int| 0 <= k < ns.len() && src[k] == j;
                assert(same_entry(ns[k], os[src[k]]));
                assert(ns[k].0 == w);
            }
        }
        if new.has_account(w) {
            let k = choose|k: int| 0 <= k < ns.len() && ns[k].0 == w;
            assert(same_entry(ns[k], os[src[k]]));
            let j = src[k];
            assert(os[j].0 == w);
            let j2 = choose|j2: int| 0 <= j2 < os.len() && os[j2].0 == w;
            assert(j2 == j);
        }
    }
}

proof fn lemma_dust_sum_zero(s: Seq<(AccountId, AccountData)>, ed: Balance, t: AccountId)
    requires
        forall|j: int| 0 <= j < s.len() ==> !is_dust(s[j], ed, t),
    ensures
        dust_sum(s, ed, t) == 0,
        reap_events(s, ed, t).len() == 0,
    decreases s.len(),
{
    if s.len() > 0 {
        lemma_dust_sum_zero(s.drop_last(), ed, t);
    }
}

/// Where no account but the treasury is below the existential deposit, no entry is dust.
proof fn lemma_no_dust_sum(b: &Bank, t: AccountId, ed: Balance)
    requires
        b.keys_unique(),
        b.no_dust(),
        b.treasury == Some(t),
        ed == b.config.existential_deposit,
    ensures
        dust_sum(b.accounts@, ed, t) == 0,
        forall|j: int| 0 <= j < b.accounts@.len() ==> !is_dust(b.accounts@[j], ed, t),
{
    let s = b.accounts@;
    assert forall|j: int| 0 <= j < s.len() implies !is_dust(s[j], ed, t) by {
        let w = s[j].0;
        assert(b.has_account(w));
        let j2 = choose|j2: int| 0 <= j2 < s.len() && s[j2].0 == w;
        assert(j2 == j);
    }
    lemma_dust_sum_zero(s, ed, t);
}

impl Bank {
    /// The ledger and everything else are as in `old` (the events aside).
    pub open spec fn same_state(&self, old: &Bank) -> bool {
        &&& forall|w: AccountId|
            self.has_account(w) == old.has_account(w) && self.account(w) == old.account(w)
        &&& self.total_issuance == old.total_issuance
        &&& self.same_settings(old)
    }

    /// Every account but the treasury holds at least the existential deposit.
    pub open spec fn no_dust(&self) -> bool {
        forall|w: AccountId|
            self.has_account(w) && Some(w) != self.treasury ==> self.account(w).total()
                >= self.config.existential_deposit
    }

    /// What reaping does to the bank `pre`, giving `post`.
    pub open spec fn reap_post(pre: &Bank, post: &Bank) -> bool {
        &&& post.wf()
        &&& post.same_settings(pre)
        &&& post.total_issuance == pre.total_issuance
        &&& pre.treasury is None ==> *post == *pre
        &&& pre.treasury is Some ==> {
            let t = pre.treasury->0;
            let ed = pre.config.existential_deposit;
            let dust = dust_sum(pre.accounts@, ed, t);
            &&& forall|w: AccountId|
                w != t ==> (post.has_account(w) == (pre.has_account(w)
                    && pre.account(w).total() >= ed)) && (post.has_account(w)
                    ==> post.account(w) == pre.account(w))
            &&& dust > 0 ==> post.has_account(t) && post.account(t)
                == AccountState {
                free: (pre.account(t).free + dust) as u128,
                ..pre.account(t)
            }
            &&& dust == 0 ==> post.has_account(t) == pre.has_account(t)
                && post.account(t) == pre.account(t)
            &&& post.events@ == pre.events@ + reap_events(pre.accounts@, ed, t)
        }
        &&& post.no_dust() || pre.treasury is None
        &&& pre.no_dust() ==> post.same_state(pre)
    }

    /// Removes every account but the treasury whose total is below the existential deposit and
    /// adds the dust to the treasury's free balance. Does nothing while no treasury is set.
    pub fn reap_accounts(&mut self)
        requires
            old(self).wf(),
        ensures
            Bank::reap_post(old(self), final(self)),
    {
        let t = match self.treasury {
            Some(t) => t,
            None => {
                return;
            },
        };
        let ed = self.config.existential_deposit;
        let ghost old_accounts = self.accounts@;
        let ghost old_events = self.events@;
        let mut kept: Vec<(AccountId, AccountData)> = Vec::new();
        let ghost mut src: Seq<int> = Seq::empty();
        let mut dust: u128 = 0;
        let mut i: usize = 0;
        let n = self.accounts.len();
        proof {
            reveal(kept_inv);
        }
        while i < n
            invariant
                old(self).wf(),
                self.accounts@ == old_accounts,
                old_accounts == old(self).accounts@,
                old(self).treasury == Some(t),
                ed == old(self).config.existential_deposit,
                n == old_accounts.len(),
                i <= n,
                self.events@ == old_events + reap_events(old_accounts.subrange(0, i as int), ed, t),
                old_events == old(self).events@,
                dust as int == dust_sum(old_accounts.subrange(0, i as int), ed, t),
                ledger_sum(kept@) + dust == ledger_sum(old_accounts.subrange(0, i as int)),
                kept_inv(kept@, src, old_accounts, i as int, ed, t),
                self.same_settings(old(self)),
                self.total_issuance == old(self).total_issuance,
            decreases n - i,
        {
            proof {
                lemma_ledger_prefix(old_accounts, i as int);
                lemma_ledger_prefix_le(old_accounts, i as int + 1);
                lemma_ledger_elem(old_accounts, i as int);
                lemma_ledger_nonneg(kept@);
                assert(old_accounts.subrange(0, i as int + 1).drop_last() =~= old_accounts.subrange(
                    0,
                    i as int,
                ));
            }
            let entry_total = self.accounts[i].1.total();
            if self.accounts[i].0 != t && entry_total < ed {
                let who = self.accounts[i].0;
                self.events.push(BankEvent::Reaped { user: who, dust: entry_total });
                dust = dust + entry_total;
                proof {
                    assert(self.events@ =~= old_events + reap_events(
                        old_accounts.subrange(0, i as int + 1),
                        ed,
                        t,
                    ));
                    lemma_kept_skip(kept@, src, old_accounts, i as int, ed, t);
                }
            } else {
                let ghost before = kept@;
                kept.push((self.accounts[i].0, copy_account(&self.accounts[i].1)));
                proof {
                    lemma_ledger_push(before, kept@.last());
                    assert(self.events@ =~= old_events + reap_events(
                        old_accounts.subrange(0, i as int + 1),
                        ed,
                        t,
                    ));
                    lemma_kept_push(before, kept@, src, old_accounts, i as int, ed, t);
                    src = src.push(i as int);
                }
            }
            i = i + 1;
        }
        assert(old_accounts.subrange(0, n as int) =~= old_accounts);
        self.accounts = kept;
        proof {
            lemma_filter_view(self, old(self), src, t, ed);
            lemma_ledger_nonneg(self.accounts@);
            if old(self).no_dust() {
                lemma_no_dust_sum(old(self), t, ed);
            }
        }
        if dust > 0 {
            proof {
                self.lemma_account_bounded(t);
            }
            let mut data = self.accounts(t);
            data.free = data.free + dust;
            self.write_account(t, data);
        }
    }
}

/// The entries of `s` that are not due at `block`, in order.
pub open spec fn pending_after(s: Seq<ScheduledUnlock>, block: BlockNumber) -> Seq<ScheduledUnlock>
    decreases s.len(),
{
    if s.len() == 0 {
        Seq::empty()
    } else if s.last().at == block {
        pending_after(s.drop_last(), block)
    } else {
        pending_after(s.drop_last(), block).push(s.last())
    }
}

/// The entries of `s` that are due at `block`, in order.
pub open spec fn due_at(s: Seq<ScheduledUnlock>, block: BlockNumber) -> Seq<ScheduledUnlock>
    decreases s.len(),
{
    if s.len() == 0 {
        Seq::empty()
    } else if s.last().at == block {
        due_at(s.drop_last(), block).push(s.last())
    } else {
        due_at(s.drop_last(), block)
    }
}

proof fn lemma_pending_none_due(s: Seq<ScheduledUnlock>, block: BlockNumber)
    requires
        forall|k: int| 0 <= k < s.len() ==> s[k].at != block,
    ensures
        pending_after(s, block) == s,
    decreases s.len(),
{
    if s.len() > 0 {
        lemma_pending_none_due(s.drop_last(), block);
        assert(s.drop_last().push(s.last()) =~= s);
    }
}

proof fn lemma_pending_not_due(s: Seq<ScheduledUnlock>, block: BlockNumber)
    ensures
        forall|k: int| 0 <= k < pending_after(s, block).len() ==> pending_after(s, block)[k].at != block,
    decreases s.len(),
{
    if s.len() > 0 {
        lemma_pending_not_due(s.drop_last(), block);
        let p = pending_after(s.drop_last(), block);
        if s.last().at != block {
            assert forall|k: int| 0 <= k < p.push(s.last()).len() implies p.push(s.last())[k].at
                != block by {
                if k < p.len() {
                    assert(p.push(s.last())[k] == p[k]);
                }
            }
        }
    }
}

impl Bank {
    /// What releasing the unlocks due at `block` does to `pre`, giving `post`.
    pub open spec fn unlock_post(pre: &Bank, post: &Bank, block: BlockNumber) -> bool {
        &&& post.wf()
        &&& post.unlock_schedule@ == pending_after(pre.unlock_schedule@, block)
        &&& forall|w: AccountId|
            post.has_account(w) == pre.has_account(w) && post.account(w).total()
                == pre.account(w).total()
        &&& post.total_issuance == pre.total_issuance
        &&& post.config == pre.config
        &&& post.next_lock_id == pre.next_lock_id
        &&& post.interest_rate == pre.interest_rate
        &&& post.treasury == pre.treasury
        &&& (forall|k: int| 0 <= k < pre.unlock_schedule@.len() ==> pre.unlock_schedule@[k].at != block)
            ==> post.same_state(pre)
        &&& exists|steps: Seq<Bank>| Bank::unlock_steps(pre, post, steps, due_at(pre.unlock_schedule@, block))
    }

    /// `steps` runs from `pre` (with its schedule pruned) to `post`, each step releasing the
    /// next unlock of `due` as `expired_unlock` says.
    pub open spec fn unlock_steps(pre: &Bank, post: &Bank, steps: Seq<Bank>, due: Seq<ScheduledUnlock>) -> bool {
        &&& steps.len() == due.len() + 1
        &&& steps[0].accounts@ == pre.accounts@
        &&& steps[0].events@ == pre.events@
        &&& steps[0].total_issuance == pre.total_issuance
        &&& steps.last() == *post
        &&& forall|k: int|
            #![trigger steps[k + 1]]
            0 <= k < due.len() ==> Bank::expired_unlock(&steps[k], &steps[k + 1], due[k].who, due[k].lock_id)
    }

    /// `post` is `pre` after the scheduled release of the lock `id` of `who`: the first lock
    /// with that id is released by its reason, and nothing happens where there is none.
    pub open spec fn expired_unlock(pre: &Bank, post: &Bank, who: AccountId, id: LockId) -> bool {
        let a = pre.account(who);
        &&& !has_lock(a.locked, id) ==> *post == *pre
        &&& forall|i: int|
            first_lock(a.locked, id, i) ==> {
                &&& post.only_changed(pre, who, released(a, i))
                &&& !has_lock(post.account(who).locked, id)
                &&& post.events@ == pre.events@.push(
                    BankEvent::Unlocked { user: who, amount: a.locked[i].amount, reason: UnlockReason::Expired },
                )
                &&& post.total_issuance == pre.total_issuance
                &&& post.same_settings(pre)
            }
    }

    /// Releases every lock whose unlock is due at `block`, in the order they were scheduled,
    /// and drops those entries from the schedule. A lock that is already gone is skipped.
    pub fn process_unlocks(&mut self, block: BlockNumber)
        requires
            old(self).wf(),
        ensures
            Bank::unlock_post(old(self), final(self), block),
    {
        let ghost sched = self.unlock_schedule@;
        let mut remaining: Vec<ScheduledUnlock> = Vec::new();
        let mut due: Vec<ScheduledUnlock> = Vec::new();
        let mut i: usize = 0;
        let n = self.unlock_schedule.len();
        while i < n
            invariant
                self.unlock_schedule@ == sched,
                n == sched.len(),
                i <= n,
                remaining@ == pending_after(sched.subrange(0, i as int), block),
                due@ == due_at(sched.subrange(0, i as int), block),
                due@.len() == 0 || exists|k: int| 0 <= k < i && sched[k].at == block,
            decreases n - i,
        {
            let e = self.unlock_schedule[i];
            proof {
                assert(sched.subrange(0, i as int + 1).drop_last() =~= sched.subrange(0, i as int));
            }
            if e.at == block {
                due.push(e);
            } else {
                remaining.push(e);
            }
            i = i + 1;
        }
        proof {
            assert(sched.subrange(0, n as int) =~= sched);
            if forall|k: int| 0 <= k < sched.len() ==> sched[k].at != block {
                lemma_pending_none_due(sched, block);
            }
        }
        let ghost before = *self;
        self.unlock_schedule = remaining;
        proof {
            self.lemma_same_ledger(&before);
        }
        let ghost start = *self;
        let ghost mut steps: Seq<Bank> = seq![*self];
        let mut j: usize = 0;
        while j < due.len()
            invariant
                steps.len() == j + 1,
                steps[0] == start,
                steps.last() == *self,
                forall|k: int|
                    #![trigger steps[k + 1]]
                    0 <= k < j ==> Bank::expired_unlock(&steps[k], &steps[k + 1], due@[k].who, due@[k].lock_id),
                self.wf(),
                self.unlock_schedule@ == pending_after(sched, block),
                forall|w: AccountId|
                    self.has_account(w) == old(self).has_account(w) && self.account(w).total()
                        == old(self).account(w).total(),
                self.total_issuance == old(self).total_issuance,
                self.config == old(self).config,
                self.next_lock_id == old(self).next_lock_id,
                self.interest_rate == old(self).interest_rate,
                self.treasury == old(self).treasury,
                j <= due@.len(),
                j == 0 ==> self.same_state(&start),
                start.unlock_schedule@ == pending_after(sched, block),
                forall|w: AccountId|
                    start.has_account(w) == old(self).has_account(w) && start.account(w) == old(self).account(w),
                start.total_issuance == old(self).total_issuance,
                start.config == old(self).config,
                start.next_lock_id == old(self).next_lock_id,
                start.interest_rate == old(self).interest_rate,
                start.treasury == old(self).treasury,
            decreases due@.len() - j,
        {
            let e = due[j];
            let ghost prev = *self;
            let _ = self.unlock(e.who, e.lock_id, UnlockReason::Expired);
            proof {
                assert(Bank::expired_unlock(&prev, self, e.who, e.lock_id));
                steps = steps.push(*self);
                assert forall|k: int|
                    #![trigger steps[k + 1]]
                    0 <= k < j + 1 implies Bank::expired_unlock(&steps[k], &steps[k + 1], due@[k].who, due@[k].lock_id) by {
                    if k < j {
                        assert(steps[k] == steps.drop_last()[k]);
                        assert(steps[k + 1] == steps.drop_last()[k + 1]);
                    }
                }
            }
            j = j + 1;
        }
        proof {
            assert(Bank::unlock_steps(old(self), self, steps, due_at(sched, block)));
        }
        proof {
            if forall|k: int| 0 <= k < sched.len() ==> sched[k].at != block {
                assert(due@.len() == 0);
                assert(self.same_state(&start));
                assert forall|w: AccountId| self.has_account(w) == old(self).has_account(w)
                    && self.account(w) == old(self).account(w) by {
                    assert(self.has_account(w) == start.has_account(w));
                    assert(self.account(w) == start.account(w));
                }
            }
        }
    }
}

/// `new` is the entry `old` after a payout at `p` parts per billion of its reserved balance,
/// which is skipped only where it would carry the issuance `issuance` past the largest balance.
pub open spec fn paid_interest(
    old: (AccountId, AccountData),
    new: (AccountId, AccountData),
    p: u32,
    issuance: Balance,
) -> bool {
    let interest = perbill_apply(p, old.1.reserved);
    &&& new.0 == old.0
    &&& new.1@.free == old.1@.free
    &&& new.1@.locked == old.1@.locked
    &&& (new.1@.reserved == old.1@.reserved + interest || (new.1@.reserved == old.1@.reserved
        && issuance + interest > u128::MAX))
}

proof fn lemma_perbill_apply_bounds(p: u32, x: u128)
    ensures
        perbill_apply(p, x) >= 0,
        p == 0 ==> perbill_apply(p, x) == 0,
{
    let billion = PERBILL_ONE as int;
    let q = x as int / billion;
    let rem = x as int % billion;
    assert(q >= 0 && rem >= 0) by (nonlinear_arith)
        requires
            q == x as int / billion,
            rem == x as int % billion,
            billion == 1_000_000_000,
            x >= 0,
    ;
    assert(q * (p as int) >= 0 && rem * (p as int) >= 0) by (nonlinear_arith)
        requires
            q >= 0,
            rem >= 0,
            p >= 0,
    ;
    assert((rem * (p as int)) / billion >= 0) by (nonlinear_arith)
        requires
            rem * (p as int) >= 0,
            billion == 1_000_000_000,
    ;
    if p == 0 {
        assert(q * (p as int) == 0 && rem * (p as int) == 0) by (nonlinear_arith)
            requires
                p == 0,
        ;
    }
}

impl Bank {
    /// The share of the yearly rate paid on each payout, in parts per billion.
    pub open spec fn payout_rate(&self) -> int {
        perbill_product(
            self.interest_rate,
            perbill_ratio(self.config.interest_payout_period, self.config.total_blocks_per_year) as u32,
        )
    }

    /// Two ledgers with the same keys at the same positions have the same accounts, and the
    /// balances of each account are found at one position in both.
    proof fn lemma_same_keys(&self, old: &Bank)
        requires
            old.keys_unique(),
            self.accounts@.len() == old.accounts@.len(),
            forall|j: int| 0 <= j < old.accounts@.len() ==> self.accounts@[j].0 == old.accounts@[j].0,
        ensures
            self.keys_unique(),
            forall|w: AccountId|
                self.has_account(w) == old.has_account(w) && (old.has_account(w) ==> exists|j: int|
                    0 <= j < old.accounts@.len() && old.accounts@[j].0 == w && self.account(w)
                        == self.accounts@[j].1@ && old.account(w) == old.accounts@[j].1@),
    {
        let s = self.accounts@;
        let o = old.accounts@;
        assert forall|a: int, b: int| 0 <= a < b < s.len() implies s[a].0 != s[b].0 by {
            assert(s[a].0 == o[a].0 && s[b].0 == o[b].0);
        }
        assert forall|w: AccountId|
            self.has_account(w) == old.has_account(w) && (old.has_account(w) ==> exists|j: int|
                0 <= j < o.len() && o[j].0 == w && self.account(w) == s[j].1@ && old.account(w)
                    == o[j].1@) by {
            if old.has_account(w) {
                let j = choose|j: int| 0 <= j < o.len() && o[j].0 == w;
                assert(s[j].0 == w);
                let j2 = choose|j2: int| 0 <= j2 < s.len() && s[j2].0 == w;
                assert(j2 == j);
            }
            if self.has_account(w) {
                let j = choose|j: int| 0 <= j < s.len() && s[j].0 == w;
                assert(o[j].0 == w);
            }
        }
    }

    /// What the interest step at `block` does to `pre`, giving `post`.
    pub open spec fn interest_post(pre: &Bank, post: &Bank, block: BlockNumber) -> bool {
        &&& post.wf()
        &&& block % pre.config.interest_payout_period != 0 ==> *post == *pre
        &&& block % pre.config.interest_payout_period == 0 ==> {
            &&& post.accounts@.len() == pre.accounts@.len()
            &&& forall|j: int|
                0 <= j < pre.accounts@.len() ==> paid_interest(
                    pre.accounts@[j],
                    post.accounts@[j],
                    pre.payout_rate() as u32,
                    post.total_issuance,
                )
            &&& post.total_issuance >= pre.total_issuance
            &&& post.events@ == pre.events@.push(
                BankEvent::InterestPayed {
                    interest_rate: pre.interest_rate,
                    total_interest_payed: (post.total_issuance
                        - pre.total_issuance) as u128,
                },
            )
            &&& post.same_settings(pre)
        }
        &&& forall|w: AccountId|
            post.has_account(w) == pre.has_account(w) && post.account(w).total()
                >= pre.account(w).total()
        &&& pre.payout_rate() == 0 ==> post.same_state(pre)
    }

    /// On a payout block, adds to every reserved balance its interest for one payout period,
    /// rounded to the nearest unit, and adds the same to the total issuance.
    pub fn pay_interest(&mut self, block: BlockNumber)
        requires
            old(self).wf(),
        ensures
            Bank::interest_post(old(self), final(self), block),
    {
        if block % self.config.interest_payout_period != 0 {
            return;
        }
        let rate = self.interest_rate;
        let share = perbill_from_rational(
            self.config.interest_payout_period,
            self.config.total_blocks_per_year,
        );
        proof {
            lemma_perbill_ratio_bound(
                self.config.interest_payout_period,
                self.config.total_blocks_per_year,
            );
        }
        let p = perbill_mul(rate, share);
        proof {
            lemma_perbill_product_bound(rate, share);
        }
        let ghost o = self.accounts@;
        let start_issuance = self.total_issuance;
        let n = self.accounts.len();
        let mut i: usize = 0;
        while i < n
            invariant
                old(self).wf(),
                o == old(self).accounts@,
                p as int == old(self).payout_rate(),
                p <= PERBILL_ONE,
                start_issuance == old(self).total_issuance,
                n == o.len(),
                i <= n,
                self.accounts@.len() == n,
                self.keys_unique(),
                self.conserves(),
                self.locks_valid(),
                self.config == old(self).config,
                self.same_settings(old(self)),
                self.events@ == old(self).events@,
                self.total_issuance >= start_issuance,
                forall|j: int| 0 <= j < n ==> self.accounts@[j].0 == o[j].0,
                forall|j: int| 0 <= j < i ==> paid_interest(o[j], self.accounts@[j], p, self.total_issuance),
                forall|j: int| i <= j < n ==> self.accounts@[j] == o[j],
                p == 0 ==> self.total_issuance == start_issuance && forall|j: int|
                    0 <= j < n ==> self.accounts@[j].1@ == o[j].1@,
            decreases n - i,
        {
            let reserved = self.accounts[i].1.reserved;
            let interest = perbill_mul_balance(p, reserved);
            proof {
                lemma_perbill_apply_bounds(p, reserved);
            }
            if interest <= u128::MAX - self.total_issuance {
                proof {
                    lemma_ledger_elem(self.accounts@, i as int);
                    lemma_locked_nonneg(self.accounts@[i as int].1@.locked);
                }
                let key = self.accounts[i].0;
                let mut data = copy_account(&self.accounts[i].1);
                data.reserved = data.reserved + interest;
                let ghost before = self.accounts@;
                self.accounts.set(i, (key, data));
                proof {
                    lemma_ledger_update(before, i as int, (key, data));
                    assert forall|k: int| 0 <= k < self.accounts@.len() implies #[trigger] locks_fresh(
                        self.accounts@[k].1@.locked,
                        self.next_lock_id,
                    ) by {
                        assert(locks_fresh(before[k].1@.locked, self.next_lock_id));
                    }
                }
                self.total_issuance = self.total_issuance + interest;
            }
            i = i + 1;
        }
        let total_paid = self.total_issuance - start_issuance;
        let ghost mid = *self;
        self.events.push(BankEvent::InterestPayed { interest_rate: rate, total_interest_payed: total_paid });
        proof {
            self.lemma_same_ledger(&mid);
            self.lemma_same_keys(old(self));
            assert forall|w: AccountId|
                self.has_account(w) == old(self).has_account(w) && self.account(w).total()
                    >= old(self).account(w).total() by {
                if old(self).has_account(w) {
                    let j = choose|j: int|
                        0 <= j < o.len() && o[j].0 == w && self.account(w) == self.accounts@[j].1@
                            && old(self).account(w) == o[j].1@;
                    assert(paid_interest(o[j], self.accounts@[j], p, self.total_issuance));
                    lemma_perbill_apply_bounds(p, o[j].1.reserved);
                }
            }
        }
    }
}

impl Bank {
    /// What one block's finalization does to `pre`, giving `post`: reaping, then the unlocks due
    /// at `block`, then interest.
    pub open spec fn finalize_post(pre: &Bank, post: &Bank, block: BlockNumber) -> bool {
        exists|reaped: Bank, unlocked: Bank|
            Bank::reap_post(pre, &reaped) && Bank::unlock_post(&reaped, &unlocked, block)
                && Bank::interest_post(&unlocked, post, block)
    }

    /// The work of the end of block `block`: reaps dust accounts (where a treasury is set),
    /// releases the unlocks due at `block`, and pays interest on payout blocks. It never fails.
    pub fn on_finalize(&mut self, block: BlockNumber)
        requires
            old(self).wf(),
        ensures
            final(self).wf(),
            Bank::finalize_post(old(self), final(self), block),
    {
        self.reap_accounts();
        let ghost reaped = *self;
        self.process_unlocks(block);
        let ghost unlocked = *self;
        self.pay_interest(block);
        assert(Bank::reap_post(old(self), &reaped) && Bank::unlock_post(&reaped, &unlocked, block)
            && Bank::interest_post(&unlocked, self, block));
    }
}

/// Finalizing the same block a second time, with nothing in between, leaves the bank as the
/// first finalization left it: nothing is left to reap, no unlock is due any more, and (off a
/// payout block, or at a zero rate) no interest is paid.
pub proof fn lemma_finalize_twice(b0: &Bank, b1: &Bank, b2: &Bank, block: BlockNumber)
    requires
        b0.wf(),
        Bank::finalize_post(b0, b1, block),
        Bank::finalize_post(b1, b2, block),
        block % b0.config.interest_payout_period != 0 || b0.interest_rate == 0,
    ensures
        b2.same_state(b1),
{
    let (r1, u1) = choose|r: Bank, u: Bank|
        Bank::reap_post(b0, &r) && Bank::unlock_post(&r, &u, block) && Bank::interest_post(&u, b1, block);
    let (r2, u2) = choose|r: Bank, u: Bank|
        Bank::reap_post(b1, &r) && Bank::unlock_post(&r, &u, block) && Bank::interest_post(&u, b2, block);
    // After the first run nothing is dust and nothing is due.
    assert(u1.treasury is Some ==> u1.no_dust());
    assert(b1.treasury is None || b1.no_dust());
    lemma_pending_not_due(r1.unlock_schedule@, block);
    assert(forall|k: int| 0 <= k < b1.unlock_schedule@.len() ==> b1.unlock_schedule@[k].at != block);
    // The second run changes nothing.
    assert(r2.same_state(b1));
    assert(forall|k: int| 0 <= k < r2.unlock_schedule@.len() ==> r2.unlock_schedule@[k].at != block);
    assert(u2.same_state(&r2));
    if block % b0.config.interest_payout_period == 0 {
        lemma_perbill_product_zero(
            perbill_ratio(b0.config.interest_payout_period, b0.config.total_blocks_per_year) as u32,
        );
        assert(u2.payout_rate() == 0);
    }
    assert(b2.same_state(&u2));
}

/// `s` with every entry of `from` handed to `to`.
pub open spec fn retarget(s: Seq<ScheduledUnlock>, from: AccountId, to: AccountId) -> Seq<ScheduledUnlock> {
    Seq::new(
        s.len(),
        |k: int|
            if s[k].who == from {
                ScheduledUnlock { who: to, ..s[k] }
            } else {
                s[k]
            },
    )
}

/// The block of the first unlock of `s` for the lock `lock_id` of `who`, or zero.
pub open spec fn unlock_block(s: Seq<ScheduledUnlock>, who: AccountId, lock_id: LockId) -> BlockNumber
    decreases s.len(),
{
    if s.len() == 0 {
        0
    } else if s[0].who == who && s[0].lock_id == lock_id {
        s[0].at
    } else {
        unlock_block(s.subrange(1, s.len() as int), who, lock_id)
    }
}

/// The sum of the amounts of `s`.
pub open spec fn balances_sum(s: Seq<(AccountId, Balance)>) -> int
    decreases s.len(),
{
    if s.len() == 0 {
        0
    } else {
        balances_sum(s.drop_last()) + s.last().1
    }
}

/// The yearly interest implied by a growth factor `growth` (a `FixedU128` inner value) on
/// `principal`: the grown amount, rounded down and capped, less the principal.
pub open spec fn growth_interest(growth: u128, principal: u128) -> int {
    let grown = fixed_apply(growth, principal);
    if grown >= principal {
        grown - principal
    } else {
        0
    }
}

/// The interest that `principal` earns over a year when it grows by the factor `growth`.
pub fn interest_from_growth(growth: u128, principal: u128) -> (r: Balance)
    ensures
        r as int == growth_interest(growth, principal),
{
    let grown = fixed_saturating_mul_int(growth, principal);
    if grown >= principal {
        grown - principal
    } else {
        0
    }
}

impl Bank {
    /// The number of payouts in a year, as the fixed-point division computes it.
    pub open spec fn payouts_per_year(&self) -> int {
        fixed_apply(
            ((self.config.total_blocks_per_year as int) * (FIXED_ONE as int)
                / (self.config.interest_payout_period as int)) as u128,
            1,
        )
    }

    /// The growth factor of one payout, as a `FixedU128` inner value.
    pub open spec fn payout_growth(&self) -> int {
        self.payout_rate() * 1_000_000_000 + FIXED_ONE
    }

    /// The interest that the reserved balance of `who` would earn in a year at the current
    /// rate, compounded on every payout.
    pub fn interest_pa(&self, who: AccountId) -> (r: Balance)
        requires
            self.wf(),
        ensures
            r as int == growth_interest(
                fixed_pow(self.payout_growth() as u128, self.payouts_per_year() as nat),
                self.account(who).reserved,
            ),
    {
        let initial = self.staked(who);
        let year = self.config.total_blocks_per_year;
        let period = self.config.interest_payout_period;
        let per_year = fixed_from_rational(year, period);
        let times = fixed_saturating_mul_int(per_year, 1);
        proof {
            let d = FIXED_ONE as int;
            assert((year as int) * d / (period as int) <= (year as int) * d) by (nonlinear_arith)
                requires
                    period >= 1,
                    year >= 0,
                    d > 0,
            ;
            assert(per_year as int * 1 == per_year as int);
            vstd::arithmetic::div_mod::lemma_div_is_ordered(per_year as int, (year as int) * d, d);
            vstd::arithmetic::div_mod::lemma_div_multiples_vanish(year as int, d);
            assert((year as int) * d == d * (year as int)) by (nonlinear_arith);
            lemma_perbill_ratio_bound(period, year);
        }
        let share = perbill_from_rational(period, year);
        let per_payout = perbill_mul(self.interest_rate, share);
        proof {
            lemma_perbill_product_bound(self.interest_rate, share);
        }
        let base = fixed_from_perbill(per_payout) + FIXED_ONE;
        let growth = fixed_saturating_pow(base, times as usize);
        interest_from_growth(growth, initial)
    }

    /// The block at which the lock `lock_id` of `who` is scheduled to be released, or zero
    /// where no such unlock is scheduled.
    pub fn fund_unlock_at(&self, who: AccountId, lock_id: LockId) -> (r: BlockNumber)
        ensures
            r == unlock_block(self.unlock_schedule@, who, lock_id),
    {
        let mut i: usize = 0;
        let n = self.unlock_schedule.len();
        proof {
            assert(self.unlock_schedule@.subrange(0, n as int) =~= self.unlock_schedule@);
        }
        while i < n
            invariant
                n == self.unlock_schedule@.len(),
                i <= n,
                unlock_block(self.unlock_schedule@, who, lock_id) == unlock_block(
                    self.unlock_schedule@.subrange(i as int, n as int),
                    who,
                    lock_id,
                ),
            decreases n - i,
        {
            let e = self.unlock_schedule[i];
            let ghost rest = self.unlock_schedule@.subrange(i as int, n as int);
            proof {
                assert(rest[0] == e);
                assert(rest.subrange(1, rest.len() as int) =~= self.unlock_schedule@.subrange(
                    i + 1,
                    n as int,
                ));
            }
            if e.who == who && e.lock_id == lock_id {
                return e.at;
            }
            i = i + 1;
        }
        0
    }

    /// The outcome of handing the treasury to `new_treasury`.
    pub open spec fn rotate_result(&self, roles: &Roles, new_treasury: AccountId) -> Result<(), Error> {
        if self.has_account(new_treasury) || roles.role_of(new_treasury) is Some {
            Err(Error::AccountIdAlreadyTaken)
        } else {
            Ok(())
        }
    }

    /// `post` is `pre` after the treasury was handed to `new_treasury`: the old treasury's
    /// balances and scheduled unlocks now belong to it.
    pub open spec fn treasury_rotated(pre: &Bank, post: &Bank, new_treasury: AccountId) -> bool {
        &&& post.treasury == Some(new_treasury)
        &&& post.total_issuance == pre.total_issuance
        &&& post.config == pre.config
        &&& post.next_lock_id == pre.next_lock_id
        &&& post.interest_rate == pre.interest_rate
        &&& post.events@ == pre.events@.push(
            BankEvent::TreasuryAccountRotated { old: pre.treasury, new: new_treasury },
        )
        &&& match pre.treasury {
            None => post.unlock_schedule@ == pre.unlock_schedule@
                && forall|w: AccountId|
                post.has_account(w) == pre.has_account(w) && post.account(w)
                    == pre.account(w),
            Some(t) => {
                &&& post.unlock_schedule@ == retarget(
                    pre.unlock_schedule@,
                    t,
                    new_treasury,
                )
                &&& post.has_account(new_treasury)
                &&& post.account(new_treasury) == pre.account(t)
                &&& t != new_treasury ==> !post.has_account(t)
                &&& forall|w: AccountId|
                    w != t && w != new_treasury ==> post.has_account(w) == pre.has_account(w) && post.account(w) == pre.account(w)
            },
        }
    }

    /// Hands the treasury to `new_treasury`, an account with neither an entry nor a role, on
    /// the council's authority: the old treasury's balances and scheduled unlocks move with it.
    pub fn rotate_treasury(&mut self, roles: &Roles, new_treasury: AccountId) -> (r: Result<(), Error>)
        requires
            old(self).wf(),
            roles.wf(),
        ensures
            final(self).wf(),
            r == old(self).rotate_result(roles, new_treasury),
            r is Err ==> *final(self) == *old(self),
            r is Ok ==> Bank::treasury_rotated(old(self), final(self), new_treasury),
    {
        if self.find(new_treasury).is_some() || roles.role(new_treasury).is_some() {
            return Err(Error::AccountIdAlreadyTaken);
        }
        let old_treasury = self.treasury;
        if let Some(t) = old_treasury {
            let ghost sched = self.unlock_schedule@;
            let mut moved: Vec<ScheduledUnlock> = Vec::new();
            let mut i: usize = 0;
            while i < self.unlock_schedule.len()
                invariant
                    self.unlock_schedule@ == sched,
                    i <= sched.len(),
                    moved@ =~= retarget(sched, t, new_treasury).subrange(0, i as int),
                decreases sched.len() - i,
            {
                let e = self.unlock_schedule[i];
                if e.who == t {
                    moved.push(ScheduledUnlock { at: e.at, who: new_treasury, lock_id: e.lock_id });
                } else {
                    moved.push(e);
                }
                i = i + 1;
            }
            proof {
                assert(retarget(sched, t, new_treasury).subrange(0, sched.len() as int) =~= retarget(
                    sched,
                    t,
                    new_treasury,
                ));
            }
            let ghost pre_move = *self;
            self.unlock_schedule = moved;
            let ghost before = *self;
            proof {
                self.lemma_same_ledger(&pre_move);
            }
            match self.find(t) {
                Some(i) => {
                    let data = copy_account(&self.accounts[i].1);
                    self.accounts.set(i, (new_treasury, data));
                    proof {
                        lemma_ledger_update(before.accounts@, i as int, (new_treasury, data));
                        lemma_rekey(self, &before, t, new_treasury, i as int);
                    }
                },
                None => {
                    let data = AccountData { free: 0, reserved: 0, locked: Vec::new() };
                    self.write_account(new_treasury, data);
                    proof {
                        assert(data@ == AccountState::zero());
                        assert(before.account(t) == AccountState::zero());
                    }
                },
            }
        }
        self.treasury = Some(new_treasury);
        let ghost mid = *self;
        self.events.push(BankEvent::TreasuryAccountRotated { old: old_treasury, new: new_treasury });
        proof {
            self.lemma_same_ledger(&mid);
        }
        Ok(())
    }
}

/// After the entry of `t` at position `i` is given the key `n`, which had no entry, `n` holds
/// what `t` held and `t` holds nothing.
proof fn lemma_rekey(new: &Bank, old: &Bank, t: AccountId, n: AccountId, i: int)
    requires
        old.keys_unique(),
        !old.has_account(n),
        0 <= i < old.accounts@.len(),
        old.accounts@[i].0 == t,
        new.accounts@.len() == old.accounts@.len(),
        new.accounts@[i].0 == n,
        new.accounts@[i].1@ == old.accounts@[i].1@,
        forall|k: int| 0 <= k < old.accounts@.len() && k != i ==> new.accounts@[k] == old.accounts@[k],
    ensures
        new.keys_unique(),
        new.has_account(n),
        new.account(n) == old.account(t),
        t != n ==> !new.has_account(t),
        forall|w: AccountId|
            w != t && w != n ==> new.has_account(w) == old.has_account(w) && new.account(w) == old.account(w),
{
    let s = new.accounts@;
    let o = old.accounts@;
    assert forall|a: int, b: int| 0 <= a < b < s.len() implies s[a].0 != s[b].0 by {
        if a == i {
            assert(s[b] == o[b]);
            assert(o[b].0 != n);
        } else if b == i {
            assert(s[a] == o[a]);
            assert(o[a].0 != n);
        } else {
            assert(s[a] == o[a] && s[b] == o[b]);
        }
    }
    let j = choose|j: int| 0 <= j < s.len() && s[j].0 == n;
    assert(s[i].0 == n);
    assert(j == i);
    assert(old.has_account(t));
    let jt = choose|jt: int| 0 <= jt < o.len() && o[jt].0 == t;
    assert(jt == i);
    if t != n && new.has_account(t) {
        let k = choose|k: int| 0 <= k < s.len() && s[k].0 == t;
        assert(k != i);
        assert(s[k] == o[k]);
    }
    assert forall|w: AccountId| w != t && w != n implies new.has_account(w) == old.has_account(w)
        && new.account(w) == old.account(w) by {
        if old.has_account(w) {
            let k = choose|k: int| 0 <= k < o.len() && o[k].0 == w;
            assert(k != i);
            assert(s[k] == o[k]);
            let k2 = choose|k2: int| 0 <= k2 < s.len() && s[k2].0 == w;
            assert(k2 == k);
        }
        if new.has_account(w) {
            let k = choose|k: int| 0 <= k < s.len() && s[k].0 == w;
            assert(k != i);
            assert(s[k] == o[k]);
        }
    }
}

/// Some entry of `s[0..n]` is for `w`.
pub open spec fn listed(s: Seq<(AccountId, Balance)>, n: int, w: AccountId) -> bool {
    exists|k: int| 0 <= k < n && s[k].0 == w
}

proof fn lemma_balances_prefix(s: Seq<(AccountId, Balance)>, i: int)
    requires
        0 <= i < s.len(),
    ensures
        balances_sum(s.subrange(0, i + 1)) == balances_sum(s.subrange(0, i)) + s[i].1,
{
    assert(s.subrange(0, i + 1).drop_last() =~= s.subrange(0, i));
}

proof fn lemma_balances_prefix_le(s: Seq<(AccountId, Balance)>, i: int)
    requires
        0 <= i <= s.len(),
    ensures
        balances_sum(s.subrange(0, i)) <= balances_sum(s),
    decreases s.len() - i,
{
    if i == s.len() {
        assert(s.subrange(0, i) =~= s);
    } else {
        lemma_balances_prefix_le(s, i + 1);
        lemma_balances_prefix(s, i);
    }
}

impl Bank {
    /// The starting ledger: each listed account is registered as a customer (where it holds no
    /// role yet) and holds its amount as free balance; the total issuance is their sum.
    pub fn genesis(config: BankConfig, roles: &mut Roles, balances: &Vec<(AccountId, Balance)>) -> (r:
        Bank)
        requires
            config.valid(),
            old(roles).wf(),
            forall|i: int| 0 <= i < balances@.len() ==> balances@[i].1 >= config.existential_deposit,
            forall|i: int, j: int|
                0 <= i < j < balances@.len() ==> balances@[i].0 != balances@[j].0,
            balances_sum(balances@) <= u128::MAX,
        ensures
            r.wf(),
            final(roles).wf(),
            r.config == config,
            r.total_issuance == balances_sum(balances@),
            forall|i: int|
                0 <= i < balances@.len() ==> r.has_account(balances@[i].0) && r.account(balances@[i].0)
                    == (AccountState { free: balances@[i].1, ..AccountState::zero() }),
            forall|w: AccountId|
                !listed(balances@, balances@.len() as int, w) ==> !r.has_account(w) && final(roles).role_of(w) == old(roles).role_of(w),
            forall|i: int|
                0 <= i < balances@.len() ==> final(roles).role_of(balances@[i].0) == if old(roles).role_of(balances@[i].0) is Some {
                    old(roles).role_of(balances@[i].0)
                } else {
                    Some(Role::Customer)
                },
            r.unlock_schedule@.len() == 0,
            r.next_lock_id == 0,
            r.interest_rate == 0,
            r.treasury is None,
    {
        let mut bank = Bank::new(config);
        let mut i: usize = 0;
        while i < balances.len()
            invariant
                bank.wf(),
                roles.wf(),
                i <= balances@.len(),
                bank.config == config,
                bank.total_issuance == balances_sum(balances@.subrange(0, i as int)),
                balances_sum(balances@) <= u128::MAX,
                forall|a: int, b: int|
                    0 <= a < b < balances@.len() ==> balances@[a].0 != balances@[b].0,
                forall|k: int|
                    0 <= k < i ==> bank.has_account(balances@[k].0) && bank.account(balances@[k].0)
                        == (AccountState { free: balances@[k].1, ..AccountState::zero() }),
                forall|w: AccountId|
                    #![trigger bank.has_account(w)]
                    !listed(balances@, i as int, w) ==> !bank.has_account(w),
                forall|w: AccountId|
                    #![trigger roles.role_of(w)]
                    !listed(balances@, i as int, w) ==> roles.role_of(w) == old(roles).role_of(w),
                forall|k: int|
                    0 <= k < i ==> roles.role_of(balances@[k].0) == if old(roles).role_of(
                        balances@[k].0,
                    ) is Some {
                        old(roles).role_of(balances@[k].0)
                    } else {
                        Some(Role::Customer)
                    },
                bank.unlock_schedule@.len() == 0,
                bank.next_lock_id == 0,
                bank.interest_rate == 0,
                bank.treasury is None,
            decreases balances@.len() - i,
        {
            let (who, amount) = balances[i];
            proof {
                lemma_balances_prefix(balances@, i as int);
                lemma_balances_prefix_le(balances@, i as int + 1);
                assert(!bank.has_account(who)) by {
                    if listed(balances@, i as int, who) {
                        let k = choose|k: int| 0 <= k < i && balances@[k].0 == who;
                        assert(balances@[i as int].0 == who);
                    }
                }
            }
            let ghost bank0 = bank;
            let ghost roles0 = *roles;
            let _ = roles.register_role(who, Role::Customer);
            let data = AccountData { free: amount, reserved: 0, locked: Vec::new() };
            proof {
                assert(data@.locked =~= Seq::<LockedFund>::empty());
                assert(data@.total() == amount) by {
                    assert(locked_sum(data@.locked) == 0);
                }
            }
            bank.write_account(who, data);
            let ghost mid = bank;
            bank.total_issuance = bank.total_issuance + amount;
            proof {
                bank.lemma_same_ledger(&mid);
                assert forall|w: AccountId| !listed(balances@, i + 1, w) implies !bank.has_account(w)
                    && roles.role_of(w) == old(roles).role_of(w) by {
                    assert(balances@[i as int].0 != w);
                    assert(!listed(balances@, i as int, w));
                    assert(!bank0.has_account(w));
                    assert(roles0.role_of(w) == old(roles).role_of(w));
                }
                assert forall|k: int| 0 <= k < i + 1 implies bank.has_account(balances@[k].0)
                    && bank.account(balances@[k].0) == (AccountState {
                    free: balances@[k].1,
                    ..AccountState::zero()
                }) by {
                    if k < i {
                        assert(balances@[k].0 != who);
                        assert(bank0.has_account(balances@[k].0));
                    } else {
                        assert(data@ == (AccountState { free: amount, ..AccountState::zero() }));
                    }
                }
                assert forall|k: int| 0 <= k < i + 1 implies roles.role_of(balances@[k].0) == if old(roles).role_of(balances@[k].0) is Some {
                    old(roles).role_of(balances@[k].0)
                } else {
                    Some(Role::Customer)
                } by {
                    if k < i {
                        assert(balances@[k].0 != who);
                    }
                }
            }
            i = i + 1;
        }
        proof {
            assert(balances@.subrange(0, balances@.len() as int) =~= balances@);
        }
        bank
    }
}

/// A copy of `a` with the same value.
pub fn copy_account(a: &AccountData) -> (r: AccountData)
    ensures
        r@ == a@,
{
    let mut locked: Vec<LockedFund> = Vec::new();
    let mut i: usize = 0;
    while i < a.locked.len()
        invariant
            i <= a.locked@.len(),
            locked@ == a.locked@.subrange(0, i as int),
        decreases a.locked@.len() - i,
    {
        locked.push(a.locked[i]);
        i = i + 1;
        assert(locked@ =~= a.locked@.subrange(0, i as int));
    }
    assert(locked@ =~= a.locked@);
    AccountData { free: a.free, reserved: a.reserved, locked }
}

/// Conservation: in every well-formed bank, and so after every operation (each of which keeps
/// the bank well formed), the total issuance is the sum over all accounts of free, reserved
/// and locked funds.
pub proof fn lemma_conservation(b: &Bank)
    requires
        b.wf(),
    ensures
        b.total_issuance as int == ledger_sum(b.accounts@),
        forall|w: AccountId| b.account(w).total() <= b.total_issuance,
{
    assert forall|w: AccountId| b.account(w).total() <= b.total_issuance by {
        b.lemma_account_bounded(w);
    }
}

} // verus!
