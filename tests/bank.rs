use xy_chain::{
    AccountData, AccountId, Balance, Bank, BankConfig, BankEvent, Error, LockReason, LockedFund,
    Role, Roles, ScheduledUnlock, UnlockReason,
};

const ALICE: AccountId = 1;
const BOB: AccountId = 2;
const CHARLIE: AccountId = 3;
const TREASURY: AccountId = 0;
const INITIAL_BALANCE: Balance = 1_000_000;
const REDEEM_PERIOD: u32 = 200;
const STAKE_PERIOD: u32 = 150;
const INTEREST_PAYOUT_PERIOD: u32 = 100;
const YEAR: u32 = 5_256_000;

fn config() -> BankConfig {
    BankConfig {
        existential_deposit: 3,
        minimum_amount: 5,
        redeem_period: REDEEM_PERIOD,
        stake_period: STAKE_PERIOD,
        interest_payout_period: INTEREST_PAYOUT_PERIOD,
        total_blocks_per_year: YEAR,
    }
}

struct Env {
    roles: Roles,
    bank: Bank,
    now: u32,
}

/// The listed accounts, plus the treasury account with its initial balance, as customers.
fn build(balances: Vec<(AccountId, Balance)>) -> Env {
    let mut roles = Roles::new();
    let mut all = balances;
    all.push((TREASURY, INITIAL_BALANCE));
    let bank = Bank::genesis(config(), &mut roles, &all);
    Env { roles, bank, now: 1 }
}

fn default_env() -> Env {
    build(vec![])
}

fn zero() -> AccountData {
    AccountData { free: 0, reserved: 0, locked: vec![] }
}

/// Stakes `amount` for `user` and finalizes the block at which the stake is released.
fn stake(env: &mut Env, user: AccountId, amount: Balance) {
    let reserved = env.bank.accounts(user).reserved;
    let _ = env.bank.stake_funds(&env.roles, user, amount, env.now);
    env.bank.on_finalize(env.now + STAKE_PERIOD);
    assert_eq!(env.bank.accounts(user).reserved, reserved.saturating_add(amount));
    assert!(env.bank.events.contains(&BankEvent::Locked {
        user,
        amount,
        length: STAKE_PERIOD,
        reason: LockReason::Stake,
    }));
    assert_eq!(
        env.bank.events.last(),
        Some(&BankEvent::Unlocked { user, amount, reason: UnlockReason::Expired })
    );
}

#[test]
fn tests_can_deposit() {
    let mut env = default_env();
    assert_eq!(env.bank.accounts(ALICE), zero());
    assert_eq!(env.bank.accounts(BOB), zero());
    assert_eq!(env.roles.register_role(ALICE, Role::Manager), Ok(()));
    assert_eq!(env.roles.register_role(BOB, Role::Customer), Ok(()));
    assert_eq!(env.bank.deposit(&env.roles, ALICE, BOB, 1_000), Ok(()));
    assert_eq!(env.bank.events.last(), Some(&BankEvent::Deposited { user: BOB, amount: 1_000 }));
    assert_eq!(env.bank.accounts(BOB).free, 1_000);
    assert_eq!(env.bank.deposit(&env.roles, ALICE, ALICE, 500), Err(Error::IncorrectRole));
    assert!(env.bank.check_total_issuance());

    let env = build(vec![(ALICE, 1_000_000), (BOB, 50)]);
    assert_eq!(env.bank.accounts(ALICE).free, 1_000_000);
    assert_eq!(env.bank.accounts(BOB).free, 50);
}

#[test]
fn tests_can_withdraw() {
    let mut env = build(vec![(BOB, 500)]);
    assert_eq!(env.roles.register_role(ALICE, Role::Manager), Ok(()));
    assert_eq!(env.bank.accounts(BOB).free, 500);
    assert_eq!(env.bank.withdraw(&env.roles, ALICE, BOB, 100), Ok(()));
    assert_eq!(env.bank.events.last(), Some(&BankEvent::Withdrew { user: BOB, amount: 100 }));
    assert_eq!(env.bank.accounts(BOB).free, 400);
    assert_eq!(env.bank.withdraw(&env.roles, ALICE, BOB, 500), Err(Error::InsufficientBalance));
    assert_eq!(env.bank.withdraw(&env.roles, ALICE, ALICE, 500), Err(Error::IncorrectRole));
    assert!(env.bank.check_total_issuance());
}

#[test]
fn tests_can_transfer() {
    let mut env = build(vec![(ALICE, 1_000), (BOB, 500)]);
    assert_eq!(env.bank.transfer(&env.roles, ALICE, BOB, 100), Ok(()));
    assert_eq!(
        env.bank.events.last(),
        Some(&BankEvent::Transferred { from: ALICE, to: BOB, amount: 100 })
    );
    assert_eq!(env.bank.accounts(BOB).free, 600);
    assert_eq!(env.bank.accounts(ALICE).free, 900);
    assert_eq!(env.bank.transfer(&env.roles, ALICE, BOB, 1_000), Err(Error::InsufficientBalance));
    assert_eq!(env.bank.accounts(3), zero());
    assert_eq!(env.roles.register_role(3, Role::Manager), Ok(()));
    assert_eq!(env.bank.transfer(&env.roles, 3, BOB, 100), Err(Error::IncorrectRole));
    assert!(env.bank.check_total_issuance());
}

#[test]
fn cannot_deal_with_smaller_than_min() {
    let mut env = default_env();
    assert_eq!(env.bank.accounts(ALICE), zero());
    assert_eq!(env.bank.accounts(BOB), zero());
    assert_eq!(env.bank.accounts(CHARLIE), zero());
    assert_eq!(env.roles.register_role(ALICE, Role::Customer), Ok(()));
    assert_eq!(env.roles.register_role(BOB, Role::Customer), Ok(()));
    assert_eq!(env.roles.register_role(CHARLIE, Role::Manager), Ok(()));
    assert_eq!(env.bank.deposit(&env.roles, CHARLIE, BOB, 4), Err(Error::AmountTooSmall));
    assert_eq!(env.bank.withdraw(&env.roles, CHARLIE, BOB, 4), Err(Error::AmountTooSmall));
    assert_eq!(env.bank.transfer(&env.roles, ALICE, BOB, 4), Err(Error::AmountTooSmall));
    assert_eq!(env.bank.stake_funds(&env.roles, ALICE, 4, env.now), Err(Error::AmountTooSmall));
    assert_eq!(env.bank.redeem_funds(&env.roles, ALICE, 4, env.now), Err(Error::AmountTooSmall));
}

#[test]
fn can_reap_accounts() {
    let mut env = default_env();
    env.bank.treasury = Some(TREASURY);
    assert_eq!(env.bank.accounts(ALICE), zero());
    assert_eq!(env.bank.accounts(BOB), zero());
    assert_eq!(env.bank.accounts(CHARLIE), zero());
    assert_eq!(env.roles.register_role(ALICE, Role::Customer), Ok(()));
    assert_eq!(env.roles.register_role(BOB, Role::Customer), Ok(()));
    assert_eq!(env.roles.register_role(CHARLIE, Role::Manager), Ok(()));
    assert_eq!(env.bank.deposit(&env.roles, CHARLIE, BOB, 100), Ok(()));
    assert_eq!(env.bank.accounts(BOB).free, 100);
    assert_eq!(env.bank.transfer(&env.roles, BOB, ALICE, 98), Ok(()));
    assert_eq!(env.bank.accounts(BOB).free, 2);
    assert_eq!(env.bank.accounts(ALICE).free, 98);

    env.bank.on_finalize(1);
    assert_eq!(env.bank.events.last(), Some(&BankEvent::Reaped { user: BOB, dust: 2 }));
    assert_eq!(env.bank.accounts(BOB), zero());
    let treasury = env.bank.treasury().expect("Treasury account must be set.");
    assert_eq!(env.bank.accounts(treasury).free, 1_000_002);
    assert!(env.bank.check_total_issuance());
}

#[test]
fn can_reaped() {
    let mut env = default_env();
    env.bank.treasury = Some(TREASURY);
    assert_eq!(env.bank.accounts(ALICE), zero());
    assert_eq!(env.bank.accounts(BOB), zero());
    assert_eq!(env.bank.accounts(3), zero());
    assert_eq!(env.roles.register_role(ALICE, Role::Customer), Ok(()));
    assert_eq!(env.roles.register_role(BOB, Role::Customer), Ok(()));
    assert_eq!(env.roles.register_role(3, Role::Manager), Ok(()));

    assert_eq!(env.bank.deposit(&env.roles, 3, BOB, 4), Err(Error::AmountTooSmall));
    assert_eq!(env.bank.withdraw(&env.roles, 3, BOB, 4), Err(Error::AmountTooSmall));
    assert_eq!(env.bank.transfer(&env.roles, ALICE, BOB, 4), Err(Error::AmountTooSmall));

    assert_eq!(env.bank.deposit(&env.roles, 3, BOB, 100), Ok(()));
    assert_eq!(env.bank.accounts(BOB), AccountData { free: 100, reserved: 0, locked: vec![] });
    assert_eq!(env.bank.transfer(&env.roles, BOB, ALICE, 98), Ok(()));
    assert_eq!(env.bank.accounts(BOB), AccountData { free: 2, reserved: 0, locked: vec![] });
    assert_eq!(env.bank.accounts(ALICE), AccountData { free: 98, reserved: 0, locked: vec![] });

    let before = env.bank.events.len();
    env.bank.reap_accounts();
    assert_eq!(env.bank.events[before], BankEvent::Reaped { user: BOB, dust: 2 });
    assert_eq!(env.bank.accounts(BOB), zero());
    assert_eq!(
        env.bank.accounts(TREASURY),
        AccountData { free: 1_000_002, reserved: 0, locked: vec![] }
    );
    assert!(env.bank.check_total_issuance());
}

#[test]
fn cannot_reap_accounts_without_setting_treasury_account() {
    let mut env = default_env();
    assert_eq!(env.roles.register_role(ALICE, Role::Customer), Ok(()));
    assert_eq!(env.roles.register_role(BOB, Role::Customer), Ok(()));
    assert_eq!(env.roles.register_role(CHARLIE, Role::Manager), Ok(()));
    assert_eq!(env.bank.deposit(&env.roles, CHARLIE, BOB, 100), Ok(()));
    assert_eq!(env.bank.accounts(BOB).free, 100);
    assert_eq!(env.bank.transfer(&env.roles, BOB, ALICE, 98), Ok(()));
    assert_eq!(env.bank.accounts(BOB).free, 2);
    // Nothing is reaped while no treasury is set.
    env.bank.on_finalize(1);
    assert_eq!(env.bank.accounts(BOB).free, 2);
    // Once the treasury is set, reaping works.
    env.bank.treasury = Some(TREASURY);
    env.bank.on_finalize(1);
    assert_eq!(env.bank.events.last(), Some(&BankEvent::Reaped { user: BOB, dust: 2 }));
    assert_eq!(env.bank.accounts(BOB), zero());
    let treasury = env.bank.treasury().expect("Treasury account must be set.");
    assert_eq!(env.bank.accounts(treasury).free, 1_000_002);
    assert!(env.bank.check_total_issuance());
}

#[test]
fn can_stake_funds() {
    let mut env = build(vec![(ALICE, 1_000)]);
    assert_eq!(env.bank.stake_funds(&env.roles, ALICE, 200, env.now), Ok(()));
    assert_eq!(
        env.bank.events.last(),
        Some(&BankEvent::Locked {
            user: ALICE,
            amount: 200,
            length: STAKE_PERIOD,
            reason: LockReason::Stake
        })
    );
    assert!(env.bank.check_total_issuance());
    assert_eq!(
        env.bank.stake_funds(&env.roles, ALICE, 801, env.now),
        Err(Error::InsufficientBalance)
    );
}

#[test]
fn can_redeem_funds() {
    let mut env = build(vec![(ALICE, 1_000)]);
    stake(&mut env, ALICE, 1_000);
    assert_eq!(env.bank.redeem_funds(&env.roles, ALICE, 200, env.now), Ok(()));
    assert_eq!(
        env.bank.events.last(),
        Some(&BankEvent::Locked {
            user: ALICE,
            amount: 200,
            length: REDEEM_PERIOD,
            reason: LockReason::Redeem
        })
    );
    assert_eq!(
        env.bank.accounts(ALICE),
        AccountData {
            free: 0,
            reserved: 800,
            locked: vec![LockedFund { id: 2, amount: 200, reason: LockReason::Redeem }]
        }
    );
    assert!(env.bank.check_total_issuance());
    assert_eq!(
        env.bank.redeem_funds(&env.roles, ALICE, 801, env.now),
        Err(Error::InsufficientBalance)
    );
}

#[test]
fn auditor_can_lock_funds() {
    let mut env = build(vec![(ALICE, 1_000)]);
    assert_eq!(env.bank.accounts(CHARLIE), zero());
    assert_eq!(env.roles.register_role(CHARLIE, Role::Auditor), Ok(()));
    stake(&mut env, ALICE, 900);
    assert_eq!(env.bank.lock_funds_auditor(&env.roles, CHARLIE, ALICE, 200, 20, env.now), Ok(()));
    assert_eq!(
        env.bank.events.last(),
        Some(&BankEvent::Locked { user: ALICE, amount: 200, length: 20, reason: LockReason::Auditor })
    );
    assert_eq!(
        env.bank.accounts(ALICE),
        AccountData {
            free: 0,
            reserved: 800,
            locked: vec![LockedFund { id: 2, amount: 200, reason: LockReason::Auditor }]
        }
    );
    assert!(env.bank.check_total_issuance());
    assert_eq!(
        env.bank.lock_funds_auditor(&env.roles, CHARLIE, ALICE, 801, 20, env.now),
        Err(Error::InsufficientBalance)
    );
}

#[test]
fn auditor_can_unlock_funds() {
    let mut env = build(vec![(ALICE, 1_000)]);
    assert_eq!(env.bank.accounts(CHARLIE), zero());
    assert_eq!(env.roles.register_role(CHARLIE, Role::Auditor), Ok(()));
    stake(&mut env, ALICE, 900);
    assert_eq!(env.bank.lock_funds_auditor(&env.roles, CHARLIE, ALICE, 200, 20, env.now), Ok(()));
    assert_eq!(env.bank.redeem_funds(&env.roles, ALICE, 500, env.now), Ok(()));
    assert_eq!(
        env.bank.accounts(ALICE),
        AccountData {
            free: 0,
            reserved: 300,
            locked: vec![
                LockedFund { id: 2, amount: 200, reason: LockReason::Auditor },
                LockedFund { id: 3, amount: 500, reason: LockReason::Redeem }
            ]
        }
    );
    assert_eq!(
        env.bank.unlock_funds_auditor(&env.roles, CHARLIE, ALICE, 3),
        Err(Error::UnauthorisedUnlock)
    );
    assert_eq!(env.bank.unlock_funds_auditor(&env.roles, CHARLIE, ALICE, 2), Ok(()));
    assert_eq!(
        env.bank.events.last(),
        Some(&BankEvent::Unlocked { user: ALICE, amount: 200, reason: UnlockReason::Auditor })
    );
    assert_eq!(
        env.bank.accounts(ALICE),
        AccountData {
            free: 200,
            reserved: 300,
            locked: vec![LockedFund { id: 3, amount: 500, reason: LockReason::Redeem }]
        }
    );
    assert!(env.bank.check_total_issuance());
}

#[test]
fn incorrect_role_cannot_call_auditor_function() {
    let mut env = build(vec![(ALICE, 1_000)]);
    assert_eq!(env.bank.accounts(CHARLIE), zero());
    assert_eq!(env.roles.register_role(CHARLIE, Role::Auditor), Ok(()));
    assert_eq!(env.bank.accounts(BOB), zero());
    assert_eq!(env.roles.register_role(BOB, Role::Manager), Ok(()));
    stake(&mut env, ALICE, 900);
    assert_eq!(env.bank.lock_funds_auditor(&env.roles, CHARLIE, ALICE, 200, 20, env.now), Ok(()));
    // A customer can neither lock nor unlock.
    assert_eq!(
        env.bank.lock_funds_auditor(&env.roles, ALICE, ALICE, 100, 20, env.now),
        Err(Error::IncorrectRole)
    );
    assert_eq!(env.bank.unlock_funds_auditor(&env.roles, ALICE, ALICE, 1), Err(Error::IncorrectRole));
    // A manager can neither lock nor unlock.
    assert_eq!(env.bank.unlock_funds_auditor(&env.roles, BOB, ALICE, 1), Err(Error::IncorrectRole));
    assert_eq!(
        env.bank.lock_funds_auditor(&env.roles, BOB, ALICE, 100, 20, env.now),
        Err(Error::IncorrectRole)
    );
    assert_eq!(
        env.bank.accounts(ALICE),
        AccountData {
            free: 0,
            reserved: 800,
            locked: vec![LockedFund { id: 2, amount: 200, reason: LockReason::Auditor }]
        }
    );
    assert!(env.bank.check_total_issuance());
}

#[test]
fn auditor_cannot_unlock_invalid_id() {
    let mut env = build(vec![(ALICE, 1_000)]);
    assert_eq!(env.roles.register_role(CHARLIE, Role::Auditor), Ok(()));
    assert_eq!(
        env.bank.unlock_funds_auditor(&env.roles, CHARLIE, ALICE, 200),
        Err(Error::InvalidLockId)
    );
}

#[test]
fn manager_can_set_interest_rate() {
    let mut env = build(vec![(ALICE, 1_000)]);
    assert_eq!(env.roles.register_role(CHARLIE, Role::Manager), Ok(()));
    assert_eq!(env.bank.set_interest_rate(&env.roles, CHARLIE, 500), Ok(()));
    // 5% in parts per billion.
    assert_eq!(env.bank.interest_rate, 50_000_000);
    assert_eq!(
        env.bank.events.last(),
        Some(&BankEvent::InterestRateSet {
            manager: CHARLIE,
            old_interest_rate: 0,
            new_interest_rate: 50_000_000
        })
    );
}

#[test]
fn incorrect_role_cannot_set_interest_rate() {
    let mut env = build(vec![(ALICE, 1_000)]);
    assert_eq!(env.roles.register_role(CHARLIE, Role::Auditor), Ok(()));
    assert_eq!(env.bank.set_interest_rate(&env.roles, CHARLIE, 500), Err(Error::IncorrectRole));
    assert_eq!(env.bank.set_interest_rate(&env.roles, ALICE, 500), Err(Error::IncorrectRole));
    assert_eq!(env.bank.interest_rate, 0);
}

#[test]
fn pay_interest() {
    let mut env = build(vec![(ALICE, 1_000_000_000)]);
    assert_eq!(env.roles.register_role(CHARLIE, Role::Manager), Ok(()));
    assert_eq!(env.bank.set_interest_rate(&env.roles, CHARLIE, 500), Ok(()));
    stake(&mut env, ALICE, 1_000_000_000);
    env.bank.on_finalize(INTEREST_PAYOUT_PERIOD);
    assert_eq!(
        env.bank.accounts(ALICE),
        AccountData { free: 0, reserved: 1_000_000_951, locked: vec![] }
    );
    assert_eq!(
        env.bank.events.last(),
        Some(&BankEvent::InterestPayed { interest_rate: 50_000_000, total_interest_payed: 951 })
    );
    assert!(env.bank.check_total_issuance());
}

#[test]
fn can_rotate_treasury() {
    let mut env = build(vec![(ALICE, 100)]);
    let new_treasury: AccountId = 10;
    let old_treasury_total = env.bank.accounts(TREASURY).total();
    env.bank.treasury = Some(TREASURY);
    let account_data = AccountData {
        free: 1_000_000_000,
        reserved: 500,
        locked: vec![
            LockedFund { id: 1, amount: 1_000, reason: LockReason::Auditor },
            LockedFund { id: 2, amount: 2_000, reason: LockReason::Redeem },
        ],
    };
    for entry in env.bank.accounts.iter_mut() {
        if entry.0 == TREASURY {
            entry.1 = account_data.clone();
        }
    }
    assert_eq!(env.bank.treasury(), Ok(TREASURY));

    assert_eq!(env.bank.rotate_treasury(&env.roles, new_treasury), Ok(()));
    assert_eq!(
        env.bank.events.last(),
        Some(&BankEvent::TreasuryAccountRotated { old: Some(TREASURY), new: new_treasury })
    );
    assert_eq!(env.bank.treasury(), Ok(new_treasury));
    assert_eq!(env.bank.treasury, Some(new_treasury));
    assert_eq!(env.bank.accounts(new_treasury), account_data);
    assert_eq!(env.bank.accounts(TREASURY), zero());

    env.bank.total_issuance =
        env.bank.total_issuance.saturating_sub(old_treasury_total).saturating_add(account_data.total());
    assert!(env.bank.check_total_issuance());
}

#[test]
fn can_rotate_treasury_without_setting_treasury() {
    let mut env = build(vec![(ALICE, 100)]);
    let new_treasury: AccountId = 10;
    assert_eq!(env.bank.treasury(), Err(Error::TreasuryAccountNotSet));
    assert_eq!(env.bank.rotate_treasury(&env.roles, new_treasury), Ok(()));
    assert_eq!(
        env.bank.events.last(),
        Some(&BankEvent::TreasuryAccountRotated { old: None, new: new_treasury })
    );
    assert_eq!(env.bank.treasury(), Ok(new_treasury));
    assert_eq!(env.bank.treasury, Some(new_treasury));
    assert_eq!(env.bank.accounts(new_treasury), zero());
    assert!(env.bank.check_total_issuance());
}

#[test]
fn test_error_cases_in_rotating_treasury() {
    let mut env = build(vec![(ALICE, 100)]);
    let new_treasury: AccountId = 10;
    let collision_account: AccountId = ALICE;
    assert_eq!(env.bank.treasury(), Err(Error::TreasuryAccountNotSet));
    env.bank.treasury = Some(TREASURY);
    assert_eq!(
        env.bank.rotate_treasury(&env.roles, collision_account),
        Err(Error::AccountIdAlreadyTaken)
    );
    assert_eq!(env.bank.rotate_treasury(&env.roles, new_treasury), Ok(()));
    assert_eq!(env.bank.treasury, Some(new_treasury));
    assert_eq!(env.bank.accounts(new_treasury).free, 1_000_000);
    assert!(env.bank.check_total_issuance());
}

#[test]
fn funds_can_unlock_after_treasury_rotation() {
    let mut env = build(vec![(ALICE, 1_000)]);
    env.bank.treasury = Some(TREASURY);
    let initial_block = 10;
    let lock_period = 20;
    let unlock_block = 10 + 20;
    let treasury_initial = env.bank.accounts(TREASURY).free;
    env.now = initial_block;

    let new_treasury: AccountId = 10;
    assert_eq!(env.roles.register_role(BOB, Role::Auditor), Ok(()));
    assert_eq!(env.bank.lock_funds_auditor(&env.roles, BOB, ALICE, 100, lock_period, env.now), Ok(()));
    assert_eq!(
        env.bank.lock_funds_auditor(&env.roles, BOB, TREASURY, 100, lock_period, env.now),
        Ok(())
    );
    assert_eq!(env.bank.accounts(ALICE).locked.len(), 1);
    assert_eq!(env.bank.accounts(TREASURY).locked.len(), 1);

    assert_eq!(env.bank.rotate_treasury(&env.roles, new_treasury), Ok(()));
    assert_eq!(env.bank.accounts(new_treasury).locked.len(), 1);

    env.bank.on_finalize(unlock_block);
    assert!(env.bank.accounts(ALICE).locked.is_empty());
    assert!(env.bank.accounts(new_treasury).locked.is_empty());
    assert_eq!(env.bank.accounts(ALICE).free, 1_000);
    assert_eq!(env.bank.accounts(new_treasury).free, treasury_initial);
    assert!(env.bank.check_total_issuance());
}

#[test]
fn can_force_transfer() {
    let mut env = build(vec![(ALICE, 1_000), (BOB, 500)]);
    assert_eq!(env.bank.force_transfer(ALICE, BOB, 100), Ok(()));
    assert_eq!(
        env.bank.events.last(),
        Some(&BankEvent::Transferred { from: ALICE, to: BOB, amount: 100 })
    );
    assert_eq!(env.bank.accounts(BOB).free, 600);
    assert_eq!(env.bank.accounts(ALICE).free, 900);
    assert_eq!(
        env.bank.force_transfer(ALICE, BOB, 1_000),
        Err(Error::InsufficientBalance)
    );
    assert!(env.bank.check_total_issuance());
}

#[test]
fn can_check_fund_unlock_at() {
    let mut env = build(vec![(ALICE, 1_000), (BOB, 1_000)]);
    let unlock_block = env.now + STAKE_PERIOD;
    assert_eq!(env.bank.stake_funds(&env.roles, ALICE, 100, env.now), Ok(()));
    assert_eq!(unlock_block, env.bank.fund_unlock_at(ALICE, 1));

    let charlie: AccountId = 3;
    for (who, lock_id) in [(ALICE, 2), (BOB, 3), (charlie, 4), (ALICE, 5), (ALICE, 6)] {
        env.bank.unlock_schedule.push(ScheduledUnlock { at: 10, who, lock_id });
    }
    for (who, lock_id) in [(ALICE, 7), (charlie, 8), (BOB, 9), (ALICE, 10)] {
        env.bank.unlock_schedule.push(ScheduledUnlock { at: 20, who, lock_id });
    }

    assert_eq!(10, env.bank.fund_unlock_at(ALICE, 2));
    assert_eq!(10, env.bank.fund_unlock_at(BOB, 3));
    assert_eq!(10, env.bank.fund_unlock_at(charlie, 4));
    assert_eq!(10, env.bank.fund_unlock_at(ALICE, 5));
    assert_eq!(10, env.bank.fund_unlock_at(ALICE, 6));

    assert_eq!(20, env.bank.fund_unlock_at(ALICE, 7));
    assert_eq!(20, env.bank.fund_unlock_at(charlie, 8));
    assert_eq!(20, env.bank.fund_unlock_at(BOB, 9));
    assert_eq!(20, env.bank.fund_unlock_at(ALICE, 10));

    // Where no unlock is scheduled for the lock, the answer is zero.
    assert_eq!(0, env.bank.fund_unlock_at(ALICE, 8));
    assert_eq!(0, env.bank.fund_unlock_at(charlie, 9));
    assert_eq!(0, env.bank.fund_unlock_at(BOB, 10));
    assert_eq!(0, env.bank.fund_unlock_at(4, 10));
}

/// The projected yearly interest matches what a year of payouts actually pays, to within
/// the given precision.
fn calculate_interest_pa_with_interest_rate(env: &mut Env, initial_balance: Balance, interest_rate_bps: u32) {
    let payout_times = YEAR / INTEREST_PAYOUT_PERIOD;
    for entry in env.bank.accounts.iter_mut() {
        if entry.0 == ALICE {
            entry.1.reserved = initial_balance;
        }
    }
    assert_eq!(env.roles.role(CHARLIE), Some(Role::Manager));
    assert_eq!(env.bank.set_interest_rate(&env.roles, CHARLIE, interest_rate_bps), Ok(()));

    let expect_interest = env.bank.interest_pa(ALICE);
    for _ in 0..payout_times {
        env.bank.pay_interest(INTEREST_PAYOUT_PERIOD);
    }
    let actual_interest = env.bank.accounts(ALICE).reserved - initial_balance;
    let precision: Balance = 1_000_000;
    assert_eq!(expect_interest / precision, actual_interest / precision);
}

#[test]
fn can_calculate_interest_pa() {
    let mut env = build(vec![(ALICE, 1_000)]);
    assert_eq!(env.roles.register_role(CHARLIE, Role::Manager), Ok(()));
    // The reserved balance is set by hand below; the issuance follows it.
    let initial_balance: Balance = 1_000_000_000_000_000_000;
    env.bank.total_issuance += initial_balance;
    for rate in [0u32, 1, 10, 9_999, 10_000] {
        calculate_interest_pa_with_interest_rate(&mut env, initial_balance, rate);
    }
}
