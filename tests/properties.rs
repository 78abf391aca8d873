use xy_chain::{
    interest_from_growth, AccountData, AccountId, Balance, Bank, BankConfig, CastedVotes, Error,
    Governance, GovernanceCall, GovernanceConfig, LockReason, LockedFund, Role, Roles, Runtime,
    UnlockReason,
};

const ALICE: AccountId = 1;
const BOB: AccountId = 2;
const MANAGER: AccountId = 7;
const AUDITOR: AccountId = 8;
const TREASURY: AccountId = 0;

fn config() -> BankConfig {
    BankConfig {
        existential_deposit: 3,
        minimum_amount: 5,
        redeem_period: 200,
        stake_period: 150,
        interest_payout_period: 100,
        total_blocks_per_year: 5_256_000,
    }
}

fn setup(balances: Vec<(AccountId, Balance)>) -> (Roles, Bank) {
    let mut roles = Roles::new();
    let bank = Bank::genesis(config(), &mut roles, &balances);
    assert_eq!(roles.register_role(MANAGER, Role::Manager), Ok(()));
    assert_eq!(roles.register_role(AUDITOR, Role::Auditor), Ok(()));
    (roles, bank)
}

fn conserved(bank: &Bank) -> bool {
    let sum: Balance = bank.accounts.iter().map(|(_, a)| a.total()).sum();
    bank.check_total_issuance() && bank.total_issuance == sum
}

fn snapshot(bank: &Bank) -> (Vec<(AccountId, AccountData)>, Balance, Vec<(u32, u64, u64)>) {
    let mut accounts = bank.accounts.clone();
    accounts.sort_by_key(|e| e.0);
    let schedule = bank.unlock_schedule.iter().map(|u| (u.at, u.who, u.lock_id)).collect();
    (accounts, bank.total_issuance, schedule)
}

#[test]
fn deposit_and_transfer_scenario() {
    let (mut roles, mut bank) = setup(vec![(BOB, 500)]);
    assert_eq!(roles.register_role(ALICE, Role::Customer), Ok(()));
    let issuance = bank.total_issuance;
    assert_eq!(bank.deposit(&roles, MANAGER, ALICE, 1_000), Ok(()));
    assert_eq!(bank.accounts(ALICE).free, 1_000);
    assert_eq!(bank.total_issuance, issuance + 1_000);
    assert_eq!(bank.transfer(&roles, ALICE, BOB, 100), Ok(()));
    assert_eq!(bank.accounts(ALICE).free, 900);
    assert_eq!(bank.accounts(BOB).free, 600);
    assert!(conserved(&bank));
}

#[test]
fn stake_release_cycle_scenario() {
    let (roles, mut bank) = setup(vec![(ALICE, 1_000)]);
    let now = 1;
    assert_eq!(bank.stake_funds(&roles, ALICE, 900, now), Ok(()));
    let a = bank.accounts(ALICE);
    assert_eq!(a.free, 100);
    assert_eq!(a.locked, vec![LockedFund { id: 1, amount: 900, reason: LockReason::Stake }]);
    assert_eq!(bank.fund_unlock_at(ALICE, 1), now + 150);
    bank.on_finalize(now + 150);
    let a = bank.accounts(ALICE);
    assert_eq!(a.free, 100);
    assert_eq!(a.reserved, 900);
    assert!(a.locked.is_empty());
    assert!(conserved(&bank));
}

#[test]
fn interest_scenario() {
    let (roles, mut bank) = setup(vec![(ALICE, 1_000_000_000)]);
    assert_eq!(bank.set_interest_rate(&roles, MANAGER, 500), Ok(()));
    assert_eq!(bank.stake_funds(&roles, ALICE, 1_000_000_000, 1), Ok(()));
    bank.on_finalize(151);
    assert_eq!(bank.accounts(ALICE).reserved, 1_000_000_000);
    bank.on_finalize(200);
    assert_eq!(bank.accounts(ALICE).reserved, 1_000_000_951);
    assert!(conserved(&bank));
    // No interest is paid off a payout block.
    bank.on_finalize(201);
    assert_eq!(bank.accounts(ALICE).reserved, 1_000_000_951);
}

#[test]
fn governance_majority_scenario() {
    let mut votes = CastedVotes { yays: (1..8).collect(), nays: vec![] };
    assert_eq!(votes.can_resolve(10, 80), None);
    assert!(votes.cast_vote(8, true));
    // Eight of ten is 80%, not above it.
    assert_eq!(votes.can_resolve(10, 80), None);
    assert!(votes.cast_vote(9, true));
    assert_eq!(votes.can_resolve(10, 80), Some(true));

    let mut against = CastedVotes { yays: vec![], nays: vec![1] };
    assert_eq!(against.can_resolve(10, 80), None);
    assert!(against.cast_vote(2, false));
    assert_eq!(against.can_resolve(10, 80), Some(false));
    assert!(!against.cast_vote(2, true));
    assert!(against.has_voted(2));
}

#[test]
fn conservation_over_a_sequence() {
    let (mut roles, mut bank) = setup(vec![(ALICE, 10_000), (BOB, 5_000), (TREASURY, 100)]);
    bank.treasury = Some(TREASURY);
    assert_eq!(roles.register_role(3, Role::Customer), Ok(()));
    assert_eq!(bank.set_interest_rate(&roles, MANAGER, 1_000), Ok(()));
    assert_eq!(bank.deposit(&roles, MANAGER, 3, 50), Ok(()));
    assert!(conserved(&bank));
    assert_eq!(bank.stake_funds(&roles, ALICE, 4_000, 1), Ok(()));
    assert!(conserved(&bank));
    assert_eq!(bank.transfer(&roles, 3, BOB, 48), Ok(()));
    assert!(conserved(&bank));
    assert_eq!(bank.lock_funds_auditor(&roles, AUDITOR, BOB, 5_020, 10, 1), Ok(()));
    assert!(conserved(&bank));
    bank.on_finalize(11);
    assert!(conserved(&bank));
    bank.on_finalize(151);
    assert!(conserved(&bank));
    assert_eq!(bank.redeem_funds(&roles, ALICE, 1_000, 151), Ok(()));
    bank.on_finalize(200);
    assert!(conserved(&bank));
    assert_eq!(bank.withdraw(&roles, MANAGER, BOB, 28), Ok(()));
    assert!(conserved(&bank));
    // The dust account was reaped into the treasury.
    assert_eq!(bank.accounts(3), AccountData::default());
    assert_eq!(bank.accounts(TREASURY).free, 102);
}

#[test]
fn refused_operations_change_nothing() {
    let (roles, mut bank) = setup(vec![(ALICE, 100)]);
    let before = snapshot(&bank);
    assert_eq!(bank.withdraw(&roles, MANAGER, ALICE, 101), Err(Error::InsufficientBalance));
    assert_eq!(bank.transfer(&roles, ALICE, BOB, 50), Err(Error::AccountRoleNotRegistered));
    assert_eq!(bank.redeem_funds(&roles, ALICE, 5, 1), Err(Error::InsufficientBalance));
    assert_eq!(
        bank.lock_funds_auditor(&roles, AUDITOR, ALICE, 101, 5, 1),
        Err(Error::InsufficientBalance)
    );
    assert_eq!(bank.set_interest_rate(&roles, MANAGER, 10_001), Err(Error::InvalidInterestRate));
    assert_eq!(snapshot(&bank), before);
}

#[test]
fn minting_past_the_largest_balance_is_refused() {
    let (roles, mut bank) = setup(vec![(ALICE, 100)]);
    assert_eq!(bank.deposit(&roles, MANAGER, ALICE, u128::MAX - 100), Ok(()));
    assert_eq!(bank.deposit(&roles, MANAGER, ALICE, 5), Err(Error::Overflow));
    assert!(conserved(&bank));
}

#[test]
fn release_destination_follows_lock_reason() {
    let (roles, mut bank) = setup(vec![(ALICE, 1_000)]);
    assert_eq!(bank.stake_funds(&roles, ALICE, 100, 1), Ok(()));
    bank.on_finalize(151);
    assert_eq!(bank.redeem_funds(&roles, ALICE, 50, 151), Ok(()));
    assert_eq!(bank.lock_funds_auditor(&roles, AUDITOR, ALICE, 920, 5, 151), Ok(()));
    let a = bank.accounts(ALICE);
    assert_eq!((a.free, a.reserved), (0, 30));
    // Releasing early through the expiry path: the redeem lock goes to free.
    assert_eq!(bank.unlock(ALICE, 2, UnlockReason::Expired), Ok(()));
    assert_eq!(bank.accounts(ALICE).free, 50);
    // The auditor lock, taken partly from reserved, also returns to free.
    assert_eq!(bank.unlock_funds_auditor(&roles, AUDITOR, ALICE, 3), Ok(()));
    let a = bank.accounts(ALICE);
    assert_eq!((a.free, a.reserved), (970, 30));
    assert!(a.locked.is_empty());
    // A stake lock returns to reserved.
    assert_eq!(bank.stake_funds(&roles, ALICE, 10, 200), Ok(()));
    assert_eq!(bank.unlock(ALICE, 4, UnlockReason::Expired), Ok(()));
    assert_eq!(bank.accounts(ALICE).reserved, 40);
    assert!(conserved(&bank));
}

#[test]
fn auditor_path_refuses_other_locks() {
    let (roles, mut bank) = setup(vec![(ALICE, 1_000)]);
    assert_eq!(bank.stake_funds(&roles, ALICE, 100, 1), Ok(()));
    let before = snapshot(&bank);
    assert_eq!(
        bank.unlock_funds_auditor(&roles, AUDITOR, ALICE, 1),
        Err(Error::UnauthorisedUnlock)
    );
    assert_eq!(bank.unlock(ALICE, 1, UnlockReason::Auditor), Err(Error::UnauthorisedUnlock));
    assert_eq!(bank.unlock(ALICE, 9, UnlockReason::Expired), Err(Error::InvalidLockId));
    assert_eq!(snapshot(&bank), before);
}

#[test]
fn finalizing_twice_changes_nothing_more() {
    let (roles, mut bank) = setup(vec![(ALICE, 1_000), (BOB, 10), (TREASURY, 50)]);
    bank.treasury = Some(TREASURY);
    assert_eq!(bank.transfer(&roles, BOB, ALICE, 8), Ok(()));
    assert_eq!(bank.stake_funds(&roles, ALICE, 100, 1), Ok(()));
    bank.on_finalize(151);
    let once = snapshot(&bank);
    bank.on_finalize(151);
    assert_eq!(snapshot(&bank), once);
    assert_eq!(bank.accounts(BOB), AccountData::default());
    assert_eq!(bank.accounts(TREASURY).free, 52);
}

#[test]
fn settled_outcome_is_not_changed_by_later_votes() {
    let config = GovernanceConfig { expiry_period: 100, majority_threshold: 80 };
    let mut governance = Governance::new(config, &(1..11).collect());
    let call = GovernanceCall::RegisterRole { id: 50, role: Role::Auditor };
    assert_eq!(governance.initiate_proposal(1, call, 1), Ok(()));
    let id = governance.next_proposal_id;
    // Two nays of ten settle the proposal as rejected.
    assert_eq!(governance.vote(2, id, false), Ok(()));
    assert_eq!(governance.vote(3, id, false), Ok(()));
    assert_eq!(governance.to_resolve, vec![(id, false)]);
    // A smaller council whose members all vote in favour does not turn it around.
    governance.force_rotate_authorities(&vec![1, 4, 5], 1);
    assert_eq!(governance.vote(4, id, true), Ok(()));
    assert_eq!(governance.vote(5, id, true), Ok(()));
    assert_eq!(governance.to_resolve, vec![(id, false)]);
    let mut rt = Runtime::new(Roles::new(), Bank::new(super_config()), governance);
    rt.finalize_block();
    assert_eq!(rt.roles.role(50), None);
    assert_eq!(rt.governance.vote(4, id, true), Err(Error::InvalidProposalId));
}

fn super_config() -> BankConfig {
    config()
}

#[test]
fn rotation_keeps_only_votes_of_members_who_stay() {
    let (a, b, c, d) = (1, 2, 3, 4);
    let config = GovernanceConfig { expiry_period: 100, majority_threshold: 80 };
    let mut governance = Governance::new(config, &vec![a, b, c, 5, 6, 7]);
    let call = GovernanceCall::RegisterRole { id: 50, role: Role::Auditor };
    assert_eq!(governance.initiate_proposal(a, call, 1), Ok(()));
    let id = governance.next_proposal_id;
    assert_eq!(governance.vote(b, id, true), Ok(()));
    assert_eq!(governance.vote(c, id, true), Ok(()));
    governance.council_rotate_authorities(&vec![b, c, d], 40);
    let p = governance.proposals.iter().find(|p| p.id == id).unwrap();
    let mut yays = p.votes.yays.clone();
    yays.sort();
    assert_eq!(yays, vec![b, c]);
    assert_eq!(p.expires_at, 140);
    // Where nobody stays, no vote is kept.
    governance.council_rotate_authorities(&vec![20, 21], 50);
    let p = governance.proposals.iter().find(|p| p.id == id).unwrap();
    assert!(p.votes.yays.is_empty() && p.votes.nays.is_empty());
}

#[test]
fn failed_governance_action_leaves_no_trace() {
    let config = GovernanceConfig { expiry_period: 100, majority_threshold: 50 };
    let governance = Governance::new(config, &vec![1]);
    let (roles, bank) = setup(vec![(ALICE, 100)]);
    let mut rt = Runtime::new(roles, bank, governance);
    let before = snapshot(&rt.bank);
    let call = GovernanceCall::ForceTransfer { from: ALICE, to: BOB, amount: 101 };
    assert_eq!(rt.dispatch_governance_call(&call), Err(Error::InsufficientBalance));
    assert_eq!(snapshot(&rt.bank), before);
    // A forced transfer needs no customer role on either side.
    let call = GovernanceCall::ForceTransfer { from: ALICE, to: BOB, amount: 10 };
    assert_eq!(rt.dispatch_governance_call(&call), Ok(()));
    assert_eq!(rt.bank.accounts(BOB).free, 10);
    let call = GovernanceCall::RotateTreasury { new_treasury: 60 };
    assert_eq!(rt.dispatch_governance_call(&call), Ok(()));
    assert_eq!(rt.bank.treasury(), Ok(60));
}

#[test]
fn projected_interest_matches_growth() {
    // A growth factor of exactly 1.5 on 1_000 is 500 of interest.
    assert_eq!(interest_from_growth(1_500_000_000_000_000_000, 1_000), 500);
    // A factor below one gives no interest.
    assert_eq!(interest_from_growth(500_000_000_000_000_000, 1_000), 0);
    let (roles, mut bank) = setup(vec![(ALICE, 1_000_000)]);
    assert_eq!(bank.interest_pa(ALICE), 0);
    assert_eq!(bank.set_interest_rate(&roles, MANAGER, 10_000), Ok(()));
    assert_eq!(bank.stake_funds(&roles, ALICE, 1_000_000, 1), Ok(()));
    bank.on_finalize(151);
    // Close to e - 1 at 100% compounded on every payout.
    let projected = bank.interest_pa(ALICE);
    assert!(projected > 1_700_000 && projected < 1_720_000, "{}", projected);
}
