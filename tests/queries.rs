use xy_chain::{
    AccountId, Bank, BankConfig, CustomRpc, LockReason, Role, Roles, RpcLockedFund,
    RuntimeDbWeight, SubstrateWeight, Weight,
};

const ALICE: AccountId = 1;
const AUDITOR: AccountId = 8;

fn config() -> BankConfig {
    BankConfig {
        existential_deposit: 3,
        minimum_amount: 5,
        redeem_period: 200,
        stake_period: 150,
        interest_payout_period: 100,
        total_blocks_per_year: 5_256_000,
    }
}

#[test]
fn rpc_account_data_lists_release_blocks() {
    let mut roles = Roles::new();
    let mut bank = Bank::genesis(config(), &mut roles, &vec![(ALICE, 1_000)]);
    assert_eq!(roles.register_role(AUDITOR, Role::Auditor), Ok(()));
    assert_eq!(bank.stake_funds(&roles, ALICE, 100, 5), Ok(()));
    assert_eq!(bank.lock_funds_auditor(&roles, AUDITOR, ALICE, 50, 20, 5), Ok(()));
    let rpc = CustomRpc::new(&bank);
    let data = rpc.rpc_account_data(ALICE);
    assert_eq!(data.free, 850);
    assert_eq!(data.reserved, 0);
    assert_eq!(
        data.locked,
        vec![
            RpcLockedFund { id: 1, amount: 100, reason: LockReason::Stake, unlock_at: 155 },
            RpcLockedFund { id: 2, amount: 50, reason: LockReason::Auditor, unlock_at: 25 },
        ]
    );
    assert_eq!(rpc.rpc_interest_pa(ALICE), 0);
    let empty = rpc.rpc_account_data(99);
    assert_eq!((empty.free, empty.reserved, empty.locked.len()), (0, 0, 0));
}

#[test]
fn weights_add_storage_costs() {
    let weights = SubstrateWeight { db: RuntimeDbWeight::rocks_db() };
    // 25 ms base, four reads at 25 µs and two writes at 100 µs.
    assert_eq!(weights.deposit(), Weight { ref_time: 25_000_000 + 4 * 25_000_000 + 2 * 100_000_000, proof_size: 6038 });
    assert_eq!(weights.transfer(), Weight { ref_time: 27_000_000 + 100_000_000 + 200_000_000, proof_size: 6614 });
    assert_eq!(weights.unlock_funds_auditor(), Weight { ref_time: 23_000_000 + 75_000_000 + 100_000_000, proof_size: 6038 });
    assert_eq!(weights.vote(), Weight { ref_time: 1, proof_size: 0 });
    // Costs that overflow are capped.
    let costly = SubstrateWeight { db: RuntimeDbWeight { read: u64::MAX / 2, write: 1 } };
    assert_eq!(costly.set_interest_rate().ref_time, u64::MAX);
    let w = Weight::from_parts(u64::MAX, 1).saturating_add(Weight::from_parts(1, 2));
    assert_eq!(w, Weight { ref_time: u64::MAX, proof_size: 3 });
}
