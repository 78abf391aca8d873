//! The read-only queries that the node serves over RPC.
use vstd::prelude::*;

use crate::arith::fixed_pow;
use crate::bank::{growth_interest, unlock_block, AccountData, Bank, LockReason};
use crate::types::{AccountId, Balance, BlockNumber, LockId};

verus! {

/// A locked fund together with the block at which it is due to be released (zero where no
/// release is scheduled).
#[derive(Clone, Copy, Debug, PartialEq, Eq, Structural)]
pub struct RpcLockedFund {
    pub id: LockId,
    pub amount: Balance,
    pub reason: LockReason,
    pub unlock_at: BlockNumber,
}

/// The balances of an account, each locked fund with its release block.
#[derive(Clone, Debug, PartialEq, Eq)]
pub struct RpcAccountData {
    pub free: Balance,
    pub reserved: Balance,
    pub locked: Vec<RpcLockedFund>,
}

/// The queries, answered from a bank's state.
pub struct CustomRpc<'a> {
    pub bank: &'a Bank,
}

impl<'a> CustomRpc<'a> {
    pub fn new(bank: &'a Bank) -> (r: CustomRpc<'a>)
        ensures
            r.bank == bank,
    {
        CustomRpc { bank }
    }

    /// The balances of `who`, with the release block of each locked fund.
    pub fn rpc_account_data(&self, who: AccountId) -> (r: RpcAccountData)
        requires
            self.bank.wf(),
        ensures
            r.free == self.bank.account(who).free,
            r.reserved == self.bank.account(who).reserved,
            r.locked@.len() == self.bank.account(who).locked.len(),
            forall|i: int|
                #![trigger r.locked@[i]]
                0 <= i < r.locked@.len() ==> {
                    let l = self.bank.account(who).locked[i];
                    r.locked@[i] == (RpcLockedFund {
                        id: l.id,
                        amount: l.amount,
                        reason: l.reason,
                        unlock_at: unlock_block(self.bank.unlock_schedule@, who, l.id),
                    })
                },
    {
        let data: AccountData = self.bank.accounts(who);
        let mut locked: Vec<RpcLockedFund> = Vec::new();
        let mut i: usize = 0;
        while i < data.locked.len()
            invariant
                data@ == self.bank.account(who),
                i <= data.locked@.len(),
                locked@.len() == i,
                forall|k: int|
                    #![trigger locked@[k]]
                    0 <= k < i ==> {
                        let l = data.locked@[k];
                        locked@[k] == (RpcLockedFund {
                            id: l.id,
                            amount: l.amount,
                            reason: l.reason,
                            unlock_at: unlock_block(self.bank.unlock_schedule@, who, l.id),
                        })
                    },
            decreases data.locked@.len() - i,
        {
            let l = data.locked[i];
            let unlock_at = self.bank.fund_unlock_at(who, l.id);
            locked.push(RpcLockedFund { id: l.id, amount: l.amount, reason: l.reason, unlock_at });
            i = i + 1;
        }
        RpcAccountData { free: data.free, reserved: data.reserved, locked }
    }

    /// The yearly interest that the reserved balance of `who` would earn.
    pub fn rpc_interest_pa(&self, who: AccountId) -> (r: Balance)
        requires
            self.bank.wf(),
        ensures
            r as int == growth_interest(
                fixed_pow(self.bank.payout_growth() as u128, self.bank.payouts_per_year() as nat),
                self.bank.account(who).reserved,
            ),
    {
        self.bank.interest_pa(who)
    }
}

} // verus!
