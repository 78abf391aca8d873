//! A permissioned ledger: a role registry, a bank with staking, locks and
//! interest, and a council that votes on privileged actions.

pub mod arith;
pub mod bank;
pub mod governance;
pub mod roles;
pub mod rpc;
pub mod runtime;
pub mod types;
pub mod weights;

pub use bank::{
    interest_from_growth, AccountData, Bank, BankConfig, BankEvent, LockReason, LockedFund,
    ScheduledUnlock, UnlockReason,
};
pub use governance::{
    CastedVotes, DispatchOutcome, Governance, GovernanceCall, GovernanceConfig, GovernanceEvent,
    Proposal, RejectReason,
};
pub use roles::{Roles, RolesEvent};
pub use runtime::Runtime;
pub use types::{AccountId, Balance, BlockNumber, Error, LockId, ProposalId, Role};
pub use rpc::{CustomRpc, RpcAccountData, RpcLockedFund};
pub use weights::{RuntimeDbWeight, SubstrateWeight, Weight};
