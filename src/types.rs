use vstd::prelude::*;

verus! {

/// Identifies an account.
pub type AccountId = u64;

/// An amount of the ledger's currency.
pub type Balance = u128;

/// A block height.
pub type BlockNumber = u32;

/// Identifies a locked fund.
pub type LockId = u64;

/// Identifies a governance proposal.
pub type ProposalId = u32;

/// The role that an account can hold; each account holds at most one.
#[derive(Clone, Copy, Debug, PartialEq, Eq, Structural)]
pub enum Role {
    /// A regular customer.
    Customer,
    /// A manager, who may mint, burn and set the interest rate.
    Manager,
    /// An auditor, who may lock and unlock customers' funds.
    Auditor,
}

/// Every way in which an operation of the ledger can be refused.
#[derive(Clone, Copy, Debug, PartialEq, Eq, Structural)]
pub enum Error {
    /// The account already holds a role; it must be unregistered first.
    AccountAlreadyRegistered,
    /// The account holds no role.
    AccountRoleNotRegistered,
    /// The account holds a role other than the one required.
    IncorrectRole,
    /// The balance to take the amount from is too small.
    InsufficientBalance,
    /// The amount is below the configured minimum.
    AmountTooSmall,
    /// The lock may not be released by the requested path.
    UnauthorisedUnlock,
    /// An interest rate above 100% was given.
    InvalidInterestRate,
    /// The account has no lock with the given id.
    InvalidLockId,
    /// No treasury account is configured.
    TreasuryAccountNotSet,
    /// The account already has a ledger entry or a role.
    AccountIdAlreadyTaken,
    /// Crediting the amount would carry the total issuance past the largest balance.
    Overflow,
    /// The caller is not a member of the council.
    Unauthorized,
    /// No pending proposal has the given id.
    InvalidProposalId,
    /// The caller has already voted on the proposal.
    AlreadyVoted,
}

} // verus!
