//! The ledger as a whole: the role registry, the bank and the council, driven block by block,
//! with the council's approved actions applied to the other two.
use vstd::prelude::*;

use crate::bank::Bank;
use crate::governance::{DispatchOutcome, Governance, GovernanceCall, GovernanceEvent};
use crate::roles::Roles;
use crate::types::{BlockNumber, Error, ProposalId};

verus! {

/// The components of the ledger and the current block.
pub struct Runtime {
    pub block_number: BlockNumber,
    pub roles: Roles,
    pub bank: Bank,
    pub governance: Governance,
}

/// The outcome of an applied action, as the council reports it.
pub open spec fn outcome_of(r: Result<(), Error>) -> DispatchOutcome {
    match r {
        Ok(()) => DispatchOutcome::Applied,
        Err(e) => DispatchOutcome::Failed(e),
    }
}

impl Runtime {
    pub open spec fn wf(&self) -> bool {
        &&& self.roles.wf()
        &&& self.bank.wf()
        &&& self.governance.wf()
    }

    /// The ledger at block one.
    pub fn new(roles: Roles, bank: Bank, governance: Governance) -> (r: Runtime)
        ensures
            r.block_number == 1,
            r.roles == roles,
            r.bank == bank,
            r.governance == governance,
    {
        Runtime { block_number: 1, roles, bank, governance }
    }

    /// What applying the approved action `call` does to `pre`, giving `post` and `r`.
    pub open spec fn dispatched(pre: &Runtime, post: &Runtime, call: GovernanceCall, r: Result<(), Error>) -> bool {
        &&& post.wf()
        &&& post.block_number == pre.block_number
        &&& r is Err ==> *post == *pre
        &&& match call {
            GovernanceCall::RotateTreasury { new_treasury } => {
                &&& r == pre.bank.rotate_result(&pre.roles, new_treasury)
                &&& r is Ok ==> Bank::treasury_rotated(&pre.bank, &post.bank, new_treasury)
                    && post.roles == pre.roles && post.governance
                    == pre.governance
            },
            GovernanceCall::ForceTransfer { from, to, amount } => {
                &&& r == pre.bank.move_result(from, amount)
                &&& r is Ok ==> post.bank.moved(&pre.bank, from, to, amount)
                    && post.bank.total_issuance == pre.bank.total_issuance
                    && post.roles == pre.roles && post.governance
                    == pre.governance
            },
            GovernanceCall::CouncilRotateAuthorities { new_members } => {
                &&& r is Ok
                &&& Governance::rotated(
                    &pre.governance,
                    &post.governance,
                    new_members@,
                    pre.block_number,
                )
                &&& post.roles == pre.roles
                &&& post.bank == pre.bank
            },
            GovernanceCall::RegisterRole { id, role } => {
                &&& r is Err <==> pre.roles.role_of(id) is Some
                &&& r is Err ==> r == Err::<(), Error>(Error::AccountAlreadyRegistered)
                &&& r is Ok ==> post.roles.role_of(id) == Some(role)
                    && post.bank == pre.bank && post.governance
                    == pre.governance
            },
        }
    }

    /// Applies an action that the council approved. Where the action fails, nothing of it
    /// remains: the ledger is left exactly as it was.
    pub fn dispatch_governance_call(&mut self, call: &GovernanceCall) -> (r: Result<(), Error>)
        requires
            old(self).wf(),
        ensures
            Runtime::dispatched(old(self), final(self), *call, r),
    {
        match call {
            GovernanceCall::RotateTreasury { new_treasury } => {
                self.bank.rotate_treasury(&self.roles, *new_treasury)
            },
            GovernanceCall::ForceTransfer { from, to, amount } => {
                self.bank.force_transfer(*from, *to, *amount)
            },
            GovernanceCall::CouncilRotateAuthorities { new_members } => {
                let now = self.block_number;
                self.governance.council_rotate_authorities(new_members, now);
                Ok(())
            },
            GovernanceCall::RegisterRole { id, role } => self.roles.register_role(*id, *role),
        }
    }

    /// `post` is `pre` after the first settled proposal was resolved: taken off the queue and
    /// removed, and, where it was approved, its action applied (or, failing, left without
    /// trace) and the outcome reported.
    pub open spec fn resolved_one(pre: &Runtime, post: &Runtime) -> bool {
        exists|g: Governance, r: Option<(ProposalId, bool, Option<GovernanceCall>)>|
            Governance::resolved_next(&pre.governance, &g, r) && match r {
                Some((id, true, Some(call))) => exists|d: Runtime, res: Result<(), Error>|
                    Runtime::dispatched(
                        &Runtime {
                            block_number: pre.block_number,
                            roles: pre.roles,
                            bank: pre.bank,
                            governance: g,
                        },
                        &d,
                        call,
                        res,
                    ) && post.block_number == d.block_number && post.roles == d.roles && post.bank
                        == d.bank && post.governance.events@ == d.governance.events@.push(
                        GovernanceEvent::ProposalPassed { id, call, result: outcome_of(res) },
                    ) && post.governance.proposals@ == d.governance.proposals@
                        && post.governance.to_resolve@ == d.governance.to_resolve@
                        && post.governance.authorities@ == d.governance.authorities@
                        && post.governance.config == d.governance.config
                        && post.governance.next_proposal_id == d.governance.next_proposal_id,
                _ => post.block_number == pre.block_number && post.roles == pre.roles && post.bank
                    == pre.bank && post.governance == g,
            }
    }

    /// What the council's end-of-block work does to `pre`, giving `post`: every settled
    /// proposal resolved in turn, then the proposals due at the current block expired.
    pub open spec fn governance_finalized(pre: &Runtime, post: &Runtime) -> bool {
        &&& post.wf()
        &&& post.block_number == pre.block_number
        &&& post.governance.to_resolve@.len() == 0
        &&& forall|k: int|
            0 <= k < pre.governance.to_resolve@.len() ==> !post.governance.has_proposal(
                pre.governance.to_resolve@[k].0,
            )
        &&& forall|k: int|
            0 <= k < post.governance.proposals@.len()
                ==> post.governance.proposals@[k].expires_at != pre.block_number
        &&& exists|steps: Seq<Runtime>|
            #![trigger steps.len()]
            {
                &&& steps.len() == pre.governance.to_resolve@.len() + 1
                &&& steps[0] == *pre
                &&& forall|k: int|
                    #![trigger steps[k + 1]]
                    0 <= k < steps.len() - 1 ==> Runtime::resolved_one(&steps[k], &steps[k + 1])
                &&& Governance::expired(&steps.last().governance, &post.governance, pre.block_number)
                &&& post.roles == steps.last().roles
                &&& post.bank == steps.last().bank
            }
    }

    /// Resolves every settled proposal (applying the approved actions) and then expires the
    /// proposals whose time is up at the current block.
    pub fn finalize_governance(&mut self)
        requires
            old(self).wf(),
        ensures
            Runtime::governance_finalized(old(self), final(self)),
    {
        let ghost queue = self.governance.to_resolve@;
        let ghost mut done: int = 0;
        let ghost mut steps: Seq<Runtime> = seq![*self];
        while self.governance.to_resolve.len() > 0
            invariant
                steps.len() == done + 1,
                steps[0] == *old(self),
                steps.last() == *self,
                forall|k: int|
                    #![trigger steps[k + 1]]
                    0 <= k < done ==> Runtime::resolved_one(&steps[k], &steps[k + 1]),
                self.wf(),
                self.block_number == old(self).block_number,
                0 <= done <= queue.len(),
                self.governance.to_resolve@ == queue.subrange(done, queue.len() as int),
                forall|k: int| 0 <= k < done ==> !self.governance.has_proposal(queue[k].0),
            decreases self.governance.to_resolve@.len(),
        {
            let ghost before = self.governance;
            let ghost prev = *self;
            let next = self.governance.resolve_next();
            let ghost g = self.governance;
            match next {
                Some((id, approved, call)) => {
                    proof {
                        assert(id == queue[done].0);
                        assert(self.governance.to_resolve@ =~= queue.subrange(done + 1, queue.len() as int));
                        assert forall|k: int| 0 <= k < done implies !self.governance.has_proposal(queue[k].0) by {
                            if self.governance.has_proposal(queue[k].0) {
                                let m = choose|m: int|
                                    0 <= m < self.governance.proposals@.len()
                                        && self.governance.proposals@[m].id == queue[k].0;
                                let i = before.index_of(id);
                                let m2 = if m < i { m } else { m + 1 };
                                assert(self.governance.proposals@[m] == before.proposals@[m2]);
                            }
                        }
                        done = done + 1;
                    }
                    if let Some(c) = call {
                        let ghost mid = self.governance;
                        let r = self.dispatch_governance_call(&c);
                        proof {
                            assert forall|k: int| 0 <= k < done implies !self.governance.has_proposal(queue[k].0) by {
                                if self.governance.has_proposal(queue[k].0) {
                                    let m = choose|m: int|
                                        0 <= m < self.governance.proposals@.len()
                                            && self.governance.proposals@[m].id == queue[k].0;
                                    assert(self.governance.proposals@[m].id == mid.proposals@[m].id);
                                }
                            }
                        }
                        let ghost d = *self;
                        let result = match r {
                            Ok(()) => DispatchOutcome::Applied,
                            Err(e) => DispatchOutcome::Failed(e),
                        };
                        self.governance.record_passed(id, c, result);
                        proof {
                            assert(Runtime::dispatched(
                                &Runtime {
                                    block_number: prev.block_number,
                                    roles: prev.roles,
                                    bank: prev.bank,
                                    governance: g,
                                },
                                &d,
                                c,
                                r,
                            ));
                        }
                        proof {
                            assert forall|k: int| 0 <= k < done implies !self.governance.has_proposal(queue[k].0) by {
                                if self.governance.has_proposal(queue[k].0) {
                                    let m = choose|m: int|
                                        0 <= m < self.governance.proposals@.len()
                                            && self.governance.proposals@[m].id == queue[k].0;
                                }
                            }
                        }
                    }
                },
                None => {},
            }
            proof {
                assert(Governance::resolved_next(&prev.governance, &g, next));
                assert(Runtime::resolved_one(&prev, self));
                steps = steps.push(*self);
                assert forall|k: int|
                    #![trigger steps[k + 1]]
                    0 <= k < done implies Runtime::resolved_one(&steps[k], &steps[k + 1]) by {
                    if k < done - 1 {
                        assert(steps[k] == steps.drop_last()[k]);
                        assert(steps[k + 1] == steps.drop_last()[k + 1]);
                    }
                }
            }
        }
        let ghost last = *self;
        let ghost before = self.governance;
        let now = self.block_number;
        self.governance.expire_proposals(now);
        proof {
            assert(queue.subrange(done, queue.len() as int).len() == 0);
            assert(done == queue.len());
            assert(Governance::expired(&last.governance, &self.governance, old(self).block_number));
            assert forall|k: int| 0 <= k < queue.len() implies !self.governance.has_proposal(queue[k].0) by {
                if self.governance.has_proposal(queue[k].0) {
                    let m = choose|m: int|
                        0 <= m < self.governance.proposals@.len()
                            && self.governance.proposals@[m].id == queue[k].0;
                    assert(before.proposals@.contains(self.governance.proposals@[m]));
                    let m2 = choose|m2: int|
                        0 <= m2 < before.proposals@.len() && before.proposals@[m2] == self.governance.proposals@[m];
                }
            }
        }
    }

    /// Ends the current block: the bank's end-of-block work, then the council's.
    pub fn finalize_block(&mut self)
        requires
            old(self).wf(),
        ensures
            final(self).wf(),
            exists|mid: Runtime|
                mid.roles == old(self).roles && mid.governance == old(self).governance
                    && mid.block_number == old(self).block_number && Bank::finalize_post(
                    &old(self).bank,
                    &mid.bank,
                    old(self).block_number,
                ) && Runtime::governance_finalized(&mid, final(self)),
    {
        let now = self.block_number;
        self.bank.on_finalize(now);
        let ghost mid = *self;
        self.finalize_governance();
        assert(Runtime::governance_finalized(&mid, self));
    }

    /// Moves on to the next block.
    pub fn next_block(&mut self)
        requires
            old(self).block_number < u32::MAX,
        ensures
            final(self).block_number == old(self).block_number + 1,
            final(self).roles == old(self).roles,
            final(self).bank == old(self).bank,
            final(self).governance == old(self).governance,
    {
        self.block_number = self.block_number + 1;
    }
}

} // verus!
