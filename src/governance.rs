//! The council: proposals of privileged actions, votes on them, and rotation of the members.
use vstd::prelude::*;

use crate::types::{AccountId, Balance, BlockNumber, Error, ProposalId, Role};

verus! {

/// `a` and `b` are the same action.
pub open spec fn same_call(a: GovernanceCall, b: GovernanceCall) -> bool {
    match a {
        GovernanceCall::CouncilRotateAuthorities { new_members: m } => match b {
            GovernanceCall::CouncilRotateAuthorities { new_members: n } => m@ == n@,
            _ => false,
        },
        _ => a == b,
    }
}

/// A copy of the action `c`.
pub fn copy_call(c: &GovernanceCall) -> (r: GovernanceCall)
    ensures
        same_call(r, *c),
{
    match c {
        GovernanceCall::RotateTreasury { new_treasury } => GovernanceCall::RotateTreasury {
            new_treasury: *new_treasury,
        },
        GovernanceCall::ForceTransfer { from, to, amount } => GovernanceCall::ForceTransfer {
            from: *from,
            to: *to,
            amount: *amount,
        },
        GovernanceCall::CouncilRotateAuthorities { new_members } => {
            GovernanceCall::CouncilRotateAuthorities { new_members: copy_members(new_members) }
        },
        GovernanceCall::RegisterRole { id, role } => GovernanceCall::RegisterRole { id: *id, role: *role },
    }
}

/// `e` reports that `who` proposed the action `call`.
pub open spec fn reports_registration(e: GovernanceEvent, who: AccountId, call: GovernanceCall) -> bool {
    match e {
        GovernanceEvent::ProposalRegistered { who: w, call: c } => w == who && same_call(c, call),
        _ => false,
    }
}

/// `e` reports that the council became `council`.
pub open spec fn reports_rotation(e: GovernanceEvent, council: Seq<AccountId>) -> bool {
    match e {
        GovernanceEvent::AuthorityRotated { new_council } => new_council@ == council,
        _ => false,
    }
}

/// The events that expiring the proposals of `s` due at `block` emits, in order.
pub open spec fn expiry_events(s: Seq<Proposal>, block: BlockNumber) -> Seq<GovernanceEvent>
    decreases s.len(),
{
    if s.len() == 0 {
        Seq::empty()
    } else if s.last().expires_at == block {
        expiry_events(s.drop_last(), block).push(
            GovernanceEvent::ProposalRejected { id: s.last().id, reason: RejectReason::Expired },
        )
    } else {
        expiry_events(s.drop_last(), block)
    }
}

/// `s` holds no account twice.
pub open spec fn distinct(s: Seq<AccountId>) -> bool {
    forall|a: int, b: int| 0 <= a < b < s.len() ==> s[a] != s[b]
}

/// Whether `x` occurs in `v`.
pub fn contains(v: &Vec<AccountId>, x: AccountId) -> (r: bool)
    ensures
        r == v@.contains(x),
{
    let mut i: usize = 0;
    while i < v.len()
        invariant
            i <= v@.len(),
            forall|k: int| 0 <= k < i ==> v@[k] != x,
        decreases v@.len() - i,
    {
        if v[i] == x {
            return true;
        }
        i = i + 1;
    }
    false
}

/// `s.push(x)` holds `y` exactly when `s` does or `y` is `x`.
proof fn lemma_push_contains(s: Seq<AccountId>, x: AccountId, y: AccountId)
    ensures
        s.push(x).contains(y) == (s.contains(y) || y == x),
{
    if s.contains(y) {
        let k = choose|k: int| 0 <= k < s.len() && s[k] == y;
        assert(s.push(x)[k] == y);
    }
    if y == x {
        assert(s.push(x)[s.len() as int] == y);
    }
    if s.push(x).contains(y) && y != x {
        let k = choose|k: int| 0 <= k < s.push(x).len() && s.push(x)[k] == y;
        assert(s[k] == y);
    }
}

/// `v[0..i+1]` holds `y` exactly when `v[0..i]` does or `y` is `v[i]`.
proof fn lemma_prefix_contains(v: Seq<AccountId>, i: int, y: AccountId)
    requires
        0 <= i < v.len(),
    ensures
        v.subrange(0, i + 1).contains(y) == (v.subrange(0, i).contains(y) || y == v[i]),
{
    assert(v.subrange(0, i + 1) =~= v.subrange(0, i).push(v[i]));
    lemma_push_contains(v.subrange(0, i), v[i], y);
}

/// The accounts of `v` that also occur in `keep`, in the order of `v`.
pub fn retain_members(v: &Vec<AccountId>, keep: &Vec<AccountId>) -> (r: Vec<AccountId>)
    requires
        distinct(v@),
    ensures
        distinct(r@),
        forall|x: AccountId| r@.contains(x) == (v@.contains(x) && keep@.contains(x)),
        r@.len() <= v@.len(),
{
    let mut out: Vec<AccountId> = Vec::new();
    let mut i: usize = 0;
    while i < v.len()
        invariant
            distinct(v@),
            i <= v@.len(),
            distinct(out@),
            out@.len() <= i,
            forall|x: AccountId|
                out@.contains(x) == (v@.subrange(0, i as int).contains(x) && keep@.contains(x)),
        decreases v@.len() - i,
    {
        let x = v[i];
        let ghost prev = out@;
        proof {
            assert forall|y: AccountId|
                v@.subrange(0, i + 1).contains(y) == (v@.subrange(0, i as int).contains(y) || y == x) by {
                lemma_prefix_contains(v@, i as int, y);
            }
        }
        if contains(keep, x) {
            proof {
                if v@.subrange(0, i as int).contains(x) {
                    let k = choose|k: int| 0 <= k < i && v@.subrange(0, i as int)[k] == x;
                    assert(v@[k] == x && v@[i as int] == x);
                }
            }
            out.push(x);
            proof {
                assert forall|y: AccountId|
                    out@.contains(y) == (v@.subrange(0, i + 1).contains(y) && keep@.contains(y)) by {
                    lemma_push_contains(prev, x, y);
                }
            }
        }
        i = i + 1;
    }
    proof {
        assert(v@.subrange(0, v@.len() as int) =~= v@);
    }
    out
}

/// The accounts of `v`, each once, in the order of their first occurrence.
pub fn dedup_members(v: &Vec<AccountId>) -> (r: Vec<AccountId>)
    ensures
        distinct(r@),
        forall|x: AccountId| r@.contains(x) == v@.contains(x),
{
    let mut out: Vec<AccountId> = Vec::new();
    let mut i: usize = 0;
    while i < v.len()
        invariant
            i <= v@.len(),
            distinct(out@),
            forall|x: AccountId| out@.contains(x) == v@.subrange(0, i as int).contains(x),
        decreases v@.len() - i,
    {
        let x = v[i];
        let ghost prev = out@;
        proof {
            assert forall|y: AccountId|
                v@.subrange(0, i + 1).contains(y) == (v@.subrange(0, i as int).contains(y) || y == x) by {
                lemma_prefix_contains(v@, i as int, y);
            }
        }
        if !contains(&out, x) {
            out.push(x);
            proof {
                assert forall|y: AccountId| out@.contains(y) == v@.subrange(0, i + 1).contains(y) by {
                    lemma_push_contains(prev, x, y);
                }
            }
        }
        i = i + 1;
    }
    proof {
        assert(v@.subrange(0, v@.len() as int) =~= v@);
    }
    out
}

/// A copy of `v`.
pub fn copy_members(v: &Vec<AccountId>) -> (r: Vec<AccountId>)
    ensures
        r@ == v@,
{
    let mut out: Vec<AccountId> = Vec::new();
    let mut i: usize = 0;
    while i < v.len()
        invariant
            i <= v@.len(),
            out@ == v@.subrange(0, i as int),
        decreases v@.len() - i,
    {
        out.push(v[i]);
        i = i + 1;
        assert(out@ =~= v@.subrange(0, i as int));
    }
    assert(v@.subrange(0, v@.len() as int) =~= v@);
    out
}

/// How a tally of `yays` and `nays` out of `total` members resolves at `threshold` percent:
/// approved once the yays are strictly above the threshold, rejected once the nays reach its
/// complement.
pub open spec fn resolution(yays: int, nays: int, total: int, threshold: int) -> Option<bool> {
    if yays * 100 > threshold * total {
        Some(true)
    } else if nays * 100 >= (100 - threshold) * total {
        Some(false)
    } else {
        None
    }
}

/// The votes cast on one proposal.
#[derive(Clone, Debug, PartialEq, Eq)]
pub struct CastedVotes {
    pub yays: Vec<AccountId>,
    pub nays: Vec<AccountId>,
}

/// The votes `v` after a rotation: those of the members in `retained` where any member
/// stays, none otherwise.
fn rotated_votes(v: &CastedVotes, retained: &Vec<AccountId>, retained_any: bool) -> (r: CastedVotes)
    requires
        v.wf(),
    ensures
        r.wf(),
        retained_any ==> forall|x: AccountId|
            #![trigger r.yays@.contains(x)]
            #![trigger r.nays@.contains(x)]
            (r.yays@.contains(x) == (v.yays@.contains(x) && retained@.contains(x))) && (r.nays@.contains(x)
                == (v.nays@.contains(x) && retained@.contains(x))),
        !retained_any ==> r.yays@.len() == 0 && r.nays@.len() == 0,
{
    if retained_any {
        let mut votes = CastedVotes { yays: copy_members(&v.yays), nays: copy_members(&v.nays) };
        assert(votes.yays@ == v.yays@);
        let ghost before = votes;
        votes.cull_votes(retained);
        assert(forall|x: AccountId| votes.yays@.contains(x) == (before.yays@.contains(x) && retained@.contains(x)));
        votes
    } else {
        CastedVotes::new()
    }
}

impl CastedVotes {
    /// Nobody voted twice.
    pub open spec fn wf(&self) -> bool {
        &&& distinct(self.yays@)
        &&& distinct(self.nays@)
        &&& forall|x: AccountId| !(self.yays@.contains(x) && self.nays@.contains(x))
    }

    /// No votes.
    pub fn new() -> (r: CastedVotes)
        ensures
            r.wf(),
            r.yays@.len() == 0,
            r.nays@.len() == 0,
    {
        CastedVotes { yays: Vec::new(), nays: Vec::new() }
    }

    /// Whether `id` has voted either way.
    pub fn has_voted(&self, id: AccountId) -> (r: bool)
        ensures
            r == (self.yays@.contains(id) || self.nays@.contains(id)),
    {
        contains(&self.yays, id) || contains(&self.nays, id)
    }

    /// Records the vote of `who`; refused (returning `false`) where `who` has already voted.
    pub fn cast_vote(&mut self, who: AccountId, approve: bool) -> (r: bool)
        requires
            old(self).wf(),
        ensures
            final(self).wf(),
            r == !(old(self).yays@.contains(who) || old(self).nays@.contains(who)),
            !r ==> *final(self) == *old(self),
            r && approve ==> final(self).yays@ == old(self).yays@.push(who) && final(self).nays@
                == old(self).nays@,
            r && !approve ==> final(self).nays@ == old(self).nays@.push(who) && final(self).yays@
                == old(self).yays@,
    {
        if self.has_voted(who) {
            false
        } else {
            if approve {
                self.yays.push(who);
                proof {
                    assert forall|x: AccountId| !(self.yays@.contains(x) && self.nays@.contains(x)) by {
                        if self.yays@.contains(x) && x != who {
                            let k = choose|k: int| 0 <= k < self.yays@.len() && self.yays@[k] == x;
                            assert(old(self).yays@[k] == x);
                        }
                    }
                }
            } else {
                self.nays.push(who);
                proof {
                    assert forall|x: AccountId| !(self.yays@.contains(x) && self.nays@.contains(x)) by {
                        if self.nays@.contains(x) && x != who {
                            let k = choose|k: int| 0 <= k < self.nays@.len() && self.nays@[k] == x;
                            assert(old(self).nays@[k] == x);
                        }
                    }
                }
            }
            true
        }
    }

    /// Whether the votes resolve the proposal among `total_authorities` members at
    /// `threshold` percent: `Some(true)` approved, `Some(false)` rejected, `None` not yet.
    pub fn can_resolve(&self, total_authorities: usize, threshold: u8) -> (r: Option<bool>)
        requires
            threshold <= 100,
        ensures
            r == resolution(
                self.yays@.len() as int,
                self.nays@.len() as int,
                total_authorities as int,
                threshold as int,
            ),
    {
        let yays = self.yays.len() as u128;
        let nays = self.nays.len() as u128;
        let total = total_authorities as u128;
        let t = threshold as u128;
        proof {
            assert(t * total <= 100 * 0xffff_ffff_ffff_ffff) by (nonlinear_arith)
                requires
                    t <= 100,
                    total <= 0xffff_ffff_ffff_ffff,
            ;
            assert((100 - t) * total <= 100 * 0xffff_ffff_ffff_ffff) by (nonlinear_arith)
                requires
                    t <= 100,
                    total <= 0xffff_ffff_ffff_ffff,
            ;
        }
        if yays * 100 > t * total {
            Some(true)
        } else if nays * 100 >= (100 - t) * total {
            Some(false)
        } else {
            None
        }
    }

    /// Keeps only the votes of members of `retain`.
    pub fn cull_votes(&mut self, retain: &Vec<AccountId>)
        requires
            old(self).wf(),
        ensures
            final(self).wf(),
            forall|x: AccountId|
                #![trigger final(self).yays@.contains(x)]
                #![trigger old(self).yays@.contains(x)]
                final(self).yays@.contains(x) == (old(self).yays@.contains(x) && retain@.contains(x)),
            forall|x: AccountId|
                #![trigger final(self).nays@.contains(x)]
                #![trigger old(self).nays@.contains(x)]
                final(self).nays@.contains(x) == (old(self).nays@.contains(x) && retain@.contains(x)),
    {
        let yays = retain_members(&self.yays, retain);
        let nays = retain_members(&self.nays, retain);
        self.yays = yays;
        self.nays = nays;
    }
}

/// Why a proposal was rejected.
#[derive(Clone, Copy, Debug, PartialEq, Eq, Structural)]
pub enum RejectReason {
    Expired,
    ByVoting,
}

/// A privileged action that the council can approve.
#[derive(Clone, Debug, PartialEq, Eq)]
pub enum GovernanceCall {
    /// Hand the bank's treasury to another account.
    RotateTreasury { new_treasury: AccountId },
    /// Move free balance between two customers.
    ForceTransfer { from: AccountId, to: AccountId, amount: Balance },
    /// Replace the council.
    CouncilRotateAuthorities { new_members: Vec<AccountId> },
    /// Give an account a role.
    RegisterRole { id: AccountId, role: Role },
}

/// How the action of an approved proposal went; a failed action left no trace.
#[derive(Clone, Copy, Debug, PartialEq, Eq, Structural)]
pub enum DispatchOutcome {
    Applied,
    Failed(Error),
}

/// What the council reports.
#[derive(Clone, Debug, PartialEq, Eq)]
pub enum GovernanceEvent {
    ProposalRegistered { who: AccountId, call: GovernanceCall },
    VoteCasted { who: AccountId, proposal: ProposalId, approve: bool },
    AuthorityRotated { new_council: Vec<AccountId> },
    ProposalPassed { id: ProposalId, call: GovernanceCall, result: DispatchOutcome },
    ProposalRejected { id: ProposalId, reason: RejectReason },
}

/// A pending proposal.
#[derive(Clone, Debug, PartialEq, Eq)]
pub struct Proposal {
    pub id: ProposalId,
    pub call: GovernanceCall,
    pub expires_at: BlockNumber,
    pub votes: CastedVotes,
}

/// The council's constants.
#[derive(Clone, Copy, Debug, PartialEq, Eq, Structural)]
pub struct GovernanceConfig {
    /// Blocks that a proposal stays open.
    pub expiry_period: BlockNumber,
    /// The percentage of the council that the yays must exceed.
    pub majority_threshold: u8,
}

/// The council and its pending proposals.
pub struct Governance {
    pub config: GovernanceConfig,
    /// The members, each once.
    pub authorities: Vec<AccountId>,
    /// Pending proposals, each id once.
    pub proposals: Vec<Proposal>,
    /// Proposals whose outcome the votes have settled, with that outcome, in the order they
    /// were settled; each id once.
    pub to_resolve: Vec<(ProposalId, bool)>,
    /// The id that the last proposal was given.
    pub next_proposal_id: ProposalId,
    /// Every event emitted so far, oldest first.
    pub events: Vec<GovernanceEvent>,
}

/// The proposal id that follows `n`, wrapping around after the largest.
pub open spec fn proposal_id_after(n: ProposalId) -> ProposalId {
    if n == u32::MAX {
        0
    } else {
        (n + 1) as u32
    }
}

impl Governance {
    pub open spec fn wf(&self) -> bool {
        &&& self.config.majority_threshold <= 100
        &&& distinct(self.authorities@)
        &&& forall|a: int, b: int|
            0 <= a < b < self.proposals@.len() ==> self.proposals@[a].id != self.proposals@[b].id
        &&& forall|a: int, b: int|
            0 <= a < b < self.to_resolve@.len() ==> self.to_resolve@[a].0 != self.to_resolve@[b].0
        &&& forall|i: int| 0 <= i < self.proposals@.len() ==> self.proposals@[i].votes.wf()
        &&& forall|i: int| 0 <= i < self.proposals@.len() ==> self.proposals@[i].id <= self.next_proposal_id
        &&& forall|k: int| 0 <= k < self.to_resolve@.len() ==> self.to_resolve@[k].0 <= self.next_proposal_id
        &&& forall|i: int, x: AccountId|
            0 <= i < self.proposals@.len() && (self.proposals@[i].votes.yays@.contains(x)
                || self.proposals@[i].votes.nays@.contains(x)) ==> self.authorities@.contains(x)
    }

    pub open spec fn is_authority(&self, who: AccountId) -> bool {
        self.authorities@.contains(who)
    }

    pub open spec fn has_proposal(&self, id: ProposalId) -> bool {
        exists|i: int| 0 <= i < self.proposals@.len() && self.proposals@[i].id == id
    }

    /// The position of the proposal `id` (meaningful where it exists).
    pub open spec fn index_of(&self, id: ProposalId) -> int {
        choose|i: int| 0 <= i < self.proposals@.len() && self.proposals@[i].id == id
    }

    /// The yays on the proposal `id`.
    pub open spec fn yays(&self, id: ProposalId) -> Seq<AccountId> {
        self.proposals@[self.index_of(id)].votes.yays@
    }

    /// The nays on the proposal `id`.
    pub open spec fn nays(&self, id: ProposalId) -> Seq<AccountId> {
        self.proposals@[self.index_of(id)].votes.nays@
    }

    /// The outcome that the proposal `id` is queued with, if any.
    pub open spec fn queued(&self, id: ProposalId) -> Option<bool> {
        if exists|k: int| 0 <= k < self.to_resolve@.len() && self.to_resolve@[k].0 == id {
            let k = choose|k: int| 0 <= k < self.to_resolve@.len() && self.to_resolve@[k].0 == id;
            Some(self.to_resolve@[k].1)
        } else {
            None
        }
    }

    /// The outcome of `caller` voting on `id`.
    pub open spec fn vote_result(&self, caller: AccountId, id: ProposalId) -> Result<(), Error> {
        if !self.is_authority(caller) {
            Err(Error::Unauthorized)
        } else if !self.has_proposal(id) {
            Err(Error::InvalidProposalId)
        } else if self.yays(id).contains(caller) || self.nays(id).contains(caller) {
            Err(Error::AlreadyVoted)
        } else {
            Ok(())
        }
    }

    /// `post` is `pre` after `who`'s vote `approve` on the proposal at position `i` (id `id`)
    /// was recorded: the outcome is queued once the votes settle it, and a queued outcome
    /// stays as it is.
    pub open spec fn voted(pre: &Governance, post: &Governance, who: AccountId, id: ProposalId, i: int, approve: bool) -> bool {
        let p = pre.proposals@[i];
        let q = post.proposals@[i];
        let yays = if approve { p.votes.yays@.push(who) } else { p.votes.yays@ };
        let nays = if approve { p.votes.nays@ } else { p.votes.nays@.push(who) };
        &&& post.proposals@.len() == pre.proposals@.len()
        &&& forall|j: int| 0 <= j < pre.proposals@.len() && j != i ==> post.proposals@[j] == pre.proposals@[j]
        &&& q.id == p.id && q.call == p.call && q.expires_at == p.expires_at
        &&& q.votes.yays@ == yays && q.votes.nays@ == nays
        &&& if pre.queued(id) is Some {
            post.to_resolve@ == pre.to_resolve@
        } else {
            match resolution(
                yays.len() as int,
                nays.len() as int,
                pre.authorities@.len() as int,
                pre.config.majority_threshold as int,
            ) {
                Some(b) => post.to_resolve@ == pre.to_resolve@.push((id, b)),
                None => post.to_resolve@ == pre.to_resolve@,
            }
        }
        &&& post.authorities@ == pre.authorities@
        &&& post.config == pre.config
        &&& post.next_proposal_id == pre.next_proposal_id
        &&& post.events@ == pre.events@.push(GovernanceEvent::VoteCasted { who, proposal: id, approve })
    }

    fn find_proposal(&self, id: ProposalId) -> (r: Option<usize>)
        requires
            self.wf(),
        ensures
            match r {
                Some(i) => i < self.proposals@.len() && self.proposals@[i as int].id == id
                    && self.has_proposal(id) && self.index_of(id) == i as int,
                None => !self.has_proposal(id),
            },
    {
        let mut i: usize = 0;
        while i < self.proposals.len()
            invariant
                self.wf(),
                i <= self.proposals@.len(),
                forall|k: int| 0 <= k < i ==> self.proposals@[k].id != id,
            decreases self.proposals@.len() - i,
        {
            if self.proposals[i].id == id {
                proof {
                    let j = self.index_of(id);
                    assert(j == i as int);
                }
                return Some(i);
            }
            i = i + 1;
        }
        None
    }

    fn is_queued(&self, id: ProposalId) -> (r: bool)
        ensures
            r == (self.queued(id) is Some),
    {
        let mut k: usize = 0;
        while k < self.to_resolve.len()
            invariant
                k <= self.to_resolve@.len(),
                forall|m: int| 0 <= m < k ==> self.to_resolve@[m].0 != id,
            decreases self.to_resolve@.len() - k,
        {
            if self.to_resolve[k].0 == id {
                return true;
            }
            k = k + 1;
        }
        false
    }

    /// Records the vote of `who` on the proposal at position `i`, and queues its outcome once
    /// the votes settle it (unless one is queued already).
    fn do_vote(&mut self, who: AccountId, id: ProposalId, i: usize, approve: bool) -> (r: Result<(), Error>)
        requires
            old(self).wf(),
            old(self).is_authority(who),
            i < old(self).proposals@.len(),
            old(self).proposals@[i as int].id == id,
        ensures
            final(self).wf(),
            r == if old(self).proposals@[i as int].votes.yays@.contains(who)
                || old(self).proposals@[i as int].votes.nays@.contains(who) {
                Err::<(), Error>(Error::AlreadyVoted)
            } else {
                Ok(())
            },
            r is Err ==> r == Err::<(), Error>(Error::AlreadyVoted) && *final(self) == *old(self),
            r is Ok ==> Governance::voted(old(self), final(self), who, id, i as int, approve),
    {
        let ghost before = self.proposals@;
        if self.proposals[i].votes.has_voted(who) {
            return Err(Error::AlreadyVoted);
        }
        let mut votes = CastedVotes { yays: copy_members(&self.proposals[i].votes.yays), nays: copy_members(&self.proposals[i].votes.nays) };
        votes.cast_vote(who, approve);
        let total = self.authorities.len();
        let outcome = votes.can_resolve(total, self.config.majority_threshold);
        let already = self.is_queued(id);
        self.proposals[i].votes = votes;
        if !already {
            if let Some(b) = outcome {
                proof {
                    assert forall|a: int, b2: int| 0 <= a < b2 < self.to_resolve@.len() implies
                        self.to_resolve@.push((id, b))[a].0 != self.to_resolve@.push((id, b))[b2].0 by {
                    }
                }
                self.to_resolve.push((id, b));
            }
        }
        self.events.push(GovernanceEvent::VoteCasted { who, proposal: id, approve });
        proof {
            assert(forall|j: int| 0 <= j < before.len() && j != i ==> self.proposals@[j] == before[j]);
        }
        Ok(())
    }
}

impl Governance {
    /// The state of `post` after the council was replaced by `members` at block `now`.
    pub open spec fn rotated(pre: &Governance, post: &Governance, members: Seq<AccountId>, now: BlockNumber) -> bool {
        let retained_any = exists|x: AccountId| members.contains(x) && pre.authorities@.contains(x);
        let expiry = if now + pre.config.expiry_period > u32::MAX {
            u32::MAX as int
        } else {
            now + pre.config.expiry_period
        };
        &&& distinct(post.authorities@)
        &&& forall|x: AccountId| post.authorities@.contains(x) == members.contains(x)
        &&& post.proposals@.len() == pre.proposals@.len()
        &&& forall|i: int|
            #![trigger post.proposals@[i]]
            0 <= i < pre.proposals@.len() ==> {
                let p = pre.proposals@[i];
                let q = post.proposals@[i];
                &&& q.id == p.id && q.call == p.call
                &&& q.expires_at == expiry
                &&& retained_any ==> forall|x: AccountId|
                    #![trigger q.votes.yays@.contains(x)]
                    #![trigger q.votes.nays@.contains(x)]
                    (q.votes.yays@.contains(x) == (p.votes.yays@.contains(x) && members.contains(x)
                        && pre.authorities@.contains(x))) && (q.votes.nays@.contains(x) == (
                    p.votes.nays@.contains(x) && members.contains(x) && pre.authorities@.contains(x)))
                &&& !retained_any ==> q.votes.yays@.len() == 0 && q.votes.nays@.len() == 0
            }
        &&& post.to_resolve@ == pre.to_resolve@
        &&& post.config == pre.config
        &&& post.next_proposal_id == pre.next_proposal_id
        &&& post.events@.len() == pre.events@.len() + 1
        &&& forall|k: int| 0 <= k < pre.events@.len() ==> post.events@[k] == pre.events@[k]
        &&& reports_rotation(post.events@.last(), post.authorities@)
    }

    /// `q` is the pending proposal `p` after a rotation to `members` from the council
    /// `council`: a fresh expiry, and only the votes of members who stay (or none).
    pub open spec fn rotated_entry(
        p: Proposal,
        q: Proposal,
        expiry: BlockNumber,
        retained_any: bool,
        members: Seq<AccountId>,
        council: Seq<AccountId>,
    ) -> bool {
        &&& q.id == p.id && q.call == p.call
        &&& q.expires_at == expiry
        &&& q.votes.wf()
        &&& retained_any ==> forall|x: AccountId|
            #![trigger q.votes.yays@.contains(x)]
            #![trigger q.votes.nays@.contains(x)]
            (q.votes.yays@.contains(x) == (p.votes.yays@.contains(x) && members.contains(x)
                && council.contains(x))) && (q.votes.nays@.contains(x) == (p.votes.nays@.contains(x)
                && members.contains(x) && council.contains(x)))
        &&& !retained_any ==> q.votes.yays@.len() == 0 && q.votes.nays@.len() == 0
    }

    /// Replaces the council with the accounts of `new_members` (each once). Votes of members
    /// who stay are kept and all others dropped (all of them where nobody stays), and every
    /// pending proposal is given a full voting period from `now`.
    fn do_rotate_authorities(&mut self, new_members: &Vec<AccountId>, now: BlockNumber)
        requires
            old(self).wf(),
        ensures
            final(self).wf(),
            Governance::rotated(old(self), final(self), new_members@, now),
    {
        let members = dedup_members(new_members);
        let retained = retain_members(&members, &self.authorities);
        let retained_any = retained.len() > 0;
        proof {
            if retained_any {
                assert(retained@.contains(retained@[0]));
            }
            if exists|x: AccountId| new_members@.contains(x) && self.authorities@.contains(x) {
                let x = choose|x: AccountId| new_members@.contains(x) && self.authorities@.contains(x);
                assert(retained@.contains(x));
            }
        }
        let expiry = if now > u32::MAX - self.config.expiry_period {
            u32::MAX
        } else {
            now + self.config.expiry_period
        };
        let ghost before = self.proposals@;
        let n = self.proposals.len();
        let mut i: usize = 0;
        while i < n
            invariant
                old(self).wf(),
                before == old(self).proposals@,
                n == before.len(),
                i <= n,
                self.proposals@.len() == n,
                self.authorities@ == old(self).authorities@,
                self.to_resolve@ == old(self).to_resolve@,
                self.config == old(self).config,
                self.next_proposal_id == old(self).next_proposal_id,
                self.events@ == old(self).events@,
                retained_any == (exists|x: AccountId| new_members@.contains(x) && old(self).authorities@.contains(x)),
                forall|x: AccountId|
                    retained@.contains(x) == (new_members@.contains(x) && old(self).authorities@.contains(x)),
                forall|j: int| i <= j < n ==> self.proposals@[j] == before[j],
                forall|j: int|
                    0 <= j < i ==> #[trigger] Governance::rotated_entry(
                        before[j],
                        self.proposals@[j],
                        expiry,
                        retained_any,
                        new_members@,
                        old(self).authorities@,
                    ),
            decreases n - i,
        {
            proof {
                assert(self.proposals@[i as int] == before[i as int]);
                assert(before[i as int].votes.wf());
            }
            let votes = rotated_votes(&self.proposals[i].votes, &retained, retained_any);
            proof {
                assert forall|x: AccountId|
                    #![trigger votes.yays@.contains(x)]
                    #![trigger votes.nays@.contains(x)]
                    retained_any implies (votes.yays@.contains(x) == (before[i as int].votes.yays@.contains(x)
                        && new_members@.contains(x) && old(self).authorities@.contains(x)))
                        && (votes.nays@.contains(x) == (before[i as int].votes.nays@.contains(x)
                        && new_members@.contains(x) && old(self).authorities@.contains(x))) by {
                    assert(retained@.contains(x) == (new_members@.contains(x)
                        && old(self).authorities@.contains(x)));
                }
            }
            let ghost prev = self.proposals@;
            proof {
                assert(before[i as int].votes.wf());
            }
            self.proposals[i].votes = votes;
            self.proposals[i].expires_at = expiry;
            proof {
                assert(self.proposals@[i as int].id == before[i as int].id);
                assert(self.proposals@[i as int].call == before[i as int].call);
                assert(self.proposals@[i as int].expires_at == expiry);
                assert(self.proposals@[i as int].votes == votes);
                assert(votes.wf());

                assert(forall|j: int| 0 <= j < n && j != i ==> self.proposals@[j] == prev[j]);
                assert(Governance::rotated_entry(
                    before[i as int],
                    self.proposals@[i as int],
                    expiry,
                    retained_any,
                    new_members@,
                    old(self).authorities@,
                ));
                assert forall|j: int| 0 <= j < i + 1 implies #[trigger] Governance::rotated_entry(
                    before[j],
                    self.proposals@[j],
                    expiry,
                    retained_any,
                    new_members@,
                    old(self).authorities@,
                ) by {
                    if j < i {
                        assert(self.proposals@[j] == prev[j]);
                        assert(Governance::rotated_entry(before[j], prev[j], expiry, retained_any, new_members@, old(self).authorities@));
                    }
                }
            }
            i = i + 1;
        }
        let ghost mid = *self;
        self.authorities = copy_members(&members);
        self.events.push(GovernanceEvent::AuthorityRotated { new_council: members });
        proof {
            assert forall|a: int, b: int| 0 <= a < b < self.proposals@.len() implies self.proposals@[a].id
                != self.proposals@[b].id by {
                assert(Governance::rotated_entry(before[a], self.proposals@[a], expiry, retained_any, new_members@, old(self).authorities@));
                assert(Governance::rotated_entry(before[b], self.proposals@[b], expiry, retained_any, new_members@, old(self).authorities@));
            }
            assert forall|j: int, x: AccountId|
                0 <= j < self.proposals@.len() && (self.proposals@[j].votes.yays@.contains(x)
                    || self.proposals@[j].votes.nays@.contains(x)) implies self.authorities@.contains(x) by {
                let q = self.proposals@[j];
                assert(Governance::rotated_entry(before[j], q, expiry, retained_any, new_members@, old(self).authorities@));
                assert(self.authorities@.contains(x) == new_members@.contains(x));
                if !retained_any {
                    if q.votes.yays@.contains(x) {
                        let k = choose|k: int| 0 <= k < q.votes.yays@.len() && q.votes.yays@[k] == x;
                    }
                    if q.votes.nays@.contains(x) {
                        let k = choose|k: int| 0 <= k < q.votes.nays@.len() && q.votes.nays@[k] == x;
                    }
                }
            }
            assert forall|k: int| 0 <= k < old(self).events@.len() implies self.events@[k] == old(self).events@[k] by {
            }
            assert forall|j: int| 0 <= j < self.proposals@.len() implies self.proposals@[j].votes.wf() by {
                assert(Governance::rotated_entry(before[j], self.proposals@[j], expiry, retained_any, new_members@, old(self).authorities@));
            }
            assert forall|j: int| #![trigger self.proposals@[j]] 0 <= j < before.len() implies {
                let p = before[j];
                let q = self.proposals@[j];
                &&& q.id == p.id && q.call == p.call
                &&& q.expires_at == expiry
                &&& retained_any ==> forall|x: AccountId|
                    #![trigger q.votes.yays@.contains(x)]
                    #![trigger q.votes.nays@.contains(x)]
                    (q.votes.yays@.contains(x) == (p.votes.yays@.contains(x) && new_members@.contains(x)
                        && old(self).authorities@.contains(x))) && (q.votes.nays@.contains(x) == (
                    p.votes.nays@.contains(x) && new_members@.contains(x) && old(self).authorities@.contains(x)))
                &&& !retained_any ==> q.votes.yays@.len() == 0 && q.votes.nays@.len() == 0
            } by {
                assert(Governance::rotated_entry(before[j], self.proposals@[j], expiry, retained_any, new_members@, old(self).authorities@));
            }
        }
    }

    /// The council and its settings at the start: no proposals, and `initial_authorities`
    /// (each once) as members.
    pub fn new(config: GovernanceConfig, initial_authorities: &Vec<AccountId>) -> (r: Governance)
        requires
            config.majority_threshold <= 100,
        ensures
            r.wf(),
            r.config == config,
            forall|x: AccountId| r.authorities@.contains(x) == initial_authorities@.contains(x),
            r.proposals@.len() == 0,
            r.to_resolve@.len() == 0,
            r.next_proposal_id == 0,
    {
        let mut g = Governance {
            config,
            authorities: Vec::new(),
            proposals: Vec::new(),
            to_resolve: Vec::new(),
            next_proposal_id: 0,
            events: Vec::new(),
        };
        g.do_rotate_authorities(initial_authorities, 0);
        g
    }

    /// The members of the council.
    pub fn authorities(&self) -> (r: Vec<AccountId>)
        ensures
            r@ == self.authorities@,
    {
        copy_members(&self.authorities)
    }

    /// Replaces the council (by the root authority); see `council_rotate_authorities`.
    pub fn force_rotate_authorities(&mut self, new_members: &Vec<AccountId>, now: BlockNumber)
        requires
            old(self).wf(),
        ensures
            final(self).wf(),
            Governance::rotated(old(self), final(self), new_members@, now),
    {
        self.do_rotate_authorities(new_members, now);
    }

    /// Replaces the council on the council's own authority. Votes of members who stay are
    /// kept and all others dropped (all of them where nobody stays), and every pending proposal
    /// is given a full voting period from `now`.
    pub fn council_rotate_authorities(&mut self, new_members: &Vec<AccountId>, now: BlockNumber)
        requires
            old(self).wf(),
        ensures
            final(self).wf(),
            Governance::rotated(old(self), final(self), new_members@, now),
    {
        self.do_rotate_authorities(new_members, now);
    }

    /// What a vote of `caller` on `id` does to `pre`, giving `post` and `r`.
    pub open spec fn vote_post(
        pre: &Governance,
        post: &Governance,
        caller: AccountId,
        id: ProposalId,
        approve: bool,
        r: Result<(), Error>,
    ) -> bool {
        &&& post.wf()
        &&& r == pre.vote_result(caller, id)
        &&& r is Err ==> *post == *pre
        &&& r is Ok ==> Governance::voted(pre, post, caller, id, pre.index_of(id), approve)
    }

    /// A member votes on a pending proposal.
    pub fn vote(&mut self, caller: AccountId, id: ProposalId, approve: bool) -> (r: Result<(), Error>)
        requires
            old(self).wf(),
        ensures
            Governance::vote_post(old(self), final(self), caller, id, approve, r),
    {
        if !contains(&self.authorities, caller) {
            return Err(Error::Unauthorized);
        }
        match self.find_proposal(id) {
            None => Err(Error::InvalidProposalId),
            Some(i) => self.do_vote(caller, id, i, approve),
        }
    }
}

impl Governance {
    /// Stores `p` as the proposal with its id, in place of any proposal with that id.
    fn insert_proposal(&mut self, p: Proposal) -> (i: usize)
        requires
            old(self).wf(),
            p.votes.wf(),
            p.votes.yays@.len() == 0,
            p.votes.nays@.len() == 0,
            p.id <= old(self).next_proposal_id,
        ensures
            final(self).wf(),
            i < final(self).proposals@.len(),
            final(self).proposals@[i as int] == p,
            final(self).has_proposal(p.id),
            final(self).index_of(p.id) == i as int,
            final(self).proposals@.len() >= old(self).proposals@.len(),
            final(self).proposals@.len() <= old(self).proposals@.len() + 1,
            forall|j: int|
                0 <= j < final(self).proposals@.len() && j != i ==> j < old(self).proposals@.len()
                    && final(self).proposals@[j] == old(self).proposals@[j],
            forall|j: int|
                0 <= j < old(self).proposals@.len() && old(self).proposals@[j].id != p.id ==> final(self).proposals@[j] == old(self).proposals@[j],
            final(self).authorities@ == old(self).authorities@,
            final(self).to_resolve@ == old(self).to_resolve@,
            final(self).config == old(self).config,
            final(self).next_proposal_id == old(self).next_proposal_id,
            final(self).events@ == old(self).events@,
    {
        let id = p.id;
        let i = match self.find_proposal(id) {
            Some(i) => {
                self.proposals.set(i, p);
                i
            },
            None => {
                self.proposals.push(p);
                self.proposals.len() - 1
            },
        };
        proof {
            let s = self.proposals@;
            assert forall|a: int, b: int| 0 <= a < b < s.len() implies s[a].id != s[b].id by {
                if a != i as int && b != i as int {
                    assert(s[a] == old(self).proposals@[a] && s[b] == old(self).proposals@[b]);
                } else if a == i as int {
                    assert(s[b] == old(self).proposals@[b]);
                } else {
                    assert(s[a] == old(self).proposals@[a]);
                }
            }
            assert forall|j: int, x: AccountId|
                0 <= j < s.len() && (s[j].votes.yays@.contains(x) || s[j].votes.nays@.contains(x))
                    implies self.authorities@.contains(x) by {
                if j == i as int {
                    if s[j].votes.yays@.contains(x) {
                        let k = choose|k: int| 0 <= k < s[j].votes.yays@.len() && s[j].votes.yays@[k] == x;
                    }
                    if s[j].votes.nays@.contains(x) {
                        let k = choose|k: int| 0 <= k < s[j].votes.nays@.len() && s[j].votes.nays@[k] == x;
                    }
                } else {
                    assert(s[j] == old(self).proposals@[j]);
                }
            }
            let k = self.index_of(id);
            assert(s[i as int].id == id);
        }
        i
    }

    /// A member proposes the action `call`: it stays open for the expiry period from `now`,
    /// and counts the proposer's vote in favour.
    pub fn initiate_proposal(&mut self, caller: AccountId, call: GovernanceCall, now: BlockNumber) -> (r:
        Result<(), Error>)
        requires
            old(self).wf(),
            now + old(self).config.expiry_period <= u32::MAX,
            old(self).next_proposal_id < u32::MAX,
        ensures
            final(self).wf(),
            !old(self).is_authority(caller) ==> r == Err::<(), Error>(Error::Unauthorized)
                && *final(self) == *old(self),
            old(self).is_authority(caller) ==> {
                let id = proposal_id_after(old(self).next_proposal_id);
                let i = final(self).index_of(id);
                let p = final(self).proposals@[i];
                &&& r is Ok
                &&& id == old(self).next_proposal_id + 1
                &&& !old(self).has_proposal(id)
                &&& old(self).queued(id) is None
                &&& final(self).next_proposal_id == id
                &&& final(self).has_proposal(id)
                &&& p.call == call
                &&& p.expires_at == now + old(self).config.expiry_period
                &&& p.votes.yays@ == seq![caller]
                &&& p.votes.nays@.len() == 0
                &&& forall|j: int|
                    0 <= j < old(self).proposals@.len() && old(self).proposals@[j].id != id ==> final(self).proposals@[j] == old(self).proposals@[j]
                &&& final(self).proposals@.len() <= old(self).proposals@.len() + 1
                &&& final(self).authorities@ == old(self).authorities@
                &&& if old(self).queued(id) is Some {
                    final(self).to_resolve@ == old(self).to_resolve@
                } else {
                    match resolution(1, 0, old(self).authorities@.len() as int, old(self).config.majority_threshold as int) {
                        Some(b) => final(self).to_resolve@ == old(self).to_resolve@.push((id, b)),
                        None => final(self).to_resolve@ == old(self).to_resolve@,
                    }
                }
                &&& final(self).events@.len() == old(self).events@.len() + 2
                &&& final(self).events@.subrange(0, old(self).events@.len() as int) == old(self).events@
                &&& final(self).events@[old(self).events@.len() as int] == GovernanceEvent::VoteCasted {
                    who: caller,
                    proposal: id,
                    approve: true,
                }
                &&& reports_registration(final(self).events@.last(), caller, call)
            },
    {
        if !contains(&self.authorities, caller) {
            return Err(Error::Unauthorized);
        }
        let id = if self.next_proposal_id == u32::MAX {
            0
        } else {
            self.next_proposal_id + 1
        };
        self.next_proposal_id = id;
        let registered = GovernanceEvent::ProposalRegistered { who: caller, call: copy_call(&call) };
        let p = Proposal {
            id,
            call,
            expires_at: now + self.config.expiry_period,
            votes: CastedVotes::new(),
        };
        let i = self.insert_proposal(p);
        let ghost mid = *self;
        let _ = self.do_vote(caller, id, i, true);
        let ghost voted = self.events@;
        self.events.push(registered);
        proof {
            assert(self.events@.subrange(0, old(self).events@.len() as int) =~= voted.subrange(0, old(self).events@.len() as int));
            assert(self.proposals@[i as int].id == id);
            assert(self.has_proposal(id));
            let k = self.index_of(id);
            assert(k == i as int);
            assert(mid.proposals@[i as int].votes.yays@ =~= Seq::<AccountId>::empty());
            assert(self.proposals@[i as int].votes.yays@ =~= seq![caller]);
        }
        Ok(())
    }

    /// What `resolve_next` does to `pre`, giving `post` and returning `r`.
    pub open spec fn resolved_next(
        pre: &Governance,
        post: &Governance,
        r: Option<(ProposalId, bool, Option<GovernanceCall>)>,
    ) -> bool {
        if pre.to_resolve@.len() == 0 {
            r is None && *post == *pre
        } else {
            let (id, approved) = pre.to_resolve@[0];
            &&& r is Some
            &&& match r {
                Some((rid, rapproved, rcall)) => {
                    &&& rid == id && rapproved == approved
                    &&& if pre.has_proposal(id) {
                        let i = pre.index_of(id);
                        &&& post.proposals@ == pre.proposals@.remove(i)
                        &&& rcall == if approved {
                            Some(pre.proposals@[i].call)
                        } else {
                            None::<GovernanceCall>
                        }
                        &&& post.events@ == if approved {
                            pre.events@
                        } else {
                            pre.events@.push(
                                GovernanceEvent::ProposalRejected { id, reason: RejectReason::ByVoting },
                            )
                        }
                    } else {
                        &&& post.proposals@ == pre.proposals@
                        &&& rcall is None
                        &&& post.events@ == pre.events@
                    }
                },
                None => false,
            }
            &&& post.to_resolve@ == pre.to_resolve@.subrange(1, pre.to_resolve@.len() as int)
            &&& !post.has_proposal(id)
            &&& post.authorities@ == pre.authorities@
            &&& post.config == pre.config
            &&& post.next_proposal_id == pre.next_proposal_id
        }
    }

    /// Takes the first settled proposal off the queue and removes it. A rejected one is
    /// reported here; an approved one's action is handed back for the caller to apply (and
    /// report with `record_passed`). Returns the id, the outcome and that action.
    pub fn resolve_next(&mut self) -> (r: Option<(ProposalId, bool, Option<GovernanceCall>)>)
        requires
            old(self).wf(),
        ensures
            final(self).wf(),
            Governance::resolved_next(old(self), final(self), r),
            final(self).to_resolve@.len() < old(self).to_resolve@.len() || r is None,
    {
        if self.to_resolve.len() == 0 {
            return None;
        }
        let (id, approved) = self.to_resolve.remove(0);
        proof {
            assert(self.to_resolve@ =~= old(self).to_resolve@.subrange(1, old(self).to_resolve@.len() as int));
            let s = self.to_resolve@;
            assert forall|a: int, b: int| 0 <= a < b < s.len() implies s[a].0 != s[b].0 by {
                assert(s[a] == old(self).to_resolve@[a + 1] && s[b] == old(self).to_resolve@[b + 1]);
            }
        }
        match self.find_proposal(id) {
            None => Some((id, approved, None)),
            Some(i) => {
                let ghost before = self.proposals@;
                let p = self.proposals.remove(i);
                proof {
                    let s = self.proposals@;
                    assert(s =~= before.remove(i as int));
                    assert forall|a: int, b: int| 0 <= a < b < s.len() implies s[a].id != s[b].id by {
                        let a2 = if a < i { a } else { a + 1 };
                        let b2 = if b < i { b } else { b + 1 };
                        assert(s[a] == before[a2] && s[b] == before[b2]);
                    }
                    assert forall|j: int| 0 <= j < s.len() implies s[j].votes.wf() by {
                        let j2 = if j < i { j } else { j + 1 };
                        assert(s[j] == before[j2]);
                    }
                    assert forall|j: int, x: AccountId|
                        0 <= j < s.len() && (s[j].votes.yays@.contains(x) || s[j].votes.nays@.contains(x))
                            implies self.authorities@.contains(x) by {
                        let j2 = if j < i { j } else { j + 1 };
                        assert(s[j] == before[j2]);
                    }
                    if self.has_proposal(id) {
                        let k = choose|k: int| 0 <= k < s.len() && s[k].id == id;
                        let k2 = if k < i { k } else { k + 1 };
                        assert(s[k] == before[k2]);
                    }
                }
                if approved {
                    Some((id, true, Some(p.call)))
                } else {
                    self.events.push(GovernanceEvent::ProposalRejected { id, reason: RejectReason::ByVoting });
                    Some((id, false, None))
                }
            },
        }
    }

    /// Reports that the approved proposal `id` was acted on, with the outcome of its action.
    pub fn record_passed(&mut self, id: ProposalId, call: GovernanceCall, result: DispatchOutcome)
        ensures
            final(self).events@ == old(self).events@.push(
                GovernanceEvent::ProposalPassed { id, call, result },
            ),
            final(self).proposals@ == old(self).proposals@,
            final(self).to_resolve@ == old(self).to_resolve@,
            final(self).authorities@ == old(self).authorities@,
            final(self).config == old(self).config,
            final(self).next_proposal_id == old(self).next_proposal_id,
    {
        self.events.push(GovernanceEvent::ProposalPassed { id, call, result });
    }

    /// What expiring the proposals due at `block` does to `pre`, giving `post`.
    pub open spec fn expired(pre: &Governance, post: &Governance, block: BlockNumber) -> bool {
        &&& post.wf()
        &&& forall|k: int|
            0 <= k < pre.proposals@.len() && pre.proposals@[k].expires_at != block
                ==> post.proposals@.contains(pre.proposals@[k])
        &&& forall|k: int|
            0 <= k < post.proposals@.len() ==> pre.proposals@.contains(post.proposals@[k])
        &&& forall|k: int| 0 <= k < post.proposals@.len() ==> post.proposals@[k].expires_at != block
        &&& post.to_resolve@ == pre.to_resolve@
        &&& post.authorities@ == pre.authorities@
        &&& post.config == pre.config
        &&& post.next_proposal_id == pre.next_proposal_id
        &&& post.events@ == pre.events@ + expiry_events(pre.proposals@, block)
    }

    /// Removes every proposal that expires at `block`, reporting each as rejected.
    pub fn expire_proposals(&mut self, block: BlockNumber)
        requires
            old(self).wf(),
        ensures
            Governance::expired(old(self), final(self), block),
    {
        let ghost o = self.proposals@;
        let mut i: usize = 0;
        let ghost mut j: int = 0;
        while i < self.proposals.len()
            invariant
                self.wf(),
                o == old(self).proposals@,
                0 <= i <= j <= o.len(),
                self.proposals@.len() == i + (o.len() - j),
                forall|k: int| 0 <= k < i ==> self.proposals@[k].expires_at != block,
                forall|k: int| 0 <= k < i ==> o.contains(#[trigger] self.proposals@[k]),
                forall|k: int| i <= k < self.proposals@.len() ==> self.proposals@[k] == o[k - i + j],
                forall|k: int|
                    0 <= k < j && o[k].expires_at != block ==> exists|m: int| 0 <= m < i && self.proposals@[m] == o[k],
                self.to_resolve@ == old(self).to_resolve@,
                self.authorities@ == old(self).authorities@,
                self.config == old(self).config,
                self.next_proposal_id == old(self).next_proposal_id,
                self.events@ == old(self).events@ + expiry_events(o.subrange(0, j), block),
            decreases self.proposals@.len() - i,
        {
            let ghost before = self.proposals@;
            proof {
                assert(o.subrange(0, j + 1).drop_last() =~= o.subrange(0, j));
                assert(o.subrange(0, j + 1).last() == o[j]);
                assert(before[i as int] == o[j]);
            }
            if self.proposals[i].expires_at == block {
                let p = self.proposals.remove(i);
                self.events.push(GovernanceEvent::ProposalRejected { id: p.id, reason: RejectReason::Expired });
                proof {
                    assert(self.events@ =~= old(self).events@ + expiry_events(o.subrange(0, j + 1), block));
                    let s = self.proposals@;
                    assert(s =~= before.remove(i as int));
                    assert forall|a: int, b: int| 0 <= a < b < s.len() implies s[a].id != s[b].id by {
                        let a2 = if a < i { a } else { a + 1 };
                        let b2 = if b < i { b } else { b + 1 };
                        assert(s[a] == before[a2] && s[b] == before[b2]);
                    }
                    assert forall|k: int| 0 <= k < s.len() implies s[k].votes.wf() by {
                        let k2 = if k < i { k } else { k + 1 };
                        assert(s[k] == before[k2]);
                    }
                    assert forall|k: int, x: AccountId|
                        0 <= k < s.len() && (s[k].votes.yays@.contains(x) || s[k].votes.nays@.contains(x))
                            implies self.authorities@.contains(x) by {
                        let k2 = if k < i { k } else { k + 1 };
                        assert(s[k] == before[k2]);
                    }
                    assert forall|k: int| 0 <= k < i implies o.contains(#[trigger] s[k]) by {
                        assert(s[k] == before[k]);
                    }
                    assert forall|k: int| 0 <= k < j + 1 && o[k].expires_at != block implies exists|m: int|
                        0 <= m < i && s[m] == o[k] by {
                        if k < j {
                            let m = choose|m: int| 0 <= m < i && before[m] == o[k];
                            assert(s[m] == before[m]);
                        } else {
                            assert(before[i as int] == o[j]);
                        }
                    }
                    j = j + 1;
                }
            } else {
                proof {
                    assert(before[i as int] == o[j]);
                    assert(self.events@ =~= old(self).events@ + expiry_events(o.subrange(0, j + 1), block));
                    assert forall|k: int| 0 <= k < i + 1 implies o.contains(#[trigger] self.proposals@[k]) by {
                        if k == i {
                            assert(o[j] == self.proposals@[k]);
                        }
                    }
                    assert forall|k: int| 0 <= k < j + 1 && o[k].expires_at != block implies exists|m: int|
                        0 <= m < i + 1 && self.proposals@[m] == o[k] by {
                        if k < j {
                            let m = choose|m: int| 0 <= m < i && before[m] == o[k];
                        } else {
                            assert(self.proposals@[i as int] == o[k]);
                        }
                    }
                    j = j + 1;
                }
                i = i + 1;
            }
        }
        proof {
            assert(o.subrange(0, j) =~= o);
            assert forall|k: int| 0 <= k < o.len() && o[k].expires_at != block implies self.proposals@.contains(o[k]) by {
                let m = choose|m: int| 0 <= m < i && self.proposals@[m] == o[k];
            }
        }
    }
}

/// Once the votes have settled the outcome of proposal `p`, a further vote on any proposal,
/// accepted or refused, leaves that outcome queued as it was.
pub proof fn lemma_vote_keeps_outcome(
    g0: &Governance,
    g1: &Governance,
    caller: AccountId,
    id: ProposalId,
    approve: bool,
    r: Result<(), Error>,
    p: ProposalId,
)
    requires
        g0.wf(),
        Governance::vote_post(g0, g1, caller, id, approve, r),
        g0.queued(p) is Some,
    ensures
        g1.queued(p) == g0.queued(p),
{
    if r is Ok {
        let s0 = g0.to_resolve@;
        let s1 = g1.to_resolve@;
        let k0 = choose|k: int| 0 <= k < s0.len() && s0[k].0 == p;
        if s1 != s0 {
            assert(g0.queued(id) is None);
            assert(p != id) by {
                if p == id {
                    assert(0 <= k0 < s0.len() && s0[k0].0 == id);
                }
            }
            assert(s1[k0] == s0[k0]);
            let k1 = choose|k: int| 0 <= k < s1.len() && s1[k].0 == p;
            if k1 != k0 {
                if k1 == s0.len() {
                    assert(s1[k1].0 == id);
                } else {
                    assert(s1[k1] == s0[k1]);
                }
            }
        }
    }
}

/// Once the settled proposal at the head of the queue is resolved, it is gone: a member's
/// vote on it is refused with `InvalidProposalId`.
pub proof fn lemma_resolved_refuses_votes(
    g0: &Governance,
    g1: &Governance,
    r: Option<(ProposalId, bool, Option<GovernanceCall>)>,
    caller: AccountId,
)
    requires
        g0.wf(),
        Governance::resolved_next(g0, g1, r),
        g0.to_resolve@.len() > 0,
        g1.is_authority(caller),
    ensures
        g1.vote_result(caller, g0.to_resolve@[0].0) == Err::<(), Error>(Error::InvalidProposalId),
{
}

/// Rotating the council keeps, on every pending proposal, exactly the votes of the members
/// who stay (and adds none); where no member stays, no vote is kept.
pub proof fn lemma_rotation_retains_votes(
    g0: &Governance,
    g1: &Governance,
    members: Seq<AccountId>,
    now: BlockNumber,
    i: int,
)
    requires
        g0.wf(),
        Governance::rotated(g0, g1, members, now),
        0 <= i < g0.proposals@.len(),
    ensures
        (exists|x: AccountId| members.contains(x) && g0.authorities@.contains(x)) ==> forall|x: AccountId|
            (g1.proposals@[i].votes.yays@.contains(x) == (g0.proposals@[i].votes.yays@.contains(x)
                && members.contains(x))) && (g1.proposals@[i].votes.nays@.contains(x) == (
            g0.proposals@[i].votes.nays@.contains(x) && members.contains(x))),
        !(exists|x: AccountId| members.contains(x) && g0.authorities@.contains(x)) ==> g1.proposals@[i].votes.yays@.len()
            == 0 && g1.proposals@[i].votes.nays@.len() == 0,
{
    let q = g1.proposals@[i];
    if exists|x: AccountId| members.contains(x) && g0.authorities@.contains(x) {
        assert forall|x: AccountId|
            (q.votes.yays@.contains(x) == (g0.proposals@[i].votes.yays@.contains(x) && members.contains(x)))
                && (q.votes.nays@.contains(x) == (g0.proposals@[i].votes.nays@.contains(x)
                && members.contains(x))) by {
            if g0.proposals@[i].votes.yays@.contains(x) || g0.proposals@[i].votes.nays@.contains(x) {
                assert(g0.authorities@.contains(x));
            }
        }
    }
}

} // verus!
