use xy_chain::{
    AccountId, Bank, BankConfig, CastedVotes, DispatchOutcome, Error, Governance, GovernanceCall,
    GovernanceConfig, GovernanceEvent, Proposal, RejectReason, Roles, Runtime,
};

const EXPIRY_PERIOD: u32 = 100;

fn bank_config() -> BankConfig {
    BankConfig {
        existential_deposit: 3,
        minimum_amount: 5,
        redeem_period: 200,
        stake_period: 150,
        interest_payout_period: 100,
        total_blocks_per_year: 5_256_000,
    }
}

fn with_authorities(members: Vec<AccountId>) -> Runtime {
    let config = GovernanceConfig { expiry_period: EXPIRY_PERIOD, majority_threshold: 80 };
    let governance = Governance::new(config, &members);
    Runtime::new(Roles::new(), Bank::new(bank_config()), governance)
}

fn rotate_call() -> GovernanceCall {
    GovernanceCall::CouncilRotateAuthorities { new_members: (21..31).collect() }
}

fn sorted(mut v: Vec<AccountId>) -> Vec<AccountId> {
    v.sort();
    v
}

fn find(rt: &Runtime, id: u32) -> Option<&Proposal> {
    rt.governance.proposals.iter().find(|p| p.id == id)
}

fn sorted_votes(votes: &CastedVotes) -> (Vec<AccountId>, Vec<AccountId>) {
    (sorted(votes.yays.clone()), sorted(votes.nays.clone()))
}

fn assert_storage_cleaned_up(rt: &Runtime, first_proposal: u32) {
    assert!(find(rt, first_proposal).is_none());
    assert!(rt.governance.to_resolve.is_empty());
}

fn insert_proposal(rt: &mut Runtime, id: u32, yays: Vec<AccountId>, nays: Vec<AccountId>) {
    let expires_at = rt.block_number + EXPIRY_PERIOD;
    rt.governance.proposals.push(Proposal {
        id,
        call: rotate_call(),
        expires_at,
        votes: CastedVotes { yays, nays },
    });
}

#[test]
fn can_initiate_proposal() {
    let mut rt = with_authorities((11..21).collect());
    assert_eq!(sorted(rt.governance.authorities()), (11..21).collect::<Vec<_>>());
    let authority_member: AccountId = 11;
    let first_block = rt.block_number;
    let first_proposal = 1u32;

    let now = rt.block_number;
    assert_eq!(rt.governance.initiate_proposal(authority_member, rotate_call(), now), Ok(()));

    let p = find(&rt, first_proposal).expect("the proposal is stored");
    assert_eq!(p.call, rotate_call());
    assert_eq!(p.expires_at, first_block + EXPIRY_PERIOD);
    assert_eq!(sorted_votes(&p.votes), (vec![authority_member], vec![]));
    assert_eq!(
        rt.governance.events.last(),
        Some(&GovernanceEvent::ProposalRegistered { who: authority_member, call: rotate_call() })
    );
}

#[test]
fn cannot_initiate_proposal_with_invaild_authority() {
    let mut rt = with_authorities((11..21).collect());
    assert_eq!(sorted(rt.governance.authorities()), (11..21).collect::<Vec<_>>());
    let invaild_authority_member: AccountId = 10;
    let now = rt.block_number;
    assert_eq!(
        rt.governance.initiate_proposal(invaild_authority_member, rotate_call(), now),
        Err(Error::Unauthorized)
    );
    assert!(rt.governance.proposals.is_empty());
}

#[test]
fn can_vote() {
    let mut rt = with_authorities((11..21).collect());
    let authority_member_1: AccountId = 13;
    let authority_member_2: AccountId = 12;
    let authority_member_3: AccountId = 11;
    let first_proposal = 1u32;

    // At a threshold of 80% of ten members, nine yays or two nays settle a proposal; seven
    // yays are cast already.
    insert_proposal(&mut rt, first_proposal, (14..21).collect(), vec![]);

    assert_eq!(rt.governance.vote(authority_member_1, first_proposal, true), Ok(()));
    let p = find(&rt, first_proposal).unwrap();
    assert_eq!(sorted_votes(&p.votes), ((13..21).collect(), vec![]));
    assert!(rt.governance.to_resolve.is_empty());
    assert_eq!(
        rt.governance.events.last(),
        Some(&GovernanceEvent::VoteCasted {
            who: authority_member_1,
            proposal: first_proposal,
            approve: true
        })
    );

    assert_eq!(rt.governance.vote(authority_member_2, first_proposal, true), Ok(()));
    let p = find(&rt, first_proposal).unwrap();
    assert_eq!(sorted_votes(&p.votes), ((12..21).collect(), vec![]));
    assert_eq!(rt.governance.to_resolve, vec![(first_proposal, true)]);
    assert_eq!(
        rt.governance.events.last(),
        Some(&GovernanceEvent::VoteCasted {
            who: authority_member_2,
            proposal: first_proposal,
            approve: true
        })
    );

    assert_eq!(rt.governance.vote(authority_member_3, first_proposal, false), Ok(()));
    let p = find(&rt, first_proposal).unwrap();
    assert_eq!(sorted_votes(&p.votes), ((12..21).collect(), vec![11]));
    assert_eq!(rt.governance.to_resolve, vec![(first_proposal, true)]);
    assert_eq!(
        rt.governance.events.last(),
        Some(&GovernanceEvent::VoteCasted {
            who: authority_member_3,
            proposal: first_proposal,
            approve: false
        })
    );
}

#[test]
fn cannot_vote_with_invalid_authority() {
    let mut rt = with_authorities((11..21).collect());
    let invaild_authority_member: AccountId = 10;
    let first_proposal = 1u32;
    insert_proposal(&mut rt, first_proposal, vec![], vec![]);
    assert_eq!(
        rt.governance.vote(invaild_authority_member, first_proposal, true),
        Err(Error::Unauthorized)
    );
}

#[test]
fn cannot_vote_with_invalid_proposal() {
    let mut rt = with_authorities((11..21).collect());
    let authority_member: AccountId = 11;
    let first_proposal = 1u32;
    let invaild_proposal = 2u32;
    insert_proposal(&mut rt, first_proposal, vec![], vec![]);
    assert_eq!(
        rt.governance.vote(authority_member, invaild_proposal, true),
        Err(Error::InvalidProposalId)
    );
}

#[test]
fn cannot_vote_twice() {
    let mut rt = with_authorities((11..21).collect());
    let has_voted_pass_member: AccountId = 11;
    let has_voted_reject_member: AccountId = 16;
    let first_proposal = 1u32;
    insert_proposal(&mut rt, first_proposal, (11..15).collect(), vec![16]);
    assert_eq!(
        rt.governance.vote(has_voted_pass_member, first_proposal, true),
        Err(Error::AlreadyVoted)
    );
    assert_eq!(
        rt.governance.vote(has_voted_reject_member, first_proposal, true),
        Err(Error::AlreadyVoted)
    );
}

#[test]
fn cannot_vote_after_proposal_resolved() {
    let mut rt = with_authorities((11..22).collect());
    let authority_member: AccountId = 21;
    let first_proposal = 1u32;
    insert_proposal(&mut rt, first_proposal, vec![], vec![]);

    // Passed.
    rt.governance.to_resolve.push((first_proposal, true));
    rt.finalize_block();
    assert_eq!(
        rt.governance.vote(authority_member, first_proposal, true),
        Err(Error::InvalidProposalId)
    );

    // Rejected.
    rt.governance.to_resolve.push((first_proposal, false));
    rt.finalize_block();
    assert_eq!(
        rt.governance.vote(authority_member, first_proposal, true),
        Err(Error::InvalidProposalId)
    );

    // Expired.
    rt.finalize_block();
    assert_eq!(
        rt.governance.vote(authority_member, first_proposal, true),
        Err(Error::InvalidProposalId)
    );
}

#[test]
fn can_force_rotate_authorities() {
    let mut rt = with_authorities(vec![]);
    // Duplicated members do not affect the result.
    let members: Vec<AccountId> = (31..41).chain(31..35).collect();
    let now = rt.block_number;
    rt.governance.force_rotate_authorities(&members, now);
    assert_eq!(sorted(rt.governance.authorities()), (31..41).collect::<Vec<_>>());
    assert_eq!(
        rt.governance.events.last(),
        Some(&GovernanceEvent::AuthorityRotated { new_council: (31..41).collect() })
    );
}

#[test]
fn can_council_rotate_authorities() {
    let mut rt = with_authorities((11..21).collect());
    let authority_member: AccountId = 11;
    let first_proposal = 1u32;
    let now = rt.block_number;
    assert_eq!(rt.governance.initiate_proposal(authority_member, rotate_call(), now), Ok(()));
    for i in 12..21 {
        assert_eq!(rt.governance.vote(i, first_proposal, true), Ok(()));
    }
    rt.finalize_block();

    assert_eq!(sorted(rt.governance.authorities()), (21..31).collect::<Vec<_>>());
    assert_storage_cleaned_up(&rt, first_proposal);
    assert!(rt
        .governance
        .events
        .contains(&GovernanceEvent::AuthorityRotated { new_council: (21..31).collect() }));
    assert_eq!(
        rt.governance.events.last(),
        Some(&GovernanceEvent::ProposalPassed {
            id: first_proposal,
            call: rotate_call(),
            result: DispatchOutcome::Applied
        })
    );
}

#[test]
fn can_expired_council_rotate_authorities() {
    let mut rt = with_authorities((11..21).collect());
    let authority_member: AccountId = 11;
    let first_proposal = 1u32;
    let now = rt.block_number;
    assert_eq!(rt.governance.initiate_proposal(authority_member, rotate_call(), now), Ok(()));
    // Not enough votes to settle the proposal.
    for i in 12..15 {
        assert_eq!(rt.governance.vote(i, first_proposal, true), Ok(()));
    }
    // The proposal expires.
    rt.block_number = now + EXPIRY_PERIOD;
    rt.finalize_block();

    assert_eq!(sorted(rt.governance.authorities()), (11..21).collect::<Vec<_>>());
    assert_storage_cleaned_up(&rt, first_proposal);
    assert!(rt.governance.proposals.iter().all(|p| p.expires_at != now + EXPIRY_PERIOD));
    assert_eq!(
        rt.governance.events.last(),
        Some(&GovernanceEvent::ProposalRejected { id: first_proposal, reason: RejectReason::Expired })
    );
}

#[test]
fn can_reject_council_rotate_authorities() {
    let mut rt = with_authorities((11..21).collect());
    let authority_member: AccountId = 11;
    let first_proposal = 1u32;
    let now = rt.block_number;
    assert_eq!(rt.governance.initiate_proposal(authority_member, rotate_call(), now), Ok(()));
    // Two nays.
    for i in 12..14 {
        assert_eq!(rt.governance.vote(i, first_proposal, false), Ok(()));
    }
    rt.finalize_block();

    assert_eq!(sorted(rt.governance.authorities()), (11..21).collect::<Vec<_>>());
    assert_storage_cleaned_up(&rt, first_proposal);
    assert!(rt.governance.events.contains(&GovernanceEvent::ProposalRejected {
        id: first_proposal,
        reason: RejectReason::ByVoting
    }));
}

#[test]
fn can_resolve_after_proposal() {
    let mut rt = with_authorities(vec![11]);
    let authority_member: AccountId = 11;
    let first_proposal = 1u32;
    let now = rt.block_number;
    assert_eq!(rt.governance.initiate_proposal(authority_member, rotate_call(), now), Ok(()));
    rt.finalize_block();

    assert_eq!(sorted(rt.governance.authorities()), (21..31).collect::<Vec<_>>());
    assert_storage_cleaned_up(&rt, first_proposal);
    assert_eq!(
        rt.governance.events.last(),
        Some(&GovernanceEvent::ProposalPassed {
            id: first_proposal,
            call: rotate_call(),
            result: DispatchOutcome::Applied
        })
    );
}

#[test]
fn rotate_authorities_can_retain_votes() {
    let mut rt = with_authorities((11..21).collect());
    let authority_member: AccountId = 11;
    let first_proposal = 1u32;
    let mix_old_and_new_members: Vec<AccountId> = (15..25).collect();
    let now = rt.block_number;
    assert_eq!(rt.governance.initiate_proposal(authority_member, rotate_call(), now), Ok(()));

    // Seven more yays, of which 15 to 18 stay on the next council.
    for i in 12..19 {
        assert_eq!(rt.governance.vote(i, first_proposal, true), Ok(()));
    }
    let p = find(&rt, first_proposal).unwrap();
    assert_eq!(sorted_votes(&p.votes), ((11..19).collect(), vec![]));

    rt.governance.force_rotate_authorities(&mix_old_and_new_members, now);
    assert_eq!(sorted(rt.governance.authorities()), (15..25).collect::<Vec<_>>());

    // Only the votes of members who stay are kept.
    let p = find(&rt, first_proposal).unwrap();
    assert_eq!(sorted_votes(&p.votes), ((15..19).collect(), vec![]));

    for i in 19..24 {
        assert_eq!(rt.governance.vote(i, first_proposal, true), Ok(()));
    }
    assert_eq!(rt.governance.vote(24, first_proposal, false), Ok(()));

    rt.finalize_block();

    assert_eq!(sorted(rt.governance.authorities()), (21..31).collect::<Vec<_>>());
    assert_storage_cleaned_up(&rt, first_proposal);
    assert!(rt
        .governance
        .events
        .contains(&GovernanceEvent::AuthorityRotated { new_council: (21..31).collect() }));
    assert_eq!(
        rt.governance.events.last(),
        Some(&GovernanceEvent::ProposalPassed {
            id: first_proposal,
            call: rotate_call(),
            result: DispatchOutcome::Applied
        })
    );
}
