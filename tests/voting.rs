use voting_system::{
    decide_outcome, end_time_of, Identity, ProposalRegistry, ProposalStatus, Vote,
    NANOS_PER_SECOND,
};

fn who(b: u8) -> Identity {
    Identity::new(vec![b, 1, 2])
}

const T0: u64 = 1_700_000_000_000_000_000;

#[test]
fn ids_start_at_one_and_increase() {
    let mut reg = ProposalRegistry::new();
    assert_eq!(reg.next_id(), 1);
    let a = reg.create_proposal(who(1), T0, "a".to_string(), "x".to_string(), 10);
    let b = reg.create_proposal(who(2), T0 + 5, "b".to_string(), "y".to_string(), 0);
    let c = reg.create_proposal(who(1), T0 + 9, "c".to_string(), "z".to_string(), 3);
    assert_eq!((a.id, b.id, c.id), (1, 2, 3));
    assert_eq!(reg.next_id(), 4);
    let all = reg.get_all_proposals();
    assert_eq!(all.len(), 3);
    assert_eq!(all[1].title, "b");
}

#[test]
fn created_proposal_fields() {
    let mut reg = ProposalRegistry::new();
    let p = reg.create_proposal(who(7), T0, "t".to_string(), "d".to_string(), 60);
    assert_eq!(p.creator.bytes, vec![7, 1, 2]);
    assert_eq!(p.created_at, T0);
    assert_eq!(p.end_time, T0 + 60 * NANOS_PER_SECOND);
    assert_eq!(p.status, ProposalStatus::Active);
    assert_eq!(p.votes.voter_count(), 0);
    let stored = reg.get_proposal(1).unwrap();
    assert_eq!(stored.description, "d");
    assert!(reg.get_proposal(2).is_none());
    assert!(reg.get_proposal(0).is_none());
}

#[test]
fn end_time_saturates() {
    assert_eq!(end_time_of(5, 2), 5 + 2 * NANOS_PER_SECOND);
    assert_eq!(end_time_of(5, u64::MAX), u64::MAX);
    assert_eq!(end_time_of(u64::MAX - 1, 1), u64::MAX);
    assert_eq!(end_time_of(7, 0), 7);
}

#[test]
fn vote_on_missing_proposal_is_refused() {
    let mut reg = ProposalRegistry::new();
    assert!(!reg.vote(who(1), T0, 1, Vote::Yes));
    assert!(reg.get_proposal(1).is_none());
    assert!(reg.get_proposal_results(1).is_none());
    assert_eq!(reg.next_id(), 1);
    assert!(reg.get_all_proposals().is_empty());
}

#[test]
fn revote_replaces_earlier_ballot() {
    let mut reg = ProposalRegistry::new();
    reg.create_proposal(who(1), T0, "t".to_string(), "d".to_string(), 100);
    assert!(reg.vote(who(3), T0 + 1, 1, Vote::Yes));
    assert!(reg.vote(who(3), T0 + 2, 1, Vote::No));
    let t = reg.get_proposal_results(1).unwrap();
    assert_eq!((t.yes, t.no, t.abstain), (0, 1, 0));
    assert_eq!(reg.get_proposal(1).unwrap().votes.voter_count(), 1);
    assert_eq!(reg.get_voter_status(&who(3), 1), Some(Vote::No));
    assert_eq!(reg.get_voter_status(&who(4), 1), None);
    assert_eq!(reg.get_voter_status(&who(3), 2), None);
}

#[test]
fn terminal_status_is_final() {
    let mut reg = ProposalRegistry::new();
    reg.create_proposal(who(1), T0, "t".to_string(), "d".to_string(), 1);
    assert!(reg.vote(who(2), T0, 1, Vote::Yes));
    let after = T0 + 2 * NANOS_PER_SECOND;
    assert_eq!(reg.end_proposal(after, 1), Some(ProposalStatus::Passed));
    assert_eq!(reg.end_proposal(after + 1, 1), None);
    assert_eq!(reg.end_proposal(after + 100, 1), None);
    assert!(!reg.vote(who(3), after, 1, Vote::No));
    assert_eq!(reg.get_proposal(1).unwrap().status, ProposalStatus::Passed);
    assert_eq!(reg.end_proposal(after, 9), None);
}

#[test]
fn tally_counts_distinct_voters() {
    let mut reg = ProposalRegistry::new();
    reg.create_proposal(who(1), T0, "t".to_string(), "d".to_string(), 100);
    assert!(reg.vote(who(1), T0, 1, Vote::Yes));
    assert!(reg.vote(who(2), T0, 1, Vote::Abstain));
    assert!(reg.vote(who(3), T0, 1, Vote::No));
    assert!(reg.vote(who(2), T0, 1, Vote::Yes));
    assert!(reg.vote(who(4), T0, 1, Vote::Abstain));
    let t = reg.get_proposal_results(1).unwrap();
    assert_eq!(t.get(Vote::Yes), 2);
    assert_eq!(t.get(Vote::No), 1);
    assert_eq!(t.get(Vote::Abstain), 1);
    assert_eq!(t.yes + t.no + t.abstain, 4);
}

#[test]
fn results_ignore_deadline() {
    let mut reg = ProposalRegistry::new();
    reg.create_proposal(who(1), T0, "t".to_string(), "d".to_string(), 0);
    let t = reg.get_proposal_results(1).unwrap();
    assert_eq!((t.yes, t.no, t.abstain), (0, 0, 0));
    assert_eq!(reg.get_proposal(1).unwrap().status, ProposalStatus::Active);
}

#[test]
fn tie_fails() {
    let mut reg = ProposalRegistry::new();
    reg.create_proposal(who(1), T0, "t".to_string(), "d".to_string(), 10);
    assert!(reg.vote(who(1), T0, 1, Vote::Yes));
    assert!(reg.vote(who(2), T0, 1, Vote::No));
    assert!(reg.vote(who(3), T0, 1, Vote::Abstain));
    assert_eq!(
        reg.end_proposal(T0 + 11 * NANOS_PER_SECOND, 1),
        Some(ProposalStatus::Failed)
    );
    assert_eq!(decide_outcome(3, 3), ProposalStatus::Failed);
    assert_eq!(decide_outcome(2, 5), ProposalStatus::Failed);
    assert_eq!(decide_outcome(5, 2), ProposalStatus::Passed);
    assert_eq!(decide_outcome(0, 0), ProposalStatus::Expired);
}

#[test]
fn zero_votes_expire() {
    let mut reg = ProposalRegistry::new();
    reg.create_proposal(who(1), T0, "t".to_string(), "d".to_string(), 10);
    assert_eq!(
        reg.end_proposal(T0 + 11 * NANOS_PER_SECOND, 1),
        Some(ProposalStatus::Expired)
    );
    assert_eq!(reg.get_proposal(1).unwrap().status, ProposalStatus::Expired);
}

#[test]
fn only_abstentions_expire() {
    let mut reg = ProposalRegistry::new();
    reg.create_proposal(who(1), T0, "t".to_string(), "d".to_string(), 10);
    assert!(reg.vote(who(5), T0, 1, Vote::Abstain));
    assert_eq!(
        reg.end_proposal(T0 + 11 * NANOS_PER_SECOND, 1),
        Some(ProposalStatus::Expired)
    );
}

#[test]
fn zero_duration_vote_marks_expired() {
    let mut reg = ProposalRegistry::new();
    let p = reg.create_proposal(who(1), T0, "t".to_string(), "d".to_string(), 0);
    assert!(!reg.vote(who(2), T0 + 1, p.id, Vote::Yes));
    assert_eq!(reg.get_proposal(p.id).unwrap().status, ProposalStatus::Expired);
    assert_eq!(reg.get_proposal(p.id).unwrap().votes.voter_count(), 0);
    assert_eq!(reg.end_proposal(T0 + 2, p.id), None);
}

#[test]
fn three_voters_pass_after_deadline() {
    let mut reg = ProposalRegistry::new();
    let p = reg.create_proposal(who(1), T0, "t".to_string(), "d".to_string(), 3600);
    assert!(reg.vote(who(1), T0 + 1, p.id, Vote::Yes));
    assert!(reg.vote(who(2), T0 + 2, p.id, Vote::Yes));
    assert!(reg.vote(who(3), T0 + 3, p.id, Vote::No));
    assert_eq!(reg.end_proposal(T0 + 4, p.id), Some(ProposalStatus::Active));
    assert_eq!(reg.get_proposal(p.id).unwrap().status, ProposalStatus::Active);
    let after = T0 + 3601 * NANOS_PER_SECOND;
    assert_eq!(reg.end_proposal(after, p.id), Some(ProposalStatus::Passed));
    assert_eq!(reg.get_proposal(p.id).unwrap().status, ProposalStatus::Passed);
}

#[test]
fn vote_at_deadline_is_accepted() {
    let mut reg = ProposalRegistry::new();
    let p = reg.create_proposal(who(1), T0, "t".to_string(), "d".to_string(), 1);
    assert!(reg.vote(who(2), p.end_time, p.id, Vote::Yes));
    assert_eq!(reg.end_proposal(p.end_time, p.id), Some(ProposalStatus::Active));
}

#[test]
fn active_listing_filters_by_status_and_deadline() {
    let mut reg = ProposalRegistry::new();
    reg.create_proposal(who(1), T0, "a".to_string(), "d".to_string(), 100);
    reg.create_proposal(who(1), T0, "b".to_string(), "d".to_string(), 1);
    reg.create_proposal(who(1), T0, "c".to_string(), "d".to_string(), 100);
    let now = T0 + 50 * NANOS_PER_SECOND;
    assert_eq!(reg.end_proposal(now, 3), Some(ProposalStatus::Active));
    let active = reg.get_active_proposals(now);
    let ids: Vec<u64> = active.iter().map(|p| p.id).collect();
    assert_eq!(ids, vec![1, 3]);
    // proposal 2 is past its deadline but still stored as active
    assert_eq!(reg.get_proposal(2).unwrap().status, ProposalStatus::Active);
    assert!(!reg.vote(who(2), now, 2, Vote::Yes));
    assert_eq!(reg.get_proposal(2).unwrap().status, ProposalStatus::Expired);
    assert!(reg.get_active_proposals(T0 + 100 * NANOS_PER_SECOND).is_empty());
}

#[test]
fn identity_comparison() {
    assert!(who(1).same_as(&who(1)));
    assert!(!who(1).same_as(&who(2)));
    assert!(!Identity::new(vec![1]).same_as(&Identity::new(vec![1, 2])));
    assert_eq!(who(9).duplicate().bytes, vec![9, 1, 2]);
}
