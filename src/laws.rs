use vstd::prelude::*;
use crate::ledger::{Vote, vote_count, voters_for};
use crate::proposal::{ProposalStatus, ProposalView, outcome};

verus! {

/// A second ballot by the same voter while the proposal is open replaces
/// the first: both are accepted, and the voter ends up with exactly one
/// entry, holding the second choice.
pub proof fn lemma_revote_replaces(
    p: ProposalView,
    voter: Seq<u8>,
    t1: u64,
    t2: u64,
    first: Vote,
    second: Vote,
)
    requires
        p.open_at(t1),
        p.open_at(t2),
    ensures
        ({
            let (p1, r1) = p.vote_step(voter, t1, first);
            let (p2, r2) = p1.vote_step(voter, t2, second);
            &&& r1
            &&& r2
            &&& p2.votes == p.votes.insert(voter, second)
            &&& p2.votes.dom() == p.votes.dom().insert(voter)
        }),
{
    let p1 = p.vote_step(voter, t1, first).0;
    assert(p1.vote_step(voter, t2, second).0.votes =~= p.votes.insert(voter, second));
}

/// A proposal in a terminal status never changes again: closing it reports
/// nothing, and ballots on it are refused.
pub proof fn lemma_terminal_is_final(p: ProposalView, now: u64, voter: Seq<u8>, v: Vote)
    requires
        p.status != ProposalStatus::Active,
    ensures
        p.end_step(now) == (p, None::<ProposalStatus>),
        p.vote_step(voter, now, v) == (p, false),
{
}

/// Once closing a proposal has produced a terminal status, every later
/// request to close it reports nothing and leaves it as it is.
pub proof fn lemma_end_twice(p: ProposalView, t1: u64, t2: u64)
    requires
        p.end_step(t1).1 matches Some(s) && s != ProposalStatus::Active,
    ensures
        p.end_step(t1).0.status != ProposalStatus::Active,
        p.end_step(t1).0.end_step(t2) == (p.end_step(t1).0, None::<ProposalStatus>),
{
}

/// The ballots of a proposal change only through an accepted vote, which
/// adds or replaces that voter's entry; closing it leaves them as they are.
pub proof fn lemma_ballots_change_only_by_vote(p: ProposalView, voter: Seq<u8>, now: u64, v: Vote)
    ensures
        p.vote_step(voter, now, v).1 ==> p.vote_step(voter, now, v).0.votes == p.votes.insert(
            voter,
            v,
        ),
        !p.vote_step(voter, now, v).1 ==> p.vote_step(voter, now, v).0.votes == p.votes,
        p.end_step(now).0.votes == p.votes,
{
}

/// An even split between yes and no, with at least one of each, fails.
pub proof fn lemma_tie_fails(n: nat)
    requires
        n > 0,
    ensures
        outcome(n, n) == ProposalStatus::Failed,
{
}

/// An active proposal with no ballots, closed after its deadline, expires.
pub proof fn lemma_no_votes_expire(p: ProposalView, now: u64)
    requires
        p.status == ProposalStatus::Active,
        now > p.end_time,
        p.votes == Map::<Seq<u8>, Vote>::empty(),
    ensures
        p.end_step(now) == (p.with_status(ProposalStatus::Expired), Some(ProposalStatus::Expired)),
{
    assert(voters_for(p.votes, Vote::Yes) =~= Set::empty());
    assert(voters_for(p.votes, Vote::No) =~= Set::empty());
    assert(vote_count(p.votes, Vote::Yes) == 0);
    assert(vote_count(p.votes, Vote::No) == 0);
}

} // verus!
