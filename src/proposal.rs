use vstd::prelude::*;
use crate::identity::Identity;
use crate::ledger::{Ledger, Tally, Vote, vote_count};

verus! {

/// Nanoseconds in one second: deadlines are kept on the host's nanosecond
/// clock, durations are given in seconds.
pub const NANOS_PER_SECOND: u64 = 1_000_000_000;

/// Where a proposal stands in its lifecycle.
#[derive(Clone, Copy, Debug, PartialEq, Eq, Structural, Hash)]
pub enum ProposalStatus {
    Active,
    Passed,
    Failed,
    Expired,
}

/// The deadline of a proposal created at `created_at` (nanoseconds) that
/// stays open for `duration_seconds`; a deadline past the clock's range is
/// held at the clock's largest value.
pub open spec fn deadline(created_at: u64, duration_seconds: u64) -> u64 {
    let t = created_at as int + duration_seconds as int * NANOS_PER_SECOND as int;
    if t > u64::MAX {
        u64::MAX
    } else {
        t as u64
    }
}

/// The terminal status of a closed proposal with `yes` and `no` votes
/// (abstentions do not count).
pub open spec fn outcome(yes: nat, no: nat) -> ProposalStatus {
    if yes + no == 0 {
        ProposalStatus::Expired
    } else if yes > no {
        ProposalStatus::Passed
    } else {
        ProposalStatus::Failed
    }
}

/// Computes the deadline of a proposal.
pub fn end_time_of(created_at: u64, duration_seconds: u64) -> (r: u64)
    ensures
        r == deadline(created_at, duration_seconds),
{
    match duration_seconds.checked_mul(NANOS_PER_SECOND) {
        Some(span) => match created_at.checked_add(span) {
            Some(t) => t,
            None => u64::MAX,
        },
        None => {
            assert(duration_seconds as int * NANOS_PER_SECOND as int > u64::MAX);
            u64::MAX
        },
    }
}

/// Decides the terminal status of a proposal whose deadline has passed.
pub fn decide_outcome(yes: u64, no: u64) -> (r: ProposalStatus)
    ensures
        r == outcome(yes as nat, no as nat),
{
    if yes == 0 && no == 0 {
        ProposalStatus::Expired
    } else if yes > no {
        ProposalStatus::Passed
    } else {
        ProposalStatus::Failed
    }
}

/// The mathematical content of a proposal.
pub ghost struct ProposalView {
    pub id: u64,
    pub title: Seq<char>,
    pub description: Seq<char>,
    pub creator: Seq<u8>,
    pub created_at: u64,
    pub end_time: u64,
    pub votes: Map<Seq<u8>, Vote>,
    pub status: ProposalStatus,
}

impl ProposalView {
    /// The same proposal with its status set to `s`.
    pub open spec fn with_status(self, s: ProposalStatus) -> ProposalView {
        ProposalView { status: s, ..self }
    }

    /// The same proposal with `voter`'s ballot set to `v`.
    pub open spec fn with_vote(self, voter: Seq<u8>, v: Vote) -> ProposalView {
        ProposalView { votes: self.votes.insert(voter, v), ..self }
    }

    /// Whether ballots are accepted at time `now`.
    pub open spec fn open_at(self, now: u64) -> bool {
        self.status == ProposalStatus::Active && now <= self.end_time
    }

    /// The effect of a vote cast by `voter` at time `now`: the proposal after
    /// it, and whether the ballot was accepted. A ballot cast after the
    /// deadline on an active proposal marks it expired.
    pub open spec fn vote_step(self, voter: Seq<u8>, now: u64, v: Vote) -> (ProposalView, bool) {
        if self.status != ProposalStatus::Active {
            (self, false)
        } else if now > self.end_time {
            (self.with_status(ProposalStatus::Expired), false)
        } else {
            (self.with_vote(voter, v), true)
        }
    }

    /// The effect of a request to close the proposal at time `now`: the
    /// proposal after it, and what the request reports.
    pub open spec fn end_step(self, now: u64) -> (ProposalView, Option<ProposalStatus>) {
        if self.status != ProposalStatus::Active {
            (self, None)
        } else if now <= self.end_time {
            (self, Some(ProposalStatus::Active))
        } else {
            let s = outcome(
                vote_count(self.votes, Vote::Yes),
                vote_count(self.votes, Vote::No),
            );
            (self.with_status(s), Some(s))
        }
    }
}

/// A votable item with a deadline and a lifecycle status.
pub struct Proposal {
    pub id: u64,
    pub title: String,
    pub description: String,
    pub creator: Identity,
    pub created_at: u64,
    pub end_time: u64,
    pub votes: Ledger,
    pub status: ProposalStatus,
}

impl View for Proposal {
    type V = ProposalView;

    open spec fn view(&self) -> ProposalView {
        ProposalView {
            id: self.id,
            title: self.title@,
            description: self.description@,
            creator: self.creator@,
            created_at: self.created_at,
            end_time: self.end_time,
            votes: self.votes@,
            status: self.status,
        }
    }
}

impl Proposal {
    pub open spec fn wf(&self) -> bool {
        self.votes.wf()
    }

    /// A copy of this proposal.
    pub fn duplicate(&self) -> (r: Proposal)
        requires
            self.wf(),
        ensures
            r.wf(),
            r@ == self@,
    {
        Proposal {
            id: self.id,
            title: self.title.clone(),
            description: self.description.clone(),
            creator: self.creator.duplicate(),
            created_at: self.created_at,
            end_time: self.end_time,
            votes: self.votes.duplicate(),
            status: self.status,
        }
    }

    /// The count of each vote kind cast on this proposal.
    pub fn results(&self) -> (r: Tally)
        requires
            self.wf(),
        ensures
            vote_count(self@.votes, Vote::Yes) <= u64::MAX,
            vote_count(self@.votes, Vote::No) <= u64::MAX,
            vote_count(self@.votes, Vote::Abstain) <= u64::MAX,
            r == Tally::of(self@.votes),
    {
        self.votes.tally()
    }
}

} // verus!
