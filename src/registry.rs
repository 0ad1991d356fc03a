use vstd::prelude::*;
use crate::identity::Identity;
use crate::ledger::{Ledger, Tally, Vote, lemma_counts_partition};
use crate::proposal::{Proposal, ProposalStatus, ProposalView, decide_outcome, end_time_of, deadline};

verus! {

/// Owns every proposal and allocates their identifiers: proposal `k` is the
/// `k`-th one created, and identifiers are never reused.
pub struct ProposalRegistry {
    proposals: Vec<Proposal>,
    next_id: u64,
}

impl View for ProposalRegistry {
    type V = Map<u64, ProposalView>;

    /// The stored proposals, by identifier.
    closed spec fn view(&self) -> Map<u64, ProposalView> {
        Map::new(
            |id: u64| 1 <= id < self.next_id,
            |id: u64| self.proposals@[id - 1]@,
        )
    }
}

impl ProposalRegistry {
    /// The identifier that the next created proposal receives.
    pub closed spec fn spec_next_id(&self) -> u64 {
        self.next_id
    }

    pub closed spec fn wf(&self) -> bool {
        &&& self.next_id == self.proposals@.len() + 1
        &&& forall|i: int|
            #![trigger self.proposals@[i]]
            0 <= i < self.proposals@.len() ==> self.proposals@[i].id == i + 1
                && self.proposals@[i].wf()
    }

    /// The stored identifiers are exactly those below the next one, from 1
    /// on, and each proposal carries its own identifier.
    pub proof fn lemma_ids(&self)
        requires
            self.wf(),
        ensures
            forall|id: u64| #[trigger] self@.contains_key(id) <==> 1 <= id < self.spec_next_id(),
            forall|id: u64| #[trigger] self@.contains_key(id) ==> self@[id].id == id,
    {
        assert forall|id: u64| #[trigger] self@.contains_key(id) implies self@[id].id == id by {
            assert(self.proposals@[id - 1].id == id - 1 + 1);
        }
    }

    /// An empty registry.
    pub fn new() -> (r: ProposalRegistry)
        ensures
            r.wf(),
            r@ == Map::<u64, ProposalView>::empty(),
            r.spec_next_id() == 1,
    {
        let r = ProposalRegistry { proposals: Vec::new(), next_id: 1 };
        assert(r@ =~= Map::<u64, ProposalView>::empty());
        r
    }

    /// The identifier that the next created proposal receives.
    pub fn next_id(&self) -> (r: u64)
        ensures
            r == self.spec_next_id(),
    {
        self.next_id
    }

    /// Creates an active proposal with no ballots, owned by `creator`, made
    /// at time `now` (nanoseconds) and open for `duration_seconds`.
    pub fn create_proposal(
        &mut self,
        creator: Identity,
        now: u64,
        title: String,
        description: String,
        duration_seconds: u64,
    ) -> (r: Proposal)
        requires
            old(self).wf(),
            old(self).spec_next_id() < u64::MAX,
        ensures
            final(self).wf(),
            r.wf(),
            r@ == (ProposalView {
                id: old(self).spec_next_id(),
                title: title@,
                description: description@,
                creator: creator@,
                created_at: now,
                end_time: deadline(now, duration_seconds),
                votes: Map::empty(),
                status: ProposalStatus::Active,
            }),
            !old(self)@.contains_key(r.id),
            final(self)@ == old(self)@.insert(r.id, r@),
            final(self).spec_next_id() == old(self).spec_next_id() + 1,
    {
        let id = self.next_id;
        self.next_id = id + 1;
        let p = Proposal {
            id,
            title,
            description,
            creator,
            created_at: now,
            end_time: end_time_of(now, duration_seconds),
            votes: Ledger::new(),
            status: ProposalStatus::Active,
        };
        let r = p.duplicate();
        let ghost before = self.proposals@;
        self.proposals.push(p);
        proof {
            assert forall|i: int|
                #![trigger self.proposals@[i]]
                0 <= i < self.proposals@.len() implies self.proposals@[i].id == i + 1
                    && self.proposals@[i].wf() by {
                if i < before.len() {
                    assert(self.proposals@[i] == before[i]);
                }
            }
            assert(self@ =~= old(self)@.insert(id, r@));
        }
        r
    }

    /// The proposal with identifier `id`, if any.
    pub fn get_proposal(&self, id: u64) -> (r: Option<Proposal>)
        requires
            self.wf(),
        ensures
            match r {
                Some(p) => self@.contains_key(id) && p@ == self@[id] && p.wf(),
                None => !self@.contains_key(id),
            },
    {
        if id >= 1 && id <= self.proposals.len() as u64 {
            proof {
                self.lemma_at(id);
            }
            Some(self.proposals[(id - 1) as usize].duplicate())
        } else {
            None
        }
    }

    /// Casts `voter`'s ballot `v` on proposal `proposal_id` at time `now`.
    /// Returns whether it was recorded: it is refused on an unknown
    /// proposal, on one that is no longer active, and after the deadline, in
    /// which case an active proposal is marked expired.
    pub fn vote(&mut self, voter: Identity, now: u64, proposal_id: u64, v: Vote) -> (r: bool)
        requires
            old(self).wf(),
        ensures
            final(self).wf(),
            final(self).spec_next_id() == old(self).spec_next_id(),
            !old(self)@.contains_key(proposal_id) ==> !r && final(self)@ == old(self)@,
            old(self)@.contains_key(proposal_id) ==> {
                let (p, accepted) = old(self)@[proposal_id].vote_step(voter@, now, v);
                &&& r == accepted
                &&& final(self)@ == old(self)@.insert(proposal_id, p)
            },
    {
        if proposal_id < 1 || proposal_id > self.proposals.len() as u64 {
            return false;
        }
        let i = (proposal_id - 1) as usize;
        let ghost before = self.proposals@;
        proof {
            self.lemma_at(proposal_id);
        }
        if self.proposals[i].status != ProposalStatus::Active {
            return false;
        }
        if now > self.proposals[i].end_time {
            self.proposals[i].status = ProposalStatus::Expired;
            proof {
                assert(self.proposals@ =~= before.update(
                    i as int,
                    self.proposals@[i as int],
                ));
                self.lemma_replaced(before, i as int);
                assert(self@ =~= old(self)@.insert(
                    proposal_id,
                    old(self)@[proposal_id].with_status(ProposalStatus::Expired),
                ));
            }
            return false;
        }
        let ghost k = voter@;
        self.proposals[i].votes.record(voter, v);
        proof {
            assert(self.proposals@ =~= before.update(
                i as int,
                self.proposals@[i as int],
            ));
            assert(self.proposals@[i as int]@ == before[i as int]@.with_vote(k, v));
            self.lemma_replaced(before, i as int);
            assert(self@ =~= old(self)@.insert(
                proposal_id,
                old(self)@[proposal_id].with_vote(k, v),
            ));
        }
        true
    }

    /// Closes proposal `proposal_id` at time `now` if its deadline has
    /// passed, and reports its status: `None` for an unknown proposal or one
    /// already closed, the active status while the deadline is ahead, and
    /// otherwise the terminal status now recorded.
    pub fn end_proposal(&mut self, now: u64, proposal_id: u64) -> (r: Option<ProposalStatus>)
        requires
            old(self).wf(),
        ensures
            final(self).wf(),
            final(self).spec_next_id() == old(self).spec_next_id(),
            !old(self)@.contains_key(proposal_id) ==> r is None && final(self)@ == old(self)@,
            old(self)@.contains_key(proposal_id) ==> {
                let (p, reported) = old(self)@[proposal_id].end_step(now);
                &&& r == reported
                &&& final(self)@ == old(self)@.insert(proposal_id, p)
            },
    {
        if proposal_id < 1 || proposal_id > self.proposals.len() as u64 {
            return None;
        }
        let i = (proposal_id - 1) as usize;
        let ghost before = self.proposals@;
        proof {
            self.lemma_at(proposal_id);
        }
        if self.proposals[i].status != ProposalStatus::Active {
            return None;
        }
        if now <= self.proposals[i].end_time {
            proof {
                assert(self@ =~= old(self)@.insert(proposal_id, old(self)@[proposal_id]));
            }
            return Some(ProposalStatus::Active);
        }
        let tally = self.proposals[i].results();
        let status = decide_outcome(tally.yes, tally.no);
        self.proposals[i].status = status;
        proof {
            assert(self.proposals@ =~= before.update(i as int, self.proposals@[i as int]));
            self.lemma_replaced(before, i as int);
            assert(self@ =~= old(self)@.insert(
                proposal_id,
                old(self)@[proposal_id].with_status(status),
            ));
        }
        Some(status)
    }

    /// Every proposal, in order of identifier.
    pub fn get_all_proposals(&self) -> (r: Vec<Proposal>)
        requires
            self.wf(),
        ensures
            r@.len() + 1 == self.spec_next_id(),
            forall|i: int| 0 <= i < r@.len() ==> #[trigger] r@[i]@ == self@[(i + 1) as u64] && r@[i].wf(),
    {
        let mut out: Vec<Proposal> = Vec::new();
        let mut i: usize = 0;
        while i < self.proposals.len()
            invariant
                self.wf(),
                0 <= i <= self.proposals@.len(),
                out@.len() == i,
                forall|j: int| 0 <= j < i ==> #[trigger] out@[j]@ == self@[(j + 1) as u64] && out@[j].wf(),
            decreases self.proposals@.len() - i,
        {
            proof {
                self.lemma_at((i + 1) as u64);
            }
            out.push(self.proposals[i].duplicate());
            i = i + 1;
        }
        out
    }

    /// The proposals in order of identifier, as values.
    pub open spec fn ordered(&self) -> Seq<ProposalView> {
        Seq::new((self.spec_next_id() - 1) as nat, |i: int| self@[(i + 1) as u64])
    }

    /// The proposals that are active and whose deadline lies after `now`, in
    /// order of identifier. Nothing is marked expired here.
    pub fn get_active_proposals(&self, now: u64) -> (r: Vec<Proposal>)
        requires
            self.wf(),
        ensures
            r@.map_values(|p: Proposal| p@) == self.ordered().filter(
                |p: ProposalView| p.status == ProposalStatus::Active && p.end_time > now,
            ),
            forall|i: int| 0 <= i < r@.len() ==> #[trigger] r@[i].wf(),
    {
        let ghost f = |p: ProposalView| p.status == ProposalStatus::Active && p.end_time > now;
        let ghost all = self.ordered();
        let mut out: Vec<Proposal> = Vec::new();
        let mut i: usize = 0;
        proof {
            reveal_with_fuel(Seq::filter, 1);
            assert(all.take(0) =~= Seq::<ProposalView>::empty());
            assert(out@.map_values(|p: Proposal| p@) =~= all.take(0).filter(f));
        }
        while i < self.proposals.len()
            invariant
                self.wf(),
                all == self.ordered(),
                f == (|p: ProposalView| p.status == ProposalStatus::Active && p.end_time > now),
                all.len() == self.proposals@.len(),
                0 <= i <= self.proposals@.len(),
                out@.map_values(|p: Proposal| p@) == all.take(i as int).filter(f),
                forall|j: int| 0 <= j < out@.len() ==> #[trigger] out@[j].wf(),
            decreases self.proposals@.len() - i,
        {
            proof {
                self.lemma_at((i + 1) as u64);
            }
            let ghost prev = out@;
            let ghost cur = self.proposals@[i as int]@;
            let keep = self.proposals[i].status == ProposalStatus::Active && self.proposals[i].end_time
                > now;
            if keep {
                out.push(self.proposals[i].duplicate());
                assert(out@.map_values(|p: Proposal| p@) =~= prev.map_values(|p: Proposal| p@).push(
                    cur,
                ));
            }
            proof {
                let t = all.take(i + 1);
                assert(t.drop_last() =~= all.take(i as int));
                assert(t.last() == cur);
                reveal_with_fuel(Seq::filter, 1);
                assert(t.filter(f) == if f(t.last()) {
                    t.drop_last().filter(f).push(t.last())
                } else {
                    t.drop_last().filter(f)
                });
                assert(out@.map_values(|p: Proposal| p@) =~= t.filter(f));
            }
            i = i + 1;
        }
        assert(all.take(all.len() as int) =~= all);
        out
    }

    /// The count of each vote kind on proposal `proposal_id`, whatever its
    /// status or deadline; `None` for an unknown proposal.
    pub fn get_proposal_results(&self, proposal_id: u64) -> (r: Option<Tally>)
        requires
            self.wf(),
        ensures
            match r {
                Some(t) => {
                    &&& self@.contains_key(proposal_id)
                    &&& t == Tally::of(self@[proposal_id].votes)
                    &&& t.yes + t.no + t.abstain == self@[proposal_id].votes.dom().len()
                },
                None => !self@.contains_key(proposal_id),
            },
    {
        if proposal_id < 1 || proposal_id > self.proposals.len() as u64 {
            return None;
        }
        proof {
            self.lemma_at(proposal_id);
        }
        let p = &self.proposals[(proposal_id - 1) as usize];
        let t = p.results();
        proof {
            p.votes.lemma_finite();
            lemma_counts_partition(p.votes@);
        }
        Some(t)
    }

    /// The ballot that `voter` holds on proposal `proposal_id`, if any.
    pub fn get_voter_status(&self, voter: &Identity, proposal_id: u64) -> (r: Option<Vote>)
        requires
            self.wf(),
        ensures
            r == (if self@.contains_key(proposal_id) && self@[proposal_id].votes.contains_key(voter@) {
                Some(self@[proposal_id].votes[voter@])
            } else {
                None::<Vote>
            }),
    {
        if proposal_id < 1 || proposal_id > self.proposals.len() as u64 {
            return None;
        }
        proof {
            self.lemma_at(proposal_id);
        }
        self.proposals[(proposal_id - 1) as usize].votes.get(voter)
    }

    proof fn lemma_at(&self, id: u64)
        requires
            self.wf(),
            1 <= id < self.next_id,
        ensures
            self@.contains_key(id),
            self@[id] == self.proposals@[id - 1]@,
            self.proposals@[id - 1].id == id,
            self.proposals@[id - 1].wf(),
    {
        assert(self.proposals@[id - 1].id == id - 1 + 1);
    }

    proof fn lemma_replaced(&self, before: Seq<Proposal>, i: int)
        requires
            self.next_id == before.len() + 1,
            self.proposals@.len() == before.len(),
            0 <= i < before.len(),
            forall|j: int| 0 <= j < before.len() && j != i ==> self.proposals@[j] == before[j],
            forall|j: int| #![trigger before[j]] 0 <= j < before.len() ==> before[j].id == j + 1 && before[j].wf(),
            self.proposals@[i].id == i + 1,
            self.proposals@[i].wf(),
        ensures
            self.wf(),
    {
        assert forall|j: int|
            #![trigger self.proposals@[j]]
            0 <= j < self.proposals@.len() implies self.proposals@[j].id == j + 1
                && self.proposals@[j].wf() by {
            if j != i {
                assert(self.proposals@[j] == before[j]);
            }
        }
    }
}

} // verus!
