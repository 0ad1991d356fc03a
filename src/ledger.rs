use vstd::prelude::*;
use crate::identity::Identity;
use crate::keyed::{distinct_keys, lemma_map_of_keys, lemma_map_of_len, lemma_map_of_update, lemma_map_of_value, map_of};

verus! {

/// One voter's choice on a proposal.
#[derive(Clone, Copy, Debug, PartialEq, Eq, Structural, Hash)]
pub enum Vote {
    Yes,
    No,
    Abstain,
}

/// The voters of a ballot map who chose `v`.
pub open spec fn voters_for(m: Map<Seq<u8>, Vote>, v: Vote) -> Set<Seq<u8>> {
    m.dom().filter(|k: Seq<u8>| m[k] == v)
}

/// How many voters of a ballot map chose `v`.
pub open spec fn vote_count(m: Map<Seq<u8>, Vote>, v: Vote) -> nat {
    voters_for(m, v).len()
}

proof fn lemma_voters_for_finite(m: Map<Seq<u8>, Vote>, v: Vote)
    requires
        m.dom().finite(),
    ensures
        voters_for(m, v).finite(),
{
    vstd::set_lib::lemma_len_subset(voters_for(m, v), m.dom());
}

/// The count of each vote kind over a proposal's ballots.
#[derive(Clone, Copy, Debug, PartialEq, Eq, Structural)]
pub struct Tally {
    pub yes: u64,
    pub no: u64,
    pub abstain: u64,
}

impl Tally {
    pub open spec fn count_spec(&self, v: Vote) -> u64 {
        match v {
            Vote::Yes => self.yes,
            Vote::No => self.no,
            Vote::Abstain => self.abstain,
        }
    }

    /// The count recorded for vote kind `v`.
    pub fn get(&self, v: Vote) -> (r: u64)
        ensures
            r == self.count_spec(v),
    {
        match v {
            Vote::Yes => self.yes,
            Vote::No => self.no,
            Vote::Abstain => self.abstain,
        }
    }

    /// The tally of a ballot map.
    pub open spec fn of(m: Map<Seq<u8>, Vote>) -> Tally
        recommends
            vote_count(m, Vote::Yes) <= u64::MAX,
            vote_count(m, Vote::No) <= u64::MAX,
            vote_count(m, Vote::Abstain) <= u64::MAX,
    {
        Tally {
            yes: vote_count(m, Vote::Yes) as u64,
            no: vote_count(m, Vote::No) as u64,
            abstain: vote_count(m, Vote::Abstain) as u64,
        }
    }
}

/// The ballots cast on one proposal: at most one vote per voter.
pub struct Ledger {
    entries: Vec<(Identity, Vote)>,
}

impl View for Ledger {
    type V = Map<Seq<u8>, Vote>;

    open spec fn view(&self) -> Map<Seq<u8>, Vote> {
        map_of(self.pairs())
    }
}

impl Ledger {
    /// The ballots as (voter, vote) pairs, in order of each voter's first vote.
    pub closed spec fn pairs(&self) -> Seq<(Seq<u8>, Vote)> {
        self.entries@.map_values(|e: (Identity, Vote)| (e.0@, e.1))
    }

    /// No voter holds two entries.
    pub closed spec fn wf(&self) -> bool {
        distinct_keys(self.pairs())
    }

    /// An empty ledger.
    pub fn new() -> (r: Ledger)
        ensures
            r.wf(),
            r@ == Map::<Seq<u8>, Vote>::empty(),
    {
        let r = Ledger { entries: Vec::new() };
        assert(r.pairs() =~= Seq::<(Seq<u8>, Vote)>::empty());
        r
    }

    /// A copy of this ledger.
    pub fn duplicate(&self) -> (r: Ledger)
        requires
            self.wf(),
        ensures
            r.wf(),
            r@ == self@,
    {
        let mut entries: Vec<(Identity, Vote)> = Vec::new();
        let mut i: usize = 0;
        while i < self.entries.len()
            invariant
                0 <= i <= self.entries@.len(),
                entries@.len() == i,
                forall|j: int| 0 <= j < i ==> entries@[j].0@ == self.entries@[j].0@ && entries@[j].1
                    == self.entries@[j].1,
            decreases self.entries@.len() - i,
        {
            entries.push((self.entries[i].0.duplicate(), self.entries[i].1));
            i = i + 1;
        }
        let r = Ledger { entries };
        assert(r.pairs() =~= self.pairs());
        r
    }

    /// Every ledger's ballot map is finite.
    pub proof fn lemma_finite(&self)
        ensures
            self@.dom().finite(),
    {
        lemma_map_of_keys(self.pairs(), Seq::empty());
    }

    fn find(&self, voter: &Identity) -> (r: Option<usize>)
        ensures
            match r {
                Some(i) => i < self.pairs().len() && self.pairs()[i as int].0 == voter@,
                None => forall|j: int| 0 <= j < self.pairs().len() ==> self.pairs()[j].0 != voter@,
            },
    {
        let mut i: usize = 0;
        while i < self.entries.len()
            invariant
                0 <= i <= self.entries@.len(),
                forall|j: int| 0 <= j < i ==> self.pairs()[j].0 != voter@,
            decreases self.entries@.len() - i,
        {
            if self.entries[i].0.same_as(voter) {
                return Some(i);
            }
            i = i + 1;
        }
        None
    }

    /// The vote recorded for `voter`, if any.
    pub fn get(&self, voter: &Identity) -> (r: Option<Vote>)
        requires
            self.wf(),
        ensures
            r == (if self@.contains_key(voter@) {
                Some(self@[voter@])
            } else {
                None::<Vote>
            }),
    {
        proof {
            lemma_map_of_keys(self.pairs(), voter@);
        }
        match self.find(voter) {
            Some(i) => {
                proof {
                    lemma_map_of_value(self.pairs(), i as int);
                }
                Some(self.entries[i].1)
            },
            None => None,
        }
    }

    /// Records `vote` for `voter`, replacing any earlier vote of theirs.
    pub fn record(&mut self, voter: Identity, vote: Vote)
        requires
            old(self).wf(),
        ensures
            final(self).wf(),
            final(self)@ == old(self)@.insert(voter@, vote),
    {
        let ghost s = self.pairs();
        match self.find(&voter) {
            Some(i) => {
                proof {
                    lemma_map_of_update(s, i as int, vote);
                }
                self.entries.set(i, (voter, vote));
                assert(self.pairs() =~= s.update(i as int, (s[i as int].0, vote)));
            },
            None => {
                let ghost k = voter@;
                self.entries.push((voter, vote));
                assert(self.pairs() =~= s.push((k, vote)));
                assert(self.pairs().drop_last() =~= s);
            },
        }
    }

    /// The number of distinct voters.
    pub fn voter_count(&self) -> (r: usize)
        requires
            self.wf(),
        ensures
            r == self@.dom().len(),
    {
        proof {
            lemma_map_of_len(self.pairs());
        }
        self.entries.len()
    }

    /// The `i`-th ballot, counting voters in order of their first vote.
    pub fn ballot(&self, i: usize) -> (r: (&Identity, Vote))
        requires
            self.wf(),
            i < self@.dom().len(),
        ensures
            self@.contains_key(r.0@),
            self@[r.0@] == r.1,
    {
        proof {
            lemma_map_of_len(self.pairs());
            lemma_map_of_value(self.pairs(), i as int);
        }
        (&self.entries[i].0, self.entries[i].1)
    }

    /// The count of each vote kind.
    pub fn tally(&self) -> (r: Tally)
        requires
            self.wf(),
        ensures
            vote_count(self@, Vote::Yes) <= u64::MAX,
            vote_count(self@, Vote::No) <= u64::MAX,
            vote_count(self@, Vote::Abstain) <= u64::MAX,
            r == Tally::of(self@),
    {
        let ghost s = self.pairs();
        let mut yes: u64 = 0;
        let mut no: u64 = 0;
        let mut abstain: u64 = 0;
        let mut i: usize = 0;
        proof {
            let e = map_of(s.take(0));
            assert(s.take(0) =~= Seq::<(Seq<u8>, Vote)>::empty());
            assert(voters_for(e, Vote::Yes) =~= Set::empty());
            assert(voters_for(e, Vote::No) =~= Set::empty());
            assert(voters_for(e, Vote::Abstain) =~= Set::empty());
        }
        while i < self.entries.len()
            invariant
                s == self.pairs(),
                distinct_keys(s),
                0 <= i <= s.len(),
                yes == vote_count(map_of(s.take(i as int)), Vote::Yes),
                no == vote_count(map_of(s.take(i as int)), Vote::No),
                abstain == vote_count(map_of(s.take(i as int)), Vote::Abstain),
                yes + no + abstain == i,
            decreases s.len() - i,
        {
            let ghost p = s.take(i as int);
            let ghost q = s.take(i + 1);
            proof {
                assert(q.drop_last() =~= p);
                lemma_map_of_keys(p, s[i as int].0);
                if map_of(p).contains_key(s[i as int].0) {
                    let j = choose|j: int| 0 <= j < p.len() && p[j].0 == s[i as int].0;
                    assert(s[j].0 == s[i as int].0);
                }
                lemma_vote_count_insert(map_of(p), s[i as int].0, s[i as int].1, Vote::Yes);
                lemma_vote_count_insert(map_of(p), s[i as int].0, s[i as int].1, Vote::No);
                lemma_vote_count_insert(map_of(p), s[i as int].0, s[i as int].1, Vote::Abstain);
            }
            match self.entries[i].1 {
                Vote::Yes => yes = yes + 1,
                Vote::No => no = no + 1,
                Vote::Abstain => abstain = abstain + 1,
            }
            i = i + 1;
        }
        assert(s.take(s.len() as int) =~= s);
        Tally { yes, no, abstain }
    }
}

/// Adding a voter who has not voted yet raises the count of their choice by
/// one and leaves the other counts unchanged.
pub proof fn lemma_vote_count_insert(m: Map<Seq<u8>, Vote>, k: Seq<u8>, x: Vote, v: Vote)
    requires
        m.dom().finite(),
        !m.contains_key(k),
    ensures
        vote_count(m.insert(k, x), v) == vote_count(m, v) + if x == v {
            1nat
        } else {
            0nat
        },
{
    let m2 = m.insert(k, x);
    let f = voters_for(m, v);
    let f2 = voters_for(m2, v);
    lemma_voters_for_finite(m, v);
    if x == v {
        assert(f2 =~= f.insert(k));
    } else {
        assert(f2 =~= f);
    }
}

/// Every voter of a finite ballot map is counted under exactly one vote
/// kind.
pub proof fn lemma_counts_partition(m: Map<Seq<u8>, Vote>)
    requires
        m.dom().finite(),
    ensures
        vote_count(m, Vote::Yes) + vote_count(m, Vote::No) + vote_count(m, Vote::Abstain)
            == m.dom().len(),
{
    let fy = voters_for(m, Vote::Yes);
    let fn_ = voters_for(m, Vote::No);
    let fa = voters_for(m, Vote::Abstain);
    lemma_voters_for_finite(m, Vote::Yes);
    lemma_voters_for_finite(m, Vote::No);
    lemma_voters_for_finite(m, Vote::Abstain);
    vstd::set_lib::lemma_set_disjoint_lens(fy, fn_);
    vstd::set_lib::lemma_set_disjoint_lens(fy + fn_, fa);
    assert(fy + fn_ + fa =~= m.dom());
}

} // verus!
