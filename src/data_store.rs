use vstd::prelude::*;
use crate::identity::Identity;
use crate::keyed::{
    distinct_keys, lemma_map_of_keys, lemma_map_of_len, lemma_map_of_remove, lemma_map_of_update,
    lemma_map_of_value, map_of,
};

verus! {

/// A record that a caller keeps; every field is optional.
pub struct Data {
    pub text: Option<String>,
    pub number: Option<i64>,
    pub boolean: Option<bool>,
    pub array: Option<Vec<u64>>,
}

/// The mathematical content of a record.
pub ghost struct DataView {
    pub text: Option<Seq<char>>,
    pub number: Option<i64>,
    pub boolean: Option<bool>,
    pub array: Option<Seq<u64>>,
}

impl View for Data {
    type V = DataView;

    open spec fn view(&self) -> DataView {
        DataView {
            text: match self.text {
                Some(s) => Some(s@),
                None => None,
            },
            number: self.number,
            boolean: self.boolean,
            array: match self.array {
                Some(a) => Some(a@),
                None => None,
            },
        }
    }
}

impl Data {
    /// A copy of this record.
    pub fn duplicate(&self) -> (r: Data)
        ensures
            r@ == self@,
    {
        Data {
            text: match &self.text {
                Some(s) => Some(s.clone()),
                None => None,
            },
            number: self.number,
            boolean: self.boolean,
            array: match &self.array {
                Some(a) => Some(a.clone()),
                None => None,
            },
        }
    }
}

/// The (owner, record) pairs of a listing, as values.
pub open spec fn listed(s: Seq<(Identity, Data)>) -> Seq<(Seq<u8>, DataView)> {
    s.map_values(|e: (Identity, Data)| (e.0@, e.1@))
}

/// One record per caller, keyed by the caller's identity.
pub struct DataStore {
    entries: Vec<(Identity, Data)>,
}

impl View for DataStore {
    type V = Map<Seq<u8>, DataView>;

    open spec fn view(&self) -> Map<Seq<u8>, DataView> {
        map_of(self.pairs())
    }
}

impl DataStore {
    pub closed spec fn pairs(&self) -> Seq<(Seq<u8>, DataView)> {
        listed(self.entries@)
    }

    pub closed spec fn wf(&self) -> bool {
        distinct_keys(self.pairs())
    }

    /// An empty store.
    pub fn new() -> (r: DataStore)
        ensures
            r.wf(),
            r@ == Map::<Seq<u8>, DataView>::empty(),
    {
        let r = DataStore { entries: Vec::new() };
        assert(r.pairs() =~= Seq::<(Seq<u8>, DataView)>::empty());
        r
    }

    fn find(&self, caller: &Identity) -> (r: Option<usize>)
        requires
            self.wf(),
        ensures
            r is Some <==> self@.contains_key(caller@),
            match r {
                Some(i) => i < self.entries@.len() && self.pairs()[i as int].0 == caller@
                    && self@[caller@] == self.pairs()[i as int].1,
                None => true,
            },
    {
        proof {
            lemma_map_of_keys(self.pairs(), caller@);
        }
        let mut i: usize = 0;
        while i < self.entries.len()
            invariant
                self.wf(),
                0 <= i <= self.entries@.len(),
                forall|j: int| 0 <= j < i ==> self.pairs()[j].0 != caller@,
            decreases self.entries@.len() - i,
        {
            if self.entries[i].0.same_as(caller) {
                proof {
                    lemma_map_of_value(self.pairs(), i as int);
                }
                return Some(i);
            }
            i = i + 1;
        }
        None
    }

    /// Stores `data` as `caller`'s record, replacing any earlier one.
    pub fn store_data(&mut self, caller: Identity, data: Data) -> (r: bool)
        requires
            old(self).wf(),
        ensures
            final(self).wf(),
            final(self)@ == old(self)@.insert(caller@, data@),
            r,
    {
        let ghost s = self.pairs();
        let ghost k = caller@;
        let ghost d = data@;
        match self.find(&caller) {
            Some(i) => {
                proof {
                    lemma_map_of_update(s, i as int, d);
                }
                self.entries.set(i, (caller, data));
                assert(self.pairs() =~= s.update(i as int, (s[i as int].0, d)));
            },
            None => {
                proof {
                    lemma_map_of_keys(s, k);
                }
                self.entries.push((caller, data));
                assert(self.pairs() =~= s.push((k, d)));
                assert(self.pairs().drop_last() =~= s);
            },
        }
        true
    }

    /// `caller`'s record, if any.
    pub fn get_data(&self, caller: &Identity) -> (r: Option<Data>)
        requires
            self.wf(),
        ensures
            match r {
                Some(d) => self@.contains_key(caller@) && d@ == self@[caller@],
                None => !self@.contains_key(caller@),
            },
    {
        match self.find(caller) {
            Some(i) => Some(self.entries[i].1.duplicate()),
            None => None,
        }
    }

    /// Whether `caller` holds a record.
    pub fn has_data(&self, caller: &Identity) -> (r: bool)
        requires
            self.wf(),
        ensures
            r == self@.contains_key(caller@),
    {
        self.find(caller).is_some()
    }

    /// Removes `caller`'s record, if any.
    pub fn delete_data(&mut self, caller: &Identity) -> (r: bool)
        requires
            old(self).wf(),
        ensures
            final(self).wf(),
            final(self)@ == old(self)@.remove(caller@),
            r,
    {
        match self.find(caller) {
            Some(i) => {
                let ghost s = self.pairs();
                proof {
                    lemma_map_of_remove(s, i as int);
                }
                self.entries.remove(i);
                assert(self.pairs() =~= s.remove(i as int));
            },
            None => {
                assert(self@ =~= old(self)@.remove(caller@));
            },
        }
        true
    }

    /// Every (owner, record) pair, each owner once.
    pub fn get_all_data(&self) -> (r: Vec<(Identity, Data)>)
        requires
            self.wf(),
        ensures
            distinct_keys(listed(r@)),
            map_of(listed(r@)) == self@,
    {
        let mut out: Vec<(Identity, Data)> = Vec::new();
        let mut i: usize = 0;
        assert(listed(out@) =~= self.pairs().take(0));
        while i < self.entries.len()
            invariant
                0 <= i <= self.entries@.len(),
                listed(out@) == self.pairs().take(i as int),
            decreases self.entries@.len() - i,
        {
            let ghost prev = out@;
            out.push((self.entries[i].0.duplicate(), self.entries[i].1.duplicate()));
            assert(listed(out@) =~= listed(prev).push(self.pairs()[i as int]));
            i = i + 1;
            assert(listed(out@) =~= self.pairs().take(i as int));
        }
        assert(self.pairs().take(i as int) =~= self.pairs());
        out
    }

    /// Removes every record.
    pub fn clear_all_data(&mut self) -> (r: bool)
        ensures
            final(self).wf(),
            final(self)@ == Map::<Seq<u8>, DataView>::empty(),
            r,
    {
        self.entries.clear();
        assert(self.pairs() =~= Seq::<(Seq<u8>, DataView)>::empty());
        true
    }

    /// The number of stored records.
    pub fn get_data_count(&self) -> (r: u64)
        requires
            self.wf(),
        ensures
            r == self@.dom().len(),
    {
        proof {
            lemma_map_of_len(self.pairs());
        }
        self.entries.len() as u64
    }
}

} // verus!
